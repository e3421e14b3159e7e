//! The command actor: the single owner of the database, the replica roster
//! and the replication offset.  `handle` executes one command against that
//! state and returns the reply values; `run_commands` executes a batch in
//! order, as the actor's loop does, and also yields the write commands to fan
//! out, in commit order.
use vstd::prelude::*;
use vstd::string::StrSliceExecFns;
use vstd::string::StringSliceAdditionalSpecFns;
use crate::command::cmd_size;
use crate::command::cmd_value_model;
use crate::command::lit_replconf;
use crate::command::to_value_fits;
use crate::command::CModel;
use crate::command::Command;
use crate::database::expired;
use crate::database::Database;
use crate::database::EntryModel;
use crate::num::dec_nat;
use crate::replication::is_getack;
use crate::replication::ReplicationManager;
use crate::value::models_of;
use crate::value::well_sized;
use crate::value::wire;
use crate::value::Value;
use crate::value::VModel;

verus! {

broadcast use vstd::std_specs::vec::group_vec_axioms;

/// How the server was started.
#[derive(Clone)]
pub struct ServerOptions {
    pub port: u16,
    pub replica_of: Option<String>,
}

/// The parsed command line: the bind port and, for a replica, the upstream
/// master's address.
pub struct RedisArguments {
    pub port: u16,
    pub replica_of: Option<String>,
}

/// The actor is gone; a command could not be delivered to it.
#[derive(Debug)]
pub struct ServerSendError;

/// The actor's state, mathematically.
pub struct ServerModel {
    pub is_replica: bool,
    pub db: Map<Seq<u8>, EntryModel>,
    pub offset: int,
    pub replica_count: int,
}

pub open spec fn lit_pong() -> Seq<u8> {
    seq![80u8, 79u8, 78u8, 71u8]
}

pub open spec fn lit_ok() -> Seq<u8> {
    seq![79u8, 75u8]
}

pub open spec fn lit_ack() -> Seq<u8> {
    seq![65u8, 67u8, 75u8]
}

/// The INFO reply body.
pub open spec fn info_body(replica: bool) -> Seq<u8> {
    "# Replication\nrole:".spec_bytes() + (if replica {
        "slave".spec_bytes()
    } else {
        "master".spec_bytes()
    }) + "\nmaster_replid:8371b4fb1155b71f4a04d3e1bc3e18c4a990aeeb\nmaster_repl_offset:0\n".spec_bytes()
}

/// The header line answering a full resynchronisation request.
pub open spec fn fullresync_line() -> Seq<u8> {
    "FULLRESYNC 8371b4fb1155b71f4a04d3e1bc3e18c4a990aeeb 0".spec_bytes()
}

/// The point-in-time snapshot a master hands to a new replica: a fixed
/// minimal empty-database image, shipped as a bulk-bytes frame.
pub open spec fn spec_snapshot() -> Seq<u8> {
    seq![
        82u8, 69u8, 68u8, 73u8, 83u8, 48u8, 48u8, 49u8, 49u8, 250u8, 9u8, 114u8, 101u8, 100u8,
        105u8, 115u8, 45u8, 118u8, 101u8, 114u8, 5u8, 55u8, 46u8, 50u8, 46u8, 48u8, 250u8, 10u8,
        114u8, 101u8, 100u8, 105u8, 115u8, 45u8, 98u8, 105u8, 116u8, 115u8, 192u8, 64u8, 250u8,
        5u8, 99u8, 116u8, 105u8, 109u8, 101u8, 194u8, 109u8, 8u8, 188u8, 101u8, 250u8, 8u8, 117u8,
        115u8, 101u8, 100u8, 45u8, 109u8, 101u8, 109u8, 194u8, 176u8, 196u8, 16u8, 0u8, 250u8,
        8u8, 97u8, 111u8, 102u8, 45u8, 98u8, 97u8, 115u8, 101u8, 192u8, 0u8, 255u8, 240u8, 110u8,
        59u8, 254u8, 192u8, 255u8, 90u8, 162u8,
    ]
}

/// The replies one command produces against the given state at instant
/// `now`.  The acknowledgement probe reports the offset with the probe's own
/// wire size already counted.
pub open spec fn spec_replies(m: ServerModel, c: CModel, now: u64) -> Seq<VModel> {
    match c {
        CModel::Ping { message: Option::None, .. } => seq![VModel::Simple(lit_pong())],
        CModel::Ping { message: Option::Some(msg), .. } => seq![VModel::Bulk(msg)],
        CModel::Echo { message, .. } => seq![VModel::Bulk(message)],
        CModel::Get { key, .. } => if m.db.contains_key(key) && !expired(m.db[key], now as int) {
            seq![VModel::Bulk(m.db[key].value)]
        } else {
            seq![VModel::NullBulk]
        },
        CModel::SetKey { .. } => seq![VModel::Simple(lit_ok())],
        CModel::Info { .. } => seq![VModel::Bulk(info_body(m.is_replica))],
        CModel::Replconf { .. } => if is_getack(c) {
            seq![
                VModel::Arr(
                    seq![
                        VModel::Bulk(lit_replconf()),
                        VModel::Bulk(lit_ack()),
                        VModel::Bulk(dec_nat((m.offset + cmd_size(c)) as nat)),
                    ],
                ),
            ]
        } else {
            seq![VModel::Simple(lit_ok())]
        },
        CModel::Psync { .. } => seq![
            VModel::Simple(fullresync_line()),
            VModel::Bytes(spec_snapshot()),
        ],
        CModel::Wait { .. } => seq![VModel::Int(m.replica_count)],
    }
}

/// The state after one command: the offset always advances by the command's
/// wire size; `SET` writes its entry; an expired `GET` removes its key.
pub open spec fn spec_step(m: ServerModel, c: CModel, now: u64) -> ServerModel {
    let off = m.offset + cmd_size(c);
    match c {
        CModel::Get { key, .. } => if m.db.contains_key(key) && expired(m.db[key], now as int) {
            ServerModel {
                is_replica: m.is_replica,
                db: m.db.remove(key),
                offset: off,
                replica_count: m.replica_count,
            }
        } else {
            ServerModel {
                is_replica: m.is_replica,
                db: m.db,
                offset: off,
                replica_count: m.replica_count,
            }
        },
        CModel::SetKey { key, value, expiry, .. } => ServerModel {
            is_replica: m.is_replica,
            db: m.db.insert(key, EntryModel { value, expiry, created_at: now }),
            offset: off,
            replica_count: m.replica_count,
        },
        _ => ServerModel {
            is_replica: m.is_replica,
            db: m.db,
            offset: off,
            replica_count: m.replica_count,
        },
    }
}

/// The replies a command needs room to build: the machine-width bound on the
/// one bulk string it may echo back or store.
pub open spec fn cmd_reply_fits(c: CModel) -> bool {
    match c {
        CModel::Ping { message: Option::Some(m), .. } => m.len() + 25 <= usize::MAX,
        CModel::Echo { message, .. } => message.len() + 25 <= usize::MAX,
        CModel::SetKey { value, .. } => value.len() + 25 <= usize::MAX,
        _ => true,
    }
}

/// The single-writer owner of database, roster, role and offset.
pub struct Server {
    options: ServerOptions,
    database: Database,
    replication: ReplicationManager,
    offset: u64,
}

impl View for Server {
    type V = ServerModel;

    closed spec fn view(&self) -> ServerModel {
        ServerModel {
            is_replica: self.options.replica_of is Some,
            db: self.database@,
            offset: self.offset as int,
            replica_count: self.replication@.len() as int,
        }
    }
}

impl Server {
    pub closed spec fn wf(&self) -> bool {
        &&& self.database.wf()
        &&& self.replication@.len() <= i64::MAX
        &&& forall|k: Seq<u8>|
            #[trigger] self.database@.contains_key(k) ==> self.database@[k].value.len() + 25
                <= usize::MAX
    }

    pub fn new(options: ServerOptions) -> (r: Server)
        ensures
            r.wf(),
            r@.db == Map::<Seq<u8>, EntryModel>::empty(),
            r@.offset == 0,
            r@.replica_count == 0,
            r@.is_replica == (options.replica_of is Some),
    {
        Server {
            options,
            database: Database::new(),
            replication: ReplicationManager::new(),
            offset: 0,
        }
    }

    /// Registers a replica; the roster grows by one.
    pub fn add_replica(&mut self, address: String)
        requires
            old(self).wf(),
            old(self)@.replica_count + 1 <= i64::MAX,
        ensures
            final(self).wf(),
            final(self)@ == (ServerModel {
                replica_count: old(self)@.replica_count + 1,
                ..old(self)@
            }),
    {
        self.replication.add(address);
        proof {
            assert(self.replication@.len() == old(self).replication@.len() + 1);
        }
    }

    /// The fan-out payload for a command: its array form if it is a write.
    pub fn replicate(&self, command: &Command) -> (r: Option<Value>)
        requires
            command@ is SetKey ==> to_value_fits(command@),
        ensures
            command@ is SetKey ==> (r matches Some(v) && v@ == cmd_value_model(command@)),
            !(command@ is SetKey) ==> r is None,
    {
        self.replication.replicate(command)
    }

    /// Drops replicas whose sends failed.
    pub fn drop_failed(&mut self, alive: &Vec<bool>)
        requires
            old(self).wf(),
            alive@.len() == old(self)@.replica_count,
        ensures
            final(self).wf(),
            final(self)@.db == old(self)@.db,
            final(self)@.offset == old(self)@.offset,
            final(self)@.is_replica == old(self)@.is_replica,
            final(self)@.replica_count <= old(self)@.replica_count,
    {
        let ghost before = self.replication@;
        self.replication.drop_failed(alive);
        proof {
            crate::replication::lemma_filter_flags_len(before, alive@);
        }
    }

    /// Executes one command at instant `now`: the replies go back to the
    /// caller, the state steps as `spec_step` says.
    pub fn handle(&mut self, command: &Command, now: u64) -> (r: Vec<Value>)
        requires
            old(self).wf(),
            old(self)@.offset + cmd_size(command@) <= u64::MAX,
            cmd_reply_fits(command@),
        ensures
            final(self).wf(),
            final(self)@ == spec_step(old(self)@, command@, now),
            r@.map_values(|v: Value| v@) == spec_replies(old(self)@, command@, now),
            forall|i: int| 0 <= i < r@.len() ==> well_sized(#[trigger] r@[i]),
    {
        let ghost m0 = self@;
        let size = command.size();
        self.offset = self.offset + size as u64;
        let mut replies: Vec<Value> = Vec::new();
        match command {
            Command::Ping { message, .. } => {
                match message {
                    None => {
                        proof {
                            reveal_strlit("PONG");
                            vstd::string::is_ascii_spec_bytes("PONG");
                            assert("PONG".spec_bytes() =~= lit_pong());
                        }
                        replies.push(Value::simple_string("PONG"));
                    },
                    Some(msg) => {
                        proof {
                            crate::num::lemma_dec_u64_len(msg@.len() as nat);
                        }
                        replies.push(Value::bulk_string_from_bytes(msg.clone()));
                    },
                }
            },
            Command::Echo { message, .. } => {
                proof {
                    crate::num::lemma_dec_u64_len(message@.len() as nat);
                }
                replies.push(Value::bulk_string_from_bytes(message.clone()));
            },
            Command::Get { key, .. } => {
                match self.database.get(key.clone(), now) {
                    Some(value) => {
                        proof {
                            crate::num::lemma_dec_u64_len(value@.len() as nat);
                        }
                        replies.push(Value::bulk_string_from_bytes(value));
                    },
                    None => {
                        replies.push(Value::NullBulkString);
                    },
                }
            },
            Command::SetKey { key, value, expiry, .. } => {
                self.database.set(key.clone(), value.clone(), *expiry, now);
                proof {
                    reveal_strlit("OK");
                    vstd::string::is_ascii_spec_bytes("OK");
                    assert("OK".spec_bytes() =~= lit_ok());
                }
                replies.push(Value::simple_string("OK"));
            },
            Command::Info { .. } => {
                let body = info_bytes(&self.options);
                proof {
                    lemma_info_body_len(self.options.replica_of is Some);
                    crate::num::lemma_dec_u64_len(body@.len() as nat);
                }
                replies.push(Value::bulk_string_from_bytes(body));
            },
            Command::Replconf { key, .. } => {
                let mut pat: Vec<u8> = Vec::new();
                pat.push(71);
                pat.push(69);
                pat.push(84);
                pat.push(65);
                pat.push(67);
                pat.push(75);
                proof {
                    assert(pat@ =~= crate::replication::lit_getack());
                }
                if crate::strutil::eq_ignore_ascii_upper(key.as_slice(), pat.as_slice()) {
                    replies.push(ack_value(self.offset));
                } else {
                    proof {
                        reveal_strlit("OK");
                        vstd::string::is_ascii_spec_bytes("OK");
                        assert("OK".spec_bytes() =~= lit_ok());
                    }
                    replies.push(Value::simple_string("OK"));
                }
            },
            Command::Psync { .. } => {
                proof {
                    reveal_strlit("FULLRESYNC 8371b4fb1155b71f4a04d3e1bc3e18c4a990aeeb 0");
                    vstd::string::is_ascii_spec_bytes(
                        "FULLRESYNC 8371b4fb1155b71f4a04d3e1bc3e18c4a990aeeb 0",
                    );
                }
                replies.push(
                    Value::simple_string("FULLRESYNC 8371b4fb1155b71f4a04d3e1bc3e18c4a990aeeb 0"),
                );
                let snap = snapshot_bytes();
                let frame = Value::BulkBytes((93, snap));
                proof {
                    crate::num::lemma_dec_nat(spec_snapshot().len() as nat);
                    assert(dec_nat(88nat).len() == 2) by {
                        assert(dec_nat(88nat) =~= dec_nat(8nat) + seq![56u8]);
                    }
                    assert(wire(frame@).len() == 93);
                }
                replies.push(frame);
            },
            Command::Wait { .. } => {
                let count = self.replication.connected_replicas();
                replies.push(Value::integer(count));
            },
        }
        proof {
            assert(replies@.map_values(|v: Value| v@) =~= spec_replies(m0, command@, now));
            assert(self@ == spec_step(m0, command@, now)) by {
                match command@ {
                    CModel::Get { key, .. } => {
                        if m0.db.contains_key(key) && expired(m0.db[key], now as int) {
                            assert(self@.db =~= spec_step(m0, command@, now).db);
                        } else {
                            assert(self@.db =~= spec_step(m0, command@, now).db);
                        }
                    },
                    _ => {
                        assert(self@.db =~= spec_step(m0, command@, now).db);
                    },
                }
            }
        }
        replies
    }
}

/// The `REPLCONF ACK` array for the given offset.
fn ack_value(offset: u64) -> (r: Value)
    ensures
        r@ == VModel::Arr(
            seq![
                VModel::Bulk(lit_replconf()),
                VModel::Bulk(lit_ack()),
                VModel::Bulk(dec_nat(offset as nat)),
            ],
        ),
        well_sized(r),
{
    let mut name: Vec<u8> = Vec::new();
    name.push(82);
    name.push(69);
    name.push(80);
    name.push(76);
    name.push(67);
    name.push(79);
    name.push(78);
    name.push(70);
    proof {
        assert(name@ =~= lit_replconf());
    }
    let mut ack: Vec<u8> = Vec::new();
    ack.push(65);
    ack.push(67);
    ack.push(75);
    proof {
        assert(ack@ =~= lit_ack());
    }
    let digits = crate::num::u64_dec(offset);
    proof {
        crate::num::lemma_dec_u64_len(offset as nat);
        crate::num::lemma_dec_nat(name@.len() as nat);
        crate::num::lemma_dec_nat(ack@.len() as nat);
        crate::num::lemma_dec_nat(digits@.len() as nat);
        crate::num::lemma_dec_u64_len(name@.len() as nat);
        crate::num::lemma_dec_u64_len(ack@.len() as nat);
        crate::num::lemma_dec_u64_len(digits@.len() as nat);
    }
    let b0 = Value::bulk_string_from_bytes(name);
    let b1 = Value::bulk_string_from_bytes(ack);
    let b2 = Value::bulk_string_from_bytes(digits);
    let ghost m0 = b0@;
    let ghost m1 = b1@;
    let ghost m2 = b2@;
    let ghost w0 = crate::value::stored_size(b0);
    let ghost w1 = crate::value::stored_size(b1);
    let ghost w2 = crate::value::stored_size(b2);
    let mut values: Vec<Value> = Vec::new();
    values.push(b0);
    values.push(b1);
    values.push(b2);
    let ghost ms = seq![m0, m1, m2];
    proof {
        crate::value::lemma_models_of(values@);
        assert(values@[0] == b0 && values@[1] == b1 && values@[2] == b2);
        assert(models_of(values@).len() == 3);
        assert(models_of(values@)[0] == m0);
        assert(models_of(values@)[1] == m1);
        assert(models_of(values@)[2] == m2);
        assert(models_of(values@) =~= ms);
        crate::value::lemma_well_sized_seq_all(values@);
        let t1 = ms.drop_first();
        let t2 = t1.drop_first();
        assert(t1 =~= seq![m1, m2]);
        assert(t2 =~= seq![m2]);
        assert(t2.drop_first() =~= Seq::<VModel>::empty());
        assert(crate::value::wire_seq(Seq::<VModel>::empty()) =~= Seq::<u8>::empty());
        assert(crate::value::wire_seq(t2) =~= wire(m2));
        assert(crate::value::wire_seq(t1) =~= wire(m1) + wire(m2));
        assert(crate::value::wire_seq(ms) =~= wire(m0) + (wire(m1) + wire(m2)));
        assert(wire(m0).len() == w0 && wire(m1).len() == w1 && wire(m2).len() == w2);
        crate::num::lemma_dec_nat(ms.len() as nat);
        assert(wire(VModel::Arr(ms)).len() <= usize::MAX);
    }
    let r = crate::value::array_value(values);
    r
}

/// The INFO reply body, as bytes.
fn info_bytes(options: &ServerOptions) -> (r: Vec<u8>)
    ensures
        r@ == info_body(options.replica_of is Some),
{
    let mut body = "# Replication\nrole:".as_bytes_vec();
    match &options.replica_of {
        Some(_) => {
            let mut role = "slave".as_bytes_vec();
            body.append(&mut role);
        },
        None => {
            let mut role = "master".as_bytes_vec();
            body.append(&mut role);
        },
    }
    let mut rest =
        "\nmaster_replid:8371b4fb1155b71f4a04d3e1bc3e18c4a990aeeb\nmaster_repl_offset:0\n".as_bytes_vec();
    body.append(&mut rest);
    proof {
        assert(body@ =~= info_body(options.replica_of is Some));
    }
    body
}

/// The INFO body is far below the machine's size limit.
proof fn lemma_info_body_len(replica: bool)
    ensures
        info_body(replica).len() + 25 <= usize::MAX,
{
    reveal_strlit("# Replication\nrole:");
    reveal_strlit("slave");
    reveal_strlit("master");
    reveal_strlit("\nmaster_replid:8371b4fb1155b71f4a04d3e1bc3e18c4a990aeeb\nmaster_repl_offset:0\n");
    vstd::string::is_ascii_spec_bytes("# Replication\nrole:");
    vstd::string::is_ascii_spec_bytes("slave");
    vstd::string::is_ascii_spec_bytes("master");
    vstd::string::is_ascii_spec_bytes(
        "\nmaster_replid:8371b4fb1155b71f4a04d3e1bc3e18c4a990aeeb\nmaster_repl_offset:0\n",
    );
}

/// The snapshot, as bytes.
fn snapshot_bytes() -> (r: Vec<u8>)
    ensures
        r@ == spec_snapshot(),
{
    let r: Vec<u8> = vec![
        82u8, 69, 68, 73, 83, 48, 48, 49, 49, 250, 9, 114, 101, 100, 105, 115, 45, 118, 101, 114,
        5, 55, 46, 50, 46, 48, 250, 10, 114, 101, 100, 105, 115, 45, 98, 105, 116, 115, 192, 64,
        250, 5, 99, 116, 105, 109, 101, 194, 109, 8, 188, 101, 250, 8, 117, 115, 101, 100, 45,
        109, 101, 109, 194, 176, 196, 16, 0, 250, 8, 97, 111, 102, 45, 98, 97, 115, 101, 192, 0,
        255, 240, 110, 59, 254, 192, 255, 90, 162,
    ];
    proof {
        assert(r@ =~= spec_snapshot());
    }
    r
}

/// The total wire size of a batch of commands.
pub open spec fn sum_sizes(cs: Seq<CModel>) -> int
    decreases cs.len(),
{
    if cs.len() == 0 {
        0
    } else {
        cmd_size(cs[0]) + sum_sizes(cs.drop_first())
    }
}

/// The state after a batch, applied in order.
pub open spec fn spec_run(m: ServerModel, cs: Seq<CModel>, now: u64) -> ServerModel
    decreases cs.len(),
{
    if cs.len() == 0 {
        m
    } else {
        spec_run(spec_step(m, cs[0], now), cs.drop_first(), now)
    }
}

/// The reply lists of a batch, one per command, in delivery order.
pub open spec fn spec_run_replies(m: ServerModel, cs: Seq<CModel>, now: u64) -> Seq<Seq<VModel>>
    decreases cs.len(),
{
    if cs.len() == 0 {
        Seq::empty()
    } else {
        seq![spec_replies(m, cs[0], now)] + spec_run_replies(
            spec_step(m, cs[0], now),
            cs.drop_first(),
            now,
        )
    }
}

/// The array forms of the batch's write commands, in commit order: what is
/// enqueued once to every registered replica.
pub open spec fn write_values(cs: Seq<CModel>) -> Seq<VModel>
    decreases cs.len(),
{
    if cs.len() == 0 {
        Seq::empty()
    } else {
        (if cs[0] is SetKey {
            seq![cmd_value_model(cs[0])]
        } else {
            Seq::empty()
        }) + write_values(cs.drop_first())
    }
}

pub proof fn lemma_run_snoc(m: ServerModel, cs: Seq<CModel>, c: CModel, now: u64)
    ensures
        spec_run(m, cs.push(c), now) == spec_step(spec_run(m, cs, now), c, now),
        spec_run_replies(m, cs.push(c), now) == spec_run_replies(m, cs, now).push(
            spec_replies(spec_run(m, cs, now), c, now),
        ),
        sum_sizes(cs.push(c)) == sum_sizes(cs) + cmd_size(c),
        write_values(cs.push(c)) == write_values(cs) + (if c is SetKey {
            seq![cmd_value_model(c)]
        } else {
            Seq::<VModel>::empty()
        }),
    decreases cs.len(),
{
    let p = cs.push(c);
    if cs.len() == 0 {
        assert(p[0] == c);
        assert(p.drop_first() =~= Seq::<CModel>::empty());
        assert(spec_run(spec_step(m, c, now), p.drop_first(), now) == spec_step(m, c, now));
        assert(spec_run_replies(spec_step(m, c, now), p.drop_first(), now)
            =~= Seq::<Seq<VModel>>::empty());
        assert(write_values(p.drop_first()) =~= Seq::<VModel>::empty());
        assert(sum_sizes(p.drop_first()) == 0);
        assert(spec_run_replies(m, p, now) =~= spec_run_replies(m, cs, now).push(
            spec_replies(m, c, now),
        ));
        assert(write_values(p) =~= write_values(cs) + (if c is SetKey {
            seq![cmd_value_model(c)]
        } else {
            Seq::<VModel>::empty()
        }));
    } else {
        lemma_run_snoc(spec_step(m, cs[0], now), cs.drop_first(), c, now);
        assert(p.drop_first() =~= cs.drop_first().push(c));
        assert(p[0] == cs[0]);
        assert(spec_run_replies(m, p, now) =~= spec_run_replies(m, cs, now).push(
            spec_replies(spec_run(m, cs, now), c, now),
        ));
        assert(write_values(p) =~= write_values(cs) + (if c is SetKey {
            seq![cmd_value_model(c)]
        } else {
            Seq::<VModel>::empty()
        }));
    }
}

/// The replica's offset after a batch is its offset before, plus the sum of
/// the commands' wire sizes.  Role, roster and nothing else about the offset
/// change.
pub proof fn lemma_run_offset(m: ServerModel, cs: Seq<CModel>, now: u64)
    ensures
        spec_run(m, cs, now).offset == m.offset + sum_sizes(cs),
        spec_run(m, cs, now).is_replica == m.is_replica,
        spec_run(m, cs, now).replica_count == m.replica_count,
    decreases cs.len(),
{
    if cs.len() > 0 {
        lemma_run_offset(spec_step(m, cs[0], now), cs.drop_first(), now);
    }
}

/// A prefix of a batch never outweighs the batch.
pub proof fn lemma_sum_take_le(cs: Seq<CModel>, k: int)
    requires
        0 <= k <= cs.len(),
        forall|i: int| 0 <= i < cs.len() ==> cmd_size(#[trigger] cs[i]) >= 0,
    ensures
        sum_sizes(cs.take(k)) <= sum_sizes(cs),
        k < cs.len() ==> sum_sizes(cs.take(k)) + cmd_size(cs[k]) <= sum_sizes(cs),
    decreases cs.len() - k,
{
    if k < cs.len() {
        lemma_sum_take_le(cs, k + 1);
        assert(cs.take(k + 1) =~= cs.take(k).push(cs[k]));
        lemma_run_snoc(
            ServerModel {
                is_replica: false,
                db: Map::empty(),
                offset: 0,
                replica_count: 0,
            },
            cs.take(k),
            cs[k],
            0,
        );
    } else {
        assert(cs.take(k) =~= cs);
    }
}

/// After `SET K X`, a `GET K` with no intervening command returns `X`: always
/// when the write had no expiry, and otherwise as long as the expiry has not
/// passed.
pub proof fn lemma_set_then_get(
    m: ServerModel,
    sz1: int,
    sz2: int,
    k: Seq<u8>,
    x: Seq<u8>,
    px: Option<u64>,
    now1: u64,
    now2: u64,
)
    requires
        px matches Option::Some(p) ==> !(now1 + p < now2),
    ensures
        spec_replies(
            spec_step(m, CModel::SetKey { size: sz1, key: k, value: x, expiry: px }, now1),
            CModel::Get { size: sz2, key: k },
            now2,
        ) == seq![VModel::Bulk(x)],
{
    let m1 = spec_step(m, CModel::SetKey { size: sz1, key: k, value: x, expiry: px }, now1);
    assert(m1.db.contains_key(k));
    assert(m1.db[k].value == x);
    assert(!expired(m1.db[k], now2 as int));
}

/// After `SET K X PX p`, a `GET K` strictly after `p` milliseconds returns
/// the null bulk string and removes the entry.
pub proof fn lemma_expired_get(
    m: ServerModel,
    sz1: int,
    sz2: int,
    k: Seq<u8>,
    x: Seq<u8>,
    p: u64,
    now1: u64,
    now2: u64,
)
    requires
        now1 + p < now2,
    ensures
        ({
            let m1 = spec_step(
                m,
                CModel::SetKey { size: sz1, key: k, value: x, expiry: Option::Some(p) },
                now1,
            );
            &&& spec_replies(m1, CModel::Get { size: sz2, key: k }, now2) == seq![
                VModel::NullBulk,
            ]
            &&& spec_step(m1, CModel::Get { size: sz2, key: k }, now2).db == m1.db.remove(k)
        }),
{
    let m1 = spec_step(
        m,
        CModel::SetKey { size: sz1, key: k, value: x, expiry: Option::Some(p) },
        now1,
    );
    assert(m1.db.contains_key(k));
    assert(expired(m1.db[k], now2 as int));
}

impl Server {
    /// Executes a batch of commands in delivery order, as the actor's loop
    /// does: the i-th reply list answers the i-th command, and the second
    /// result is the array form of each write, exactly once, in commit order.
    pub fn run_commands(&mut self, commands: &Vec<Command>, now: u64) -> (r: (
        Vec<Vec<Value>>,
        Vec<Value>,
    ))
        requires
            old(self).wf(),
            old(self)@.offset + sum_sizes(commands@.map_values(|c: Command| c@)) <= u64::MAX,
            forall|i: int|
                0 <= i < commands@.len() ==> cmd_reply_fits((#[trigger] commands@[i])@) && (
                commands@[i]@ is SetKey ==> to_value_fits(commands@[i]@)),
        ensures
            final(self).wf(),
            final(self)@ == spec_run(old(self)@, commands@.map_values(|c: Command| c@), now),
            r.0@.map_values(|vs: Vec<Value>| vs@.map_values(|v: Value| v@)) == spec_run_replies(
                old(self)@,
                commands@.map_values(|c: Command| c@),
                now,
            ),
            r.1@.map_values(|v: Value| v@) == write_values(commands@.map_values(|c: Command| c@)),
    {
        let ghost m0 = self@;
        let ghost cs = commands@.map_values(|c: Command| c@);
        let mut replies: Vec<Vec<Value>> = Vec::new();
        let mut fanout: Vec<Value> = Vec::new();
        let mut i: usize = 0;
        proof {
            assert(cs.take(0) =~= Seq::<CModel>::empty());
            assert(replies@.map_values(|vs: Vec<Value>| vs@.map_values(|v: Value| v@))
                =~= spec_run_replies(m0, cs.take(0), now));
            assert(fanout@.map_values(|v: Value| v@) =~= write_values(cs.take(0)));
            assert(forall|q: int| 0 <= q < cs.len() ==> cmd_size(#[trigger] cs[q]) >= 0);
        }
        while i < commands.len()
            invariant
                i <= commands@.len(),
                m0 == old(self)@,
                cs == commands@.map_values(|c: Command| c@),
                cs.len() == commands@.len(),
                forall|q: int| 0 <= q < cs.len() ==> cmd_size(#[trigger] cs[q]) >= 0,
                forall|q: int|
                    0 <= q < commands@.len() ==> cmd_reply_fits((#[trigger] commands@[q])@) && (
                    commands@[q]@ is SetKey ==> to_value_fits(commands@[q]@)),
                m0.offset + sum_sizes(cs) <= u64::MAX,
                self.wf(),
                self@ == spec_run(m0, cs.take(i as int), now),
                replies@.map_values(|vs: Vec<Value>| vs@.map_values(|v: Value| v@))
                    == spec_run_replies(m0, cs.take(i as int), now),
                fanout@.map_values(|v: Value| v@) == write_values(cs.take(i as int)),
            decreases commands@.len() - i,
        {
            proof {
                lemma_run_offset(m0, cs.take(i as int), now);
                lemma_sum_take_le(cs, i as int);
                assert(cs[i as int] == commands@[i as int]@);
            }
            let rep = self.handle(&commands[i], now);
            let ghost prev_replies = replies@;
            replies.push(rep);
            match self.replicate(&commands[i]) {
                Some(v) => {
                    let ghost prev_fanout = fanout@;
                    fanout.push(v);
                    proof {
                        assert(fanout@.map_values(|v2: Value| v2@) =~= prev_fanout.map_values(
                            |v2: Value| v2@,
                        ).push(cmd_value_model(cs[i as int])));
                    }
                },
                None => {},
            }
            proof {
                lemma_run_snoc(m0, cs.take(i as int), cs[i as int], now);
                assert(cs.take(i + 1) =~= cs.take(i as int).push(cs[i as int]));
                assert(replies@.map_values(|vs: Vec<Value>| vs@.map_values(|v: Value| v@))
                    =~= prev_replies.map_values(
                    |vs: Vec<Value>| vs@.map_values(|v: Value| v@),
                ).push(rep@.map_values(|v: Value| v@)));
                assert(fanout@.map_values(|v: Value| v@) =~= write_values(cs.take(i + 1)));
            }
            i = i + 1;
        }
        proof {
            assert(cs.take(cs.len() as int) =~= cs);
        }
        (replies, fanout)
    }
}

} // verus!

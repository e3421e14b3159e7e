//! Master-side replication state and replica-side decisions: the roster of
//! registered replicas, the fan-out payload for a write, the four-step
//! handshake a replica opens with, and which upstream commands get a real
//! reply.
use vstd::prelude::*;
use crate::command::cmd_value_model;
use crate::command::lit_replconf;
use crate::command::to_value_fits;
use crate::command::CModel;
use crate::command::Command;
use crate::strutil::upper_bytes;
use crate::value::bulks_model;
use crate::value::bulks_array;
use crate::value::wire;
use crate::value::Value;
use crate::value::VModel;

verus! {

broadcast use vstd::std_specs::vec::group_vec_axioms;

/// Replication could not be established.
#[derive(Debug)]
pub struct ReplicationError(pub String);

/// The roster of registered replicas, by peer address.  The outbound queue
/// handles that carry the fanned-out values live with the connections; the
/// roster records who is registered and in which order.
pub struct ReplicationManager {
    replicas: Vec<String>,
}

impl View for ReplicationManager {
    type V = Seq<Seq<char>>;

    closed spec fn view(&self) -> Seq<Seq<char>> {
        self.replicas@.map_values(|s: String| s@)
    }
}

/// The elements of `s` whose flag is set, in order.
pub open spec fn filter_flags(s: Seq<Seq<char>>, f: Seq<bool>) -> Seq<Seq<char>>
    decreases s.len(),
{
    if s.len() == 0 {
        Seq::empty()
    } else if f.len() == s.len() && f.last() {
        filter_flags(s.drop_last(), f.drop_last()).push(s.last())
    } else {
        filter_flags(s.drop_last(), f.drop_last())
    }
}

impl ReplicationManager {
    pub fn new() -> (r: ReplicationManager)
        ensures
            r@ == Seq::<Seq<char>>::empty(),
    {
        let r = ReplicationManager { replicas: Vec::new() };
        proof {
            assert(r@ =~= Seq::<Seq<char>>::empty());
        }
        r
    }

    /// Registers a replica at the end of the roster.
    pub fn add(&mut self, address: String)
        ensures
            final(self)@ == old(self)@.push(address@),
    {
        self.replicas.push(address);
        proof {
            assert(self@ =~= old(self)@.push(address@));
        }
    }

    /// The payload to enqueue to every registered replica: the command's
    /// array form for a write, nothing for anything else.
    pub fn replicate(&self, command: &Command) -> (r: Option<Value>)
        requires
            command@ is SetKey ==> to_value_fits(command@),
        ensures
            command@ is SetKey ==> (r matches Some(v) && v@ == cmd_value_model(command@)),
            !(command@ is SetKey) ==> r is None,
    {
        if command.is_write() {
            Some(command.to_value())
        } else {
            None
        }
    }

    /// How many replicas are registered.
    pub fn connected_replicas(&self) -> (r: i64)
        requires
            self@.len() <= i64::MAX,
        ensures
            r == self@.len(),
    {
        self.replicas.len() as i64
    }

    /// Drops every replica whose send failed; the others keep their order.
    /// A replica whose socket went away thus leaves the roster at the next
    /// attempted fan-out, and no other replica is touched.
    pub fn drop_failed(&mut self, alive: &Vec<bool>)
        requires
            alive@.len() == old(self)@.len(),
        ensures
            final(self)@ == filter_flags(old(self)@, alive@),
    {
        let mut kept: Vec<String> = Vec::new();
        let mut i: usize = 0;
        while i < self.replicas.len()
            invariant
                i <= self.replicas@.len(),
                alive@.len() == self.replicas@.len(),
                self@ == self.replicas@.map_values(|s: String| s@),
                kept@.map_values(|s: String| s@) == filter_flags(
                    self@.take(i as int),
                    alive@.take(i as int),
                ),
            decreases self.replicas@.len() - i,
        {
            proof {
                assert(self@.take(i + 1).drop_last() =~= self@.take(i as int));
                assert(alive@.take(i + 1).drop_last() =~= alive@.take(i as int));
                assert(self@.take(i + 1).last() == self@[i as int]);
            }
            if alive[i] {
                let a = self.replicas[i].clone();
                let ghost prev = kept@;
                kept.push(a);
                proof {
                    assert(kept@.map_values(|s: String| s@) =~= prev.map_values(
                        |s: String| s@,
                    ).push(self@[i as int]));
                }
            }
            proof {
                assert(kept@.map_values(|s: String| s@) =~= filter_flags(
                    self@.take(i + 1),
                    alive@.take(i + 1),
                ));
            }
            i = i + 1;
        }
        proof {
            assert(self@.take(self@.len() as int) =~= self@);
            assert(alive@.take(alive@.len() as int) =~= alive@);
        }
        self.replicas = kept;
    }
}

/// The filtered roster is never longer than the original.
pub proof fn lemma_filter_flags_len(s: Seq<Seq<char>>, f: Seq<bool>)
    requires
        s.len() == f.len(),
    ensures
        filter_flags(s, f).len() <= s.len(),
    decreases s.len(),
{
    if s.len() > 0 {
        lemma_filter_flags_len(s.drop_last(), f.drop_last());
    }
}

/// An address stays on the roster exactly when its flag was set.
pub proof fn lemma_filter_flags(s: Seq<Seq<char>>, f: Seq<bool>)
    requires
        s.len() == f.len(),
    ensures
        forall|a: Seq<char>|
            #[trigger] filter_flags(s, f).contains(a) <==> exists|i: int|
                0 <= i < s.len() && f[i] && s[i] == a,
    decreases s.len(),
{
    if s.len() > 0 {
        lemma_filter_flags(s.drop_last(), f.drop_last());
        assert forall|a: Seq<char>| #[trigger] filter_flags(s, f).contains(a) implies exists|
            i: int,
        | 0 <= i < s.len() && f[i] && s[i] == a by {
            if f.last() && a == s.last() {
                assert(f[s.len() - 1] && s[s.len() - 1] == a);
            } else {
                assert(filter_flags(s.drop_last(), f.drop_last()).contains(a)) by {
                    let r = filter_flags(s, f);
                    let j = choose|j: int| 0 <= j < r.len() && r[j] == a;
                    if f.last() {
                        assert(r.drop_last() == filter_flags(s.drop_last(), f.drop_last()));
                        assert(j < r.len() - 1);
                        assert(r.drop_last()[j] == a);
                    }
                }
                let i = choose|i: int|
                    0 <= i < s.drop_last().len() && f.drop_last()[i] && s.drop_last()[i] == a;
                assert(0 <= i < s.len() && f[i] && s[i] == a);
            }
        }
        assert forall|a: Seq<char>| (exists|i: int| 0 <= i < s.len() && f[i] && s[i] == a)
            implies #[trigger] filter_flags(s, f).contains(a) by {
            let i = choose|i: int| 0 <= i < s.len() && f[i] && s[i] == a;
            if i == s.len() - 1 {
                let r = filter_flags(s, f);
                assert(r.last() == a);
                assert(r[r.len() - 1] == a);
            } else {
                assert(s.drop_last()[i] == a && f.drop_last()[i]);
                assert(filter_flags(s.drop_last(), f.drop_last()).contains(a));
                let j = choose|j: int|
                    0 <= j < filter_flags(s.drop_last(), f.drop_last()).len() && filter_flags(
                        s.drop_last(),
                        f.drop_last(),
                    )[j] == a;
                assert(filter_flags(s, f)[j] == a);
            }
        }
    }
}

/// Does an upstream command demand an acknowledgement on the real channel?
/// Only `REPLCONF` with the key `GETACK`, up to ASCII case.
pub open spec fn is_getack(c: CModel) -> bool {
    c matches CModel::Replconf { key, .. } && upper_bytes(key) == lit_getack()
}

pub open spec fn lit_getack() -> Seq<u8> {
    seq![71u8, 69u8, 84u8, 65u8, 67u8, 75u8]
}

/// The replica's streaming loop replies only to acknowledgement probes; every
/// other upstream command is applied silently.
pub fn wants_ack(command: &Command) -> (r: bool)
    ensures
        r == is_getack(command@),
{
    match command {
        Command::Replconf { key, .. } => {
            let mut pat: Vec<u8> = Vec::new();
            pat.push(71);
            pat.push(69);
            pat.push(84);
            pat.push(65);
            pat.push(67);
            pat.push(75);
            proof {
                assert(pat@ =~= lit_getack());
            }
            crate::strutil::eq_ignore_ascii_upper(key.as_slice(), pat.as_slice())
        },
        _ => false,
    }
}


pub open spec fn lit_listening_port() -> Seq<u8> {
    seq![
        108u8, 105u8, 115u8, 116u8, 101u8, 110u8, 105u8, 110u8, 103u8, 45u8, 112u8, 111u8, 114u8,
        116u8,
    ]
}

pub open spec fn lit_capa() -> Seq<u8> {
    seq![99u8, 97u8, 112u8, 97u8]
}

pub open spec fn lit_psync2() -> Seq<u8> {
    seq![112u8, 115u8, 121u8, 110u8, 99u8, 50u8]
}

/// The four arrays a replica sends its master, in order: `PING`, `REPLCONF
/// listening-port <port>`, `REPLCONF capa psync2`, `PSYNC ? -1`.  One value
/// is read back after each before the snapshot is requested.
pub fn handshake_commands(port: u16) -> (r: Vec<Value>)
    ensures
        r@.len() == 4,
        r@[0]@ == crate::value::bulks_model(seq![crate::command::lit_ping()]),
        r@[1]@ == crate::value::bulks_model(
            seq![
                lit_replconf(),
                lit_listening_port(),
                crate::num::dec_nat(port as nat),
            ],
        ),
        r@[2]@ == crate::value::bulks_model(seq![lit_replconf(), lit_capa(), lit_psync2()]),
        r@[3]@ == crate::value::bulks_model(
            seq![
                crate::command::lit_psync(),
                crate::command::lit_question(),
                crate::command::lit_neg_one(),
            ],
        ),
        forall|i: int| 0 <= i < 4 ==> crate::value::well_sized(#[trigger] r@[i]),
{
    let mut out: Vec<Value> = Vec::new();
    let ping = name_vec(&[80, 73, 78, 71]);
    proof {
        assert(ping@ =~= crate::command::lit_ping());
    }
    let mut parts0: Vec<Vec<u8>> = Vec::new();
    parts0.push(ping);
    proof {
        lemma_short_parts(parts0@.map_values(|p: Vec<u8>| p@), 3);
        assert(parts0@.map_values(|p: Vec<u8>| p@) =~= seq![crate::command::lit_ping()]);
    }
    out.push(crate::value::bulks_array(parts0));

    let mut parts1: Vec<Vec<u8>> = Vec::new();
    let rc1 = name_vec(&[82, 69, 80, 76, 67, 79, 78, 70]);
    proof {
        assert(rc1@ =~= lit_replconf());
    }
    parts1.push(rc1);
    let lp = name_vec(&[108, 105, 115, 116, 101, 110, 105, 110, 103, 45, 112, 111, 114, 116]);
    proof {
        assert(lp@ =~= lit_listening_port());
    }
    parts1.push(lp);
    let digits = crate::num::u64_dec(port as u64);
    proof {
        crate::num::lemma_dec_u64_len(port as nat);
    }
    parts1.push(digits);
    proof {
        lemma_short_parts(parts1@.map_values(|p: Vec<u8>| p@), 3);
        assert(parts1@.map_values(|p: Vec<u8>| p@) =~= seq![
            lit_replconf(),
            lit_listening_port(),
            crate::num::dec_nat(port as nat),
        ]);
    }
    out.push(crate::value::bulks_array(parts1));

    let mut parts2: Vec<Vec<u8>> = Vec::new();
    let rc2 = name_vec(&[82, 69, 80, 76, 67, 79, 78, 70]);
    proof {
        assert(rc2@ =~= lit_replconf());
    }
    parts2.push(rc2);
    let capa = name_vec(&[99, 97, 112, 97]);
    proof {
        assert(capa@ =~= lit_capa());
    }
    parts2.push(capa);
    let psync2 = name_vec(&[112, 115, 121, 110, 99, 50]);
    proof {
        assert(psync2@ =~= lit_psync2());
    }
    parts2.push(psync2);
    proof {
        lemma_short_parts(parts2@.map_values(|p: Vec<u8>| p@), 3);
        assert(parts2@.map_values(|p: Vec<u8>| p@) =~= seq![
            lit_replconf(),
            lit_capa(),
            lit_psync2(),
        ]);
    }
    out.push(crate::value::bulks_array(parts2));

    let mut parts3: Vec<Vec<u8>> = Vec::new();
    let psync = name_vec(&[80, 83, 89, 78, 67]);
    proof {
        assert(psync@ =~= crate::command::lit_psync());
    }
    parts3.push(psync);
    let q = name_vec(&[63]);
    proof {
        assert(q@ =~= crate::command::lit_question());
    }
    parts3.push(q);
    let neg = name_vec(&[45, 49]);
    proof {
        assert(neg@ =~= crate::command::lit_neg_one());
    }
    parts3.push(neg);
    proof {
        lemma_short_parts(parts3@.map_values(|p: Vec<u8>| p@), 3);
        assert(parts3@.map_values(|p: Vec<u8>| p@) =~= seq![
            crate::command::lit_psync(),
            crate::command::lit_question(),
            crate::command::lit_neg_one(),
        ]);
    }
    out.push(crate::value::bulks_array(parts3));
    out
}

/// A few short bulk strings always fit the machine's size type.
pub proof fn lemma_short_parts(parts: Seq<Seq<u8>>, count: int)
    requires
        parts.len() <= count,
        count <= 3,
        (forall|i: int| 0 <= i < parts.len() ==> (#[trigger] parts[i]).len() <= 30),
    ensures
        wire(bulks_model(parts)).len() <= usize::MAX,
{
    let ms = parts.map_values(|p: Seq<u8>| VModel::Bulk(p));
    assert forall|i: int| 0 <= i < ms.len() implies wire(#[trigger] ms[i]).len() <= 55 by {
        assert(ms[i] == VModel::Bulk(parts[i]));
        crate::num::lemma_dec_u64_len(parts[i].len() as nat);
    }
    crate::value::lemma_wire_seq_bound(ms, 55);
    crate::num::lemma_dec_u64_len(ms.len() as nat);
    assert(ms.len() * 55 <= 165) by (nonlinear_arith)
        requires ms.len() <= 3;
}

/// A copy of a short byte pattern.
fn name_vec(pat: &[u8]) -> (r: Vec<u8>)
    ensures
        r@ == pat@,
{
    vstd::slice::slice_to_vec(pat)
}

} // verus!

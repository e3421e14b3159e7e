//! The textual value layer: RESP values over text payloads, without size
//! accounting, and the command shape client code builds from text.  The
//! sized codec in the value and reader modules is what connections run on;
//! this layer is what handshakes and replies are convenient to write in.
use vstd::prelude::*;
use vstd::string::StrSliceExecFns;
use vstd::string::StringExecFns;
use vstd::string::StringSliceAdditionalSpecFns;
use vstd::utf8::encode_utf8;
use crate::num::dec_nat;
use crate::value::crlf;

verus! {

broadcast use vstd::std_specs::vec::group_vec_axioms;

/// A textual RESP value.
#[derive(Debug, PartialEq, Eq)]
pub enum RedisValue {
    SimpleString(String),
    BulkString(String),
    BulkBytes(Vec<u8>),
    Array(Vec<RedisValue>),
    NullBulkString,
}

/// Its shape: text as character sequences.
pub enum RVModel {
    Simple(Seq<char>),
    Bulk(Seq<char>),
    Bytes(Seq<u8>),
    Arr(Seq<RVModel>),
    Null,
}

pub open spec fn rv_model_of(v: RedisValue) -> RVModel
    decreases v,
{
    match v {
        RedisValue::SimpleString(s) => RVModel::Simple(s@),
        RedisValue::BulkString(s) => RVModel::Bulk(s@),
        RedisValue::BulkBytes(b) => RVModel::Bytes(b@),
        RedisValue::Array(vs) => RVModel::Arr(rv_models_of(vs@)),
        RedisValue::NullBulkString => RVModel::Null,
    }
}

pub open spec fn rv_models_of(vs: Seq<RedisValue>) -> Seq<RVModel>
    decreases vs,
{
    if vs.len() == 0 {
        Seq::empty()
    } else {
        rv_models_of(vs.drop_last()).push(rv_model_of(vs.last()))
    }
}

pub proof fn lemma_rv_models_of(vs: Seq<RedisValue>)
    ensures
        rv_models_of(vs).len() == vs.len(),
        forall|i: int| 0 <= i < vs.len() ==> rv_models_of(vs)[i] == rv_model_of(#[trigger] vs[i]),
    decreases vs.len(),
{
    if vs.len() > 0 {
        lemma_rv_models_of(vs.drop_last());
        assert forall|i: int| 0 <= i < vs.len() implies rv_models_of(vs)[i] == rv_model_of(
            #[trigger] vs[i],
        ) by {
            if i < vs.len() - 1 {
                assert(vs.drop_last()[i] == vs[i]);
                assert(rv_models_of(vs)[i] == rv_models_of(vs.drop_last())[i]);
            } else {
                assert(vs.last() == vs[i]);
            }
        }
    }
}

impl View for RedisValue {
    type V = RVModel;

    open spec fn view(&self) -> RVModel {
        rv_model_of(*self)
    }
}

/// The bytes a textual value puts on the wire: text in its UTF-8 encoding.
pub open spec fn rv_wire(m: RVModel) -> Seq<u8>
    decreases m,
{
    match m {
        RVModel::Simple(s) => seq![43u8] + encode_utf8(s) + crlf(),
        RVModel::Bulk(s) => seq![36u8] + dec_nat(encode_utf8(s).len()) + crlf() + encode_utf8(s)
            + crlf(),
        RVModel::Bytes(b) => seq![36u8] + dec_nat(b.len()) + crlf() + b,
        RVModel::Arr(vs) => seq![42u8] + dec_nat(vs.len()) + crlf() + rv_wire_seq(vs),
        RVModel::Null => seq![36u8, 45u8, 49u8, 13u8, 10u8],
    }
}

pub open spec fn rv_wire_seq(vs: Seq<RVModel>) -> Seq<u8>
    decreases vs,
{
    if vs.len() == 0 {
        Seq::empty()
    } else {
        rv_wire(vs[0]) + rv_wire_seq(vs.drop_first())
    }
}

pub proof fn lemma_rv_wire_seq_snoc(vs: Seq<RVModel>, x: RVModel)
    ensures
        rv_wire_seq(vs.push(x)) == rv_wire_seq(vs) + rv_wire(x),
    decreases vs.len(),
{
    let p = vs.push(x);
    if vs.len() == 0 {
        assert(p[0] == x);
        assert(p.drop_first() =~= Seq::<RVModel>::empty());
        assert(rv_wire_seq(p.drop_first()) =~= Seq::<u8>::empty());
        assert(rv_wire_seq(p) =~= rv_wire_seq(vs) + rv_wire(x));
    } else {
        lemma_rv_wire_seq_snoc(vs.drop_first(), x);
        assert(p.drop_first() =~= vs.drop_first().push(x));
        assert(p[0] == vs[0]);
        assert(rv_wire_seq(p) =~= rv_wire_seq(vs) + rv_wire(x));
    }
}

impl RedisValue {
    /// The fixed `OK` reply.
    pub fn ok() -> (r: RedisValue)
        ensures
            r@ == RVModel::Simple("OK"@),
    {
        RedisValue::simple_string("OK")
    }

    /// A simple string over the given text.
    pub fn simple_string(value: &str) -> (r: RedisValue)
        ensures
            r@ == RVModel::Simple(value@),
    {
        RedisValue::SimpleString(String::from_str(value))
    }

    /// A bulk string over the given text.
    pub fn bulk_string(value: &str) -> (r: RedisValue)
        ensures
            r@ == RVModel::Bulk(value@),
    {
        RedisValue::BulkString(String::from_str(value))
    }

    /// An array of bulk strings: the command name followed by its arguments.
    pub fn command(command: &str, args: &[&str]) -> (r: RedisValue)
        ensures
            r@ == RVModel::Arr(
                seq![RVModel::Bulk(command@)] + args@.map_values(|a: &str| RVModel::Bulk(a@)),
            ),
    {
        let ghost ms = seq![RVModel::Bulk(command@)] + args@.map_values(
            |a: &str| RVModel::Bulk(a@),
        );
        let mut array: Vec<RedisValue> = Vec::new();
        array.push(RedisValue::bulk_string(command));
        let mut i: usize = 0;
        proof {
            lemma_rv_models_of(array@);
            assert(rv_models_of(array@) =~= ms.take(1));
        }
        while i < args.len()
            invariant
                i <= args@.len(),
                ms == seq![RVModel::Bulk(command@)] + args@.map_values(
                    |a: &str| RVModel::Bulk(a@),
                ),
                ms.len() == 1 + args@.len(),
                forall|k: int|
                    0 <= k < args@.len() ==> ms[k + 1] == RVModel::Bulk((#[trigger] args@[k])@),
                array@.len() == i + 1,
                rv_models_of(array@) =~= ms.take(i + 1),
            decreases args@.len() - i,
        {
            let ghost prev = array@;
            let b = RedisValue::bulk_string(args[i]);
            array.push(b);
            proof {
                assert(array@.drop_last() =~= prev);
                assert(array@.last() == b);
                assert(rv_models_of(array@) == rv_models_of(prev).push(b@));
                assert(ms.take(i + 2) =~= ms.take(i + 1).push(ms[i + 1]));
                assert(rv_models_of(array@) =~= ms.take(i + 2));
            }
            i = i + 1;
        }
        proof {
            assert(ms.take(ms.len() as int) =~= ms);
        }
        RedisValue::Array(array)
    }

    /// Serializes this value onto the end of `out`, exactly `rv_wire(self@)`.
    /// The connection's writer drains the buffer and flushes after each
    /// top-level value.
    pub fn write_to(&self, out: &mut Vec<u8>)
        ensures
            final(out)@ == old(out)@ + rv_wire(self@),
        decreases *self,
    {
        match self {
            RedisValue::SimpleString(s) => {
                out.push(43);
                let mut payload = s.as_str().as_bytes_vec();
                out.append(&mut payload);
                out.push(13);
                out.push(10);
                proof {
                    assert(out@ =~= old(out)@ + rv_wire(self@));
                }
            },
            RedisValue::BulkString(s) => {
                out.push(36);
                let payload = s.as_str().as_bytes_vec();
                let mut digits = crate::num::u64_dec(payload.len() as u64);
                out.append(&mut digits);
                out.push(13);
                out.push(10);
                crate::writer::append_bytes(out, payload.as_slice());
                out.push(13);
                out.push(10);
                proof {
                    assert(out@ =~= old(out)@ + rv_wire(self@));
                }
            },
            RedisValue::BulkBytes(b) => {
                out.push(36);
                let mut digits = crate::num::u64_dec(b.len() as u64);
                out.append(&mut digits);
                out.push(13);
                out.push(10);
                crate::writer::append_bytes(out, b.as_slice());
                proof {
                    assert(out@ =~= old(out)@ + rv_wire(self@));
                }
            },
            RedisValue::Array(vs) => {
                out.push(42);
                let mut digits = crate::num::u64_dec(vs.len() as u64);
                out.append(&mut digits);
                out.push(13);
                out.push(10);
                let ghost ms = rv_models_of(vs@);
                let ghost header_done = out@;
                proof {
                    lemma_rv_models_of(vs@);
                }
                let mut j: usize = 0;
                while j < vs.len()
                    invariant
                        j <= vs@.len(),
                        ms == rv_models_of(vs@),
                        ms.len() == vs@.len(),
                        forall|k: int| 0 <= k < vs@.len() ==> ms[k] == (#[trigger] vs@[k])@,
                        out@ == header_done + rv_wire_seq(ms.take(j as int)),
                        *self matches RedisValue::Array(pair) && pair == *vs,
                    decreases vs@.len() - j,
                {
                    proof {
                        let inner = self->Array_0;
                        assert(decreases_to!(*self => inner));
                        assert(inner == *vs);
                        assert(decreases_to!(*vs => vs@));
                        assert(decreases_to!(vs@ => vs@[j as int]));
                    }
                    vs[j].write_to(out);
                    proof {
                        assert(ms.take(j + 1) =~= ms.take(j as int).push(ms[j as int]));
                        lemma_rv_wire_seq_snoc(ms.take(j as int), ms[j as int]);
                        assert(out@ =~= header_done + rv_wire_seq(ms.take(j + 1)));
                    }
                    j = j + 1;
                }
                proof {
                    assert(ms.take(j as int) =~= ms);
                    assert(out@ =~= old(out)@ + rv_wire(self@));
                }
            },
            RedisValue::NullBulkString => {
                out.push(36);
                out.push(45);
                out.push(49);
                out.push(13);
                out.push(10);
                proof {
                    assert(out@ =~= old(out)@ + rv_wire(self@));
                }
            },
        }
    }

    /// The wire form of this value, as a fresh buffer.
    pub fn to_bytes(&self) -> (r: Vec<u8>)
        ensures
            r@ == rv_wire(self@),
    {
        let mut out: Vec<u8> = Vec::new();
        self.write_to(&mut out);
        proof {
            assert(out@ =~= rv_wire(self@));
        }
        out
    }
}

/// A command in textual form, as the parsing layer of the text protocol
/// produced it.
#[derive(Clone, Debug, PartialEq)]
pub enum RedisCommand {
    Ping { message: Option<String> },
    Echo { message: String },
    Get { key: String },
    SetKey { key: String, value: String, expiry: Option<u64> },
    Info { sections: Vec<String> },
    Replconf { key: String, value: String },
    Psync { master_replid: Option<String>, master_repl_offset: Option<u32> },
}

/// The decimal digits of `n`, as characters.
pub open spec fn dec_chars(n: nat) -> Seq<char> {
    dec_nat(n).map_values(|b: u8| b as char)
}

/// The array of bulk strings a textual command formats to.
pub open spec fn rc_value_model(c: RedisCommand) -> RVModel {
    match c {
        RedisCommand::Ping { message: Option::None } => RVModel::Arr(
            seq![RVModel::Bulk("PING"@)],
        ),
        RedisCommand::Ping { message: Option::Some(m) } => RVModel::Arr(
            seq![RVModel::Bulk("PING"@), RVModel::Bulk(m@)],
        ),
        RedisCommand::Echo { message } => RVModel::Arr(
            seq![RVModel::Bulk("ECHO"@), RVModel::Bulk(message@)],
        ),
        RedisCommand::Get { key } => RVModel::Arr(
            seq![RVModel::Bulk("GET"@), RVModel::Bulk(key@)],
        ),
        RedisCommand::SetKey { key, value, expiry: Option::None } => RVModel::Arr(
            seq![RVModel::Bulk("SET"@), RVModel::Bulk(key@), RVModel::Bulk(value@)],
        ),
        RedisCommand::SetKey { key, value, expiry: Option::Some(e) } => RVModel::Arr(
            seq![
                RVModel::Bulk("SET"@),
                RVModel::Bulk(key@),
                RVModel::Bulk(value@),
                RVModel::Bulk("PX"@),
                RVModel::Bulk(dec_chars(e as nat)),
            ],
        ),
        RedisCommand::Info { sections } => RVModel::Arr(
            seq![RVModel::Bulk("INFO"@)] + sections@.map_values(|s: String| RVModel::Bulk(s@)),
        ),
        RedisCommand::Replconf { key, value } => RVModel::Arr(
            seq![RVModel::Bulk("REPLCONF"@), RVModel::Bulk(key@), RVModel::Bulk(value@)],
        ),
        RedisCommand::Psync { master_replid, master_repl_offset } => RVModel::Arr(
            seq![
                RVModel::Bulk("PSYNC"@),
                RVModel::Bulk(
                    match master_replid {
                        Option::Some(r) => r@,
                        Option::None => "?"@,
                    },
                ),
                RVModel::Bulk(
                    match master_repl_offset {
                        Option::Some(o) => dec_chars(o as nat),
                        Option::None => "-1"@,
                    },
                ),
            ],
        ),
    }
}

/// Two array models over element-wise equal sequences are equal.
proof fn lemma_arr_eq(a: RVModel, b: RVModel)
    requires
        a is Arr,
        b is Arr,
        a->Arr_0.len() == b->Arr_0.len(),
        forall|i: int| 0 <= i < a->Arr_0.len() ==> a->Arr_0[i] == b->Arr_0[i],
    ensures
        a == b,
{
    assert(a->Arr_0 =~= b->Arr_0);
}

/// The decimal text of `n`.
pub fn decimal_string(n: u64) -> (r: String)
    ensures
        r@ == dec_chars(n as nat),
{
    let digits = crate::num::u64_dec(n);
    proof {
        crate::num::lemma_dec_nat(n as nat);
    }
    match crate::strutil::string_from_bytes(digits) {
        Some(s) => {
            proof {
                crate::strutil::lemma_ascii_bytes_chars(dec_nat(n as nat), s@);
            }
            s
        },
        None => {
            proof {
                crate::strutil::lemma_ascii_valid_utf8(dec_nat(n as nat));
            }
            vstd::pervasive::unreached()
        },
    }
}

impl RedisCommand {
    /// Is this command part of the replication conversation?
    pub fn is_replica(&self) -> (r: bool)
        ensures
            r == (self matches RedisCommand::Info { .. } || self matches RedisCommand::Replconf {
                ..
            } || self matches RedisCommand::Psync { .. }),
    {
        match self {
            RedisCommand::Info { .. } => true,
            RedisCommand::Replconf { .. } => true,
            RedisCommand::Psync { .. } => true,
            _ => false,
        }
    }

    /// Does this command mutate the keyspace?
    pub fn is_write(&self) -> (r: bool)
        ensures
            r == (self matches RedisCommand::SetKey { .. }),
    {
        match self {
            RedisCommand::SetKey { .. } => true,
            _ => false,
        }
    }

    /// The command as an array of bulk strings, in argument order.
    pub fn to_value(&self) -> (r: RedisValue)
        ensures
            r@ == rc_value_model(*self),
    {
        match self {
            RedisCommand::Ping { message: None } => {
                let r = RedisValue::command("PING", &[]);
                proof {
                    lemma_arr_eq(r@, rc_value_model(*self));
                }
                r
            },
            RedisCommand::Ping { message: Some(m) } => {
                let r = RedisValue::command("PING", &[m.as_str()]);
                proof {
                    lemma_arr_eq(r@, rc_value_model(*self));
                }
                r
            },
            RedisCommand::Echo { message } => {
                let r = RedisValue::command("ECHO", &[message.as_str()]);
                proof {
                    lemma_arr_eq(r@, rc_value_model(*self));
                }
                r
            },
            RedisCommand::Get { key } => {
                let r = RedisValue::command("GET", &[key.as_str()]);
                proof {
                    lemma_arr_eq(r@, rc_value_model(*self));
                }
                r
            },
            RedisCommand::SetKey { key, value, expiry: None } => {
                let r = RedisValue::command("SET", &[key.as_str(), value.as_str()]);
                proof {
                    lemma_arr_eq(r@, rc_value_model(*self));
                }
                r
            },
            RedisCommand::SetKey { key, value, expiry: Some(e) } => {
                let px = decimal_string(*e);
                let r = RedisValue::command(
                    "SET",
                    &[key.as_str(), value.as_str(), "PX", px.as_str()],
                );
                proof {
                    lemma_arr_eq(r@, rc_value_model(*self));
                }
                r
            },
            RedisCommand::Info { sections } => {
                let ghost ms = seq![RVModel::Bulk("INFO"@)] + sections@.map_values(
                    |s: String| RVModel::Bulk(s@),
                );
                let mut array: Vec<RedisValue> = Vec::new();
                array.push(RedisValue::bulk_string("INFO"));
                let mut i: usize = 0;
                proof {
                    lemma_rv_models_of(array@);
                    assert(rv_models_of(array@) =~= ms.take(1));
                }
                while i < sections.len()
                    invariant
                        i <= sections@.len(),
                        ms == seq![RVModel::Bulk("INFO"@)] + sections@.map_values(
                            |s: String| RVModel::Bulk(s@),
                        ),
                        ms.len() == 1 + sections@.len(),
                        forall|k: int|
                            0 <= k < sections@.len() ==> ms[k + 1] == RVModel::Bulk(
                                (#[trigger] sections@[k])@,
                            ),
                        array@.len() == i + 1,
                        rv_models_of(array@) =~= ms.take(i + 1),
                    decreases sections@.len() - i,
                {
                    let ghost prev = array@;
                    let b = RedisValue::bulk_string(sections[i].as_str());
                    array.push(b);
                    proof {
                        assert(array@.drop_last() =~= prev);
                        assert(array@.last() == b);
                        assert(rv_models_of(array@) == rv_models_of(prev).push(b@));
                        assert(ms.take(i + 2) =~= ms.take(i + 1).push(ms[i + 1]));
                        assert(rv_models_of(array@) =~= ms.take(i + 2));
                    }
                    i = i + 1;
                }
                proof {
                    assert(ms.take(ms.len() as int) =~= ms);
                }
                RedisValue::Array(array)
            },
            RedisCommand::Replconf { key, value } => {
                let r = RedisValue::command("REPLCONF", &[key.as_str(), value.as_str()]);
                proof {
                    lemma_arr_eq(r@, rc_value_model(*self));
                }
                r
            },
            RedisCommand::Psync { master_replid, master_repl_offset } => {
                let offset = match master_repl_offset {
                    Some(o) => decimal_string(*o as u64),
                    None => String::from_str("-1"),
                };
                let r = match master_replid {
                    Some(rid) => RedisValue::command("PSYNC", &[rid.as_str(), offset.as_str()]),
                    None => RedisValue::command("PSYNC", &["?", offset.as_str()]),
                };
                proof {
                    lemma_arr_eq(r@, rc_value_model(*self));
                }
                r
            },
        }
    }
}

/// The UTF-8 byte form of each part of the command's array.
pub open spec fn rc_parts_bytes(c: RedisCommand) -> Seq<Seq<u8>> {
    match c {
        RedisCommand::Ping { message: Option::None } => seq![encode_utf8("PING"@)],
        RedisCommand::Ping { message: Option::Some(m) } => seq![
            encode_utf8("PING"@),
            encode_utf8(m@),
        ],
        RedisCommand::Echo { message } => seq![encode_utf8("ECHO"@), encode_utf8(message@)],
        RedisCommand::Get { key } => seq![encode_utf8("GET"@), encode_utf8(key@)],
        RedisCommand::SetKey { key, value, expiry: Option::None } => seq![
            encode_utf8("SET"@),
            encode_utf8(key@),
            encode_utf8(value@),
        ],
        RedisCommand::SetKey { key, value, expiry: Option::Some(e) } => seq![
            encode_utf8("SET"@),
            encode_utf8(key@),
            encode_utf8(value@),
            encode_utf8("PX"@),
            encode_utf8(dec_chars(e as nat)),
        ],
        RedisCommand::Info { sections } => seq![encode_utf8("INFO"@)] + sections@.map_values(
            |t: String| encode_utf8(t@),
        ),
        RedisCommand::Replconf { key, value } => seq![
            encode_utf8("REPLCONF"@),
            encode_utf8(key@),
            encode_utf8(value@),
        ],
        RedisCommand::Psync { master_replid, master_repl_offset } => seq![
            encode_utf8("PSYNC"@),
            match master_replid {
                Option::Some(r) => encode_utf8(r@),
                Option::None => encode_utf8("?"@),
            },
            match master_repl_offset {
                Option::Some(o) => encode_utf8(dec_chars(o as nat)),
                Option::None => encode_utf8("-1"@),
            },
        ],
    }
}

/// The byte-layer command a textual command stands for: the same fields in
/// their UTF-8 encodings, carrying the given size.
pub open spec fn rc_cmodel(c: RedisCommand, sz: int) -> crate::command::CModel {
    match c {
        RedisCommand::Ping { message: Option::None } => crate::command::CModel::Ping {
            size: sz,
            message: Option::None,
        },
        RedisCommand::Ping { message: Option::Some(m) } => crate::command::CModel::Ping {
            size: sz,
            message: Option::Some(encode_utf8(m@)),
        },
        RedisCommand::Echo { message } => crate::command::CModel::Echo {
            size: sz,
            message: encode_utf8(message@),
        },
        RedisCommand::Get { key } => crate::command::CModel::Get {
            size: sz,
            key: encode_utf8(key@),
        },
        RedisCommand::SetKey { key, value, expiry } => crate::command::CModel::SetKey {
            size: sz,
            key: encode_utf8(key@),
            value: encode_utf8(value@),
            expiry,
        },
        RedisCommand::Info { sections } => crate::command::CModel::Info {
            size: sz,
            sections: sections@.map_values(|t: String| encode_utf8(t@)),
        },
        RedisCommand::Replconf { key, value } => crate::command::CModel::Replconf {
            size: sz,
            key: encode_utf8(key@),
            value: encode_utf8(value@),
        },
        RedisCommand::Psync { master_replid, master_repl_offset } => crate::command::CModel::Psync {
            size: sz,
            master_replid: match master_replid {
                Option::Some(r) => Option::Some(encode_utf8(r@)),
                Option::None => Option::None,
            },
            master_repl_offset,
        },
    }
}

/// The command names and tokens, in their UTF-8 byte forms.
proof fn lemma_text_lits()
    ensures
        encode_utf8("PING"@) == crate::command::lit_ping(),
        encode_utf8("ECHO"@) == crate::command::lit_echo(),
        encode_utf8("GET"@) == crate::command::lit_get(),
        encode_utf8("SET"@) == crate::command::lit_set(),
        encode_utf8("INFO"@) == crate::command::lit_info(),
        encode_utf8("REPLCONF"@) == crate::command::lit_replconf(),
        encode_utf8("PSYNC"@) == crate::command::lit_psync(),
        encode_utf8("PX"@) == crate::command::lit_px(),
        encode_utf8("?"@) == crate::command::lit_question(),
        encode_utf8("-1"@) == crate::command::lit_neg_one(),
{
    reveal_strlit("PING");
    reveal_strlit("ECHO");
    reveal_strlit("GET");
    reveal_strlit("SET");
    reveal_strlit("INFO");
    reveal_strlit("REPLCONF");
    reveal_strlit("PSYNC");
    reveal_strlit("PX");
    reveal_strlit("?");
    reveal_strlit("-1");
    vstd::string::is_ascii_spec_bytes("PING");
    vstd::string::is_ascii_spec_bytes("ECHO");
    vstd::string::is_ascii_spec_bytes("GET");
    vstd::string::is_ascii_spec_bytes("SET");
    vstd::string::is_ascii_spec_bytes("INFO");
    vstd::string::is_ascii_spec_bytes("REPLCONF");
    vstd::string::is_ascii_spec_bytes("PSYNC");
    vstd::string::is_ascii_spec_bytes("PX");
    vstd::string::is_ascii_spec_bytes("?");
    vstd::string::is_ascii_spec_bytes("-1");
    assert("PING".spec_bytes() =~= crate::command::lit_ping());
    assert("ECHO".spec_bytes() =~= crate::command::lit_echo());
    assert("GET".spec_bytes() =~= crate::command::lit_get());
    assert("SET".spec_bytes() =~= crate::command::lit_set());
    assert("INFO".spec_bytes() =~= crate::command::lit_info());
    assert("REPLCONF".spec_bytes() =~= crate::command::lit_replconf());
    assert("PSYNC".spec_bytes() =~= crate::command::lit_psync());
    assert("PX".spec_bytes() =~= crate::command::lit_px());
    assert("?".spec_bytes() =~= crate::command::lit_question());
    assert("-1".spec_bytes() =~= crate::command::lit_neg_one());
}

/// The canonical digits of `n`, as characters, encode to the digit bytes.
proof fn lemma_dec_chars_bytes(n: nat)
    ensures
        encode_utf8(dec_chars(n)) == dec_nat(n),
{
    crate::num::lemma_dec_nat(n);
    crate::strutil::lemma_ascii_chars_bytes(dec_nat(n));
}

/// Each part of the formatted array encodes to the corresponding byte part.
pub proof fn lemma_rc_parts_bytes(c: RedisCommand)
    ensures
        ({
            let vs = rc_value_model(c)->Arr_0;
            &&& rc_parts_bytes(c).len() == vs.len()
            &&& forall|i: int|
                0 <= i < vs.len() ==> (#[trigger] vs[i] matches RVModel::Bulk(p)
                    && rc_parts_bytes(c)[i] == encode_utf8(p))
        }),
{
    match c {
        RedisCommand::Info { sections } => {
            let vs = rc_value_model(c)->Arr_0;
            assert forall|i: int| 0 <= i < vs.len() implies (#[trigger] vs[i]
                matches RVModel::Bulk(p) && rc_parts_bytes(c)[i] == encode_utf8(p)) by {
                if i > 0 {
                    assert(vs[i] == RVModel::Bulk(sections@[i - 1]@));
                    assert(rc_parts_bytes(c)[i] == encode_utf8(sections@[i - 1]@));
                }
            }
        },
        _ => {},
    }
}

/// Parse after format is the identity on textual commands too: the byte
/// parser, applied to the UTF-8 parts of the array `to_value` produces,
/// returns the same command, field for field in UTF-8 bytes, with the given
/// size.  The one excluded input is a `PSYNC` whose replication id is the
/// literal `?`, which the wire form cannot tell from an absent id.
#[verifier::rlimit(100)]
pub proof fn lemma_text_parse_format(c: RedisCommand, sz: int)
    requires
        !(c matches RedisCommand::Psync { master_replid: Option::Some(r), .. } && encode_utf8(r@)
            == crate::command::lit_question()),
    ensures
        crate::command::spec_cmd(sz, rc_parts_bytes(c)) == Option::Some(rc_cmodel(c, sz)),
{
    let parts = rc_parts_bytes(c);
    let args = parts.drop_first();
    lemma_text_lits();
    crate::strutil::lemma_upper_bytes_fix(crate::command::lit_ping());
    crate::strutil::lemma_upper_bytes_fix(crate::command::lit_echo());
    crate::strutil::lemma_upper_bytes_fix(crate::command::lit_get());
    crate::strutil::lemma_upper_bytes_fix(crate::command::lit_set());
    crate::strutil::lemma_upper_bytes_fix(crate::command::lit_info());
    crate::strutil::lemma_upper_bytes_fix(crate::command::lit_replconf());
    crate::strutil::lemma_upper_bytes_fix(crate::command::lit_psync());
    match c {
        RedisCommand::Ping { message } => {
            match message {
                Option::None => {},
                Option::Some(m) => {
                    assert(args =~= seq![encode_utf8(m@)]);
                },
            }
        },
        RedisCommand::Echo { message } => {
            assert(args =~= seq![encode_utf8(message@)]);
        },
        RedisCommand::Get { key } => {
            assert(args =~= seq![encode_utf8(key@)]);
        },
        RedisCommand::SetKey { key, value, expiry } => {
            match expiry {
                Option::None => {
                    assert(args =~= seq![encode_utf8(key@), encode_utf8(value@)]);
                },
                Option::Some(e) => {
                    lemma_dec_chars_bytes(e as nat);
                    assert(args =~= seq![
                        encode_utf8(key@),
                        encode_utf8(value@),
                        crate::command::lit_px(),
                        dec_nat(e as nat),
                    ]);
                    crate::strutil::lemma_upper_bytes_fix(crate::command::lit_px());
                    assert(forall|i: int|
                        0 <= i < crate::command::lit_px().len()
                            ==> #[trigger] crate::command::lit_px()[i] < 128);
                    crate::strutil::lemma_ascii_valid_utf8(crate::command::lit_px());
                    crate::num::lemma_dec_nat(e as nat);
                    let d = dec_nat(e as nat);
                    assert(crate::num::strip_plus(d) == d);
                    assert(crate::num::u64_str_ok(d));
                    assert(crate::num::u64_str_value(d) == e as nat);
                },
            }
        },
        RedisCommand::Info { sections } => {
            assert(args =~= sections@.map_values(|t: String| encode_utf8(t@)));
        },
        RedisCommand::Replconf { key, value } => {
            assert(args =~= seq![encode_utf8(key@), encode_utf8(value@)]);
        },
        RedisCommand::Psync { master_replid, master_repl_offset } => {
            let rid = match master_replid {
                Option::Some(r) => encode_utf8(r@),
                Option::None => crate::command::lit_question(),
            };
            let off = match master_repl_offset {
                Option::Some(o) => encode_utf8(dec_chars(o as nat)),
                Option::None => crate::command::lit_neg_one(),
            };
            assert(args =~= seq![rid, off]);
            match master_repl_offset {
                Option::None => {
                    crate::num::lemma_neg_one_line();
                },
                Option::Some(o) => {
                    lemma_dec_chars_bytes(o as nat);
                    crate::num::lemma_dec_nat(o as nat);
                    let d = dec_nat(o as nat);
                    assert(crate::num::int_str_digits(d) == d);
                    assert(!crate::num::int_str_negative(d));
                    assert(crate::num::i64_str_ok(d));
                    assert(crate::num::int_str_value(d) == o as nat);
                    assert((o as int) % 0x100000000 == o as int) by (nonlinear_arith)
                        requires (o as int) < 0x100000000, 0 <= (o as int);
                },
            }
        },
    }
}

} // verus!

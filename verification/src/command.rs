//! The command model: the supported commands, parsing one from an
//! array-of-bulk-strings value, and formatting one back to such a value.
use vstd::prelude::*;
use vstd::string::StringExecFns;
use vstd::utf8::valid_utf8;
use crate::num::dec_nat;
use crate::num::u64_str_ok;
use crate::num::u64_str_value;
use crate::num::i64_str_ok;
use crate::num::int_str_value;
use crate::strutil;
use crate::strutil::upper_bytes;
use crate::value::models_of;
use crate::value::stored_size;
use crate::value::well_sized;
use crate::value::wire;
use crate::value::Value;
use crate::value::VModel;

verus! {

broadcast use vstd::std_specs::vec::group_vec_axioms;

/// A supported command.  Each variant carries the wire size of the array it
/// was parsed from: the amount by which the replication offset advances when
/// the command runs.  Keys and values are raw bytes.  `SetKey` carries an
/// optional expiry in milliseconds.
#[derive(Clone, Debug, PartialEq)]
pub enum Command {
    Ping { size: usize, message: Option<Vec<u8>> },
    Echo { size: usize, message: Vec<u8> },
    Get { size: usize, key: Vec<u8> },
    SetKey { size: usize, key: Vec<u8>, value: Vec<u8>, expiry: Option<u64> },
    Info { size: usize, sections: Vec<Vec<u8>> },
    Replconf { size: usize, key: Vec<u8>, value: Vec<u8> },
    Psync { size: usize, master_replid: Option<Vec<u8>>, master_repl_offset: Option<u32> },
    Wait { size: usize, replicas: u64, timeout: u64 },
}

/// The mathematical shape of a command.
pub enum CModel {
    Ping { size: int, message: Option<Seq<u8>> },
    Echo { size: int, message: Seq<u8> },
    Get { size: int, key: Seq<u8> },
    SetKey { size: int, key: Seq<u8>, value: Seq<u8>, expiry: Option<u64> },
    Info { size: int, sections: Seq<Seq<u8>> },
    Replconf { size: int, key: Seq<u8>, value: Seq<u8> },
    Psync { size: int, master_replid: Option<Seq<u8>>, master_repl_offset: Option<u32> },
    Wait { size: int, replicas: u64, timeout: u64 },
}

pub open spec fn view_opt(o: Option<Vec<u8>>) -> Option<Seq<u8>> {
    match o {
        Option::Some(v) => Option::Some(v@),
        Option::None => Option::None,
    }
}

impl View for Command {
    type V = CModel;

    open spec fn view(&self) -> CModel {
        match self {
            Command::Ping { size, message } => CModel::Ping {
                size: *size as int,
                message: view_opt(*message),
            },
            Command::Echo { size, message } => CModel::Echo {
                size: *size as int,
                message: message@,
            },
            Command::Get { size, key } => CModel::Get { size: *size as int, key: key@ },
            Command::SetKey { size, key, value, expiry } => CModel::SetKey {
                size: *size as int,
                key: key@,
                value: value@,
                expiry: *expiry,
            },
            Command::Info { size, sections } => CModel::Info {
                size: *size as int,
                sections: sections@.map_values(|s: Vec<u8>| s@),
            },
            Command::Replconf { size, key, value } => CModel::Replconf {
                size: *size as int,
                key: key@,
                value: value@,
            },
            Command::Psync { size, master_replid, master_repl_offset } => CModel::Psync {
                size: *size as int,
                master_replid: view_opt(*master_replid),
                master_repl_offset: *master_repl_offset,
            },
            Command::Wait { size, replicas, timeout } => CModel::Wait {
                size: *size as int,
                replicas: *replicas,
                timeout: *timeout,
            },
        }
    }
}

/// The size a command carries.
pub open spec fn cmd_size(c: CModel) -> int {
    match c {
        CModel::Ping { size, .. } => size,
        CModel::Echo { size, .. } => size,
        CModel::Get { size, .. } => size,
        CModel::SetKey { size, .. } => size,
        CModel::Info { size, .. } => size,
        CModel::Replconf { size, .. } => size,
        CModel::Psync { size, .. } => size,
        CModel::Wait { size, .. } => size,
    }
}

/// The same command with another carried size.
pub open spec fn with_size(c: CModel, sz: int) -> CModel {
    match c {
        CModel::Ping { size, message } => CModel::Ping { size: sz, message },
        CModel::Echo { size, message } => CModel::Echo { size: sz, message },
        CModel::Get { size, key } => CModel::Get { size: sz, key },
        CModel::SetKey { size, key, value, expiry } => CModel::SetKey { size: sz, key, value, expiry },
        CModel::Info { size, sections } => CModel::Info { size: sz, sections },
        CModel::Replconf { size, key, value } => CModel::Replconf { size: sz, key, value },
        CModel::Psync { size, master_replid, master_repl_offset } => CModel::Psync {
            size: sz,
            master_replid,
            master_repl_offset,
        },
        CModel::Wait { size, replicas, timeout } => CModel::Wait { size: sz, replicas, timeout },
    }
}

pub open spec fn lit_ping() -> Seq<u8> {
    seq![80u8, 73u8, 78u8, 71u8]
}

pub open spec fn lit_echo() -> Seq<u8> {
    seq![69u8, 67u8, 72u8, 79u8]
}

pub open spec fn lit_get() -> Seq<u8> {
    seq![71u8, 69u8, 84u8]
}

pub open spec fn lit_set() -> Seq<u8> {
    seq![83u8, 69u8, 84u8]
}

pub open spec fn lit_info() -> Seq<u8> {
    seq![73u8, 78u8, 70u8, 79u8]
}

pub open spec fn lit_replconf() -> Seq<u8> {
    seq![82u8, 69u8, 80u8, 76u8, 67u8, 79u8, 78u8, 70u8]
}

pub open spec fn lit_psync() -> Seq<u8> {
    seq![80u8, 83u8, 89u8, 78u8, 67u8]
}

pub open spec fn lit_wait() -> Seq<u8> {
    seq![87u8, 65u8, 73u8, 84u8]
}

pub open spec fn lit_px() -> Seq<u8> {
    seq![80u8, 88u8]
}

pub open spec fn lit_question() -> Seq<u8> {
    seq![63u8]
}

/// What command an array of byte-string parts denotes, and with which fields;
/// `None` exactly when the parts are not a legal command.  The first part
/// selects the variant up to ASCII case; each variant demands its exact
/// argument count, and a surplus argument is a protocol error.
pub open spec fn spec_cmd(size: int, parts: Seq<Seq<u8>>) -> Option<CModel> {
    if parts.len() == 0 {
        Option::None
    } else {
        let name = upper_bytes(parts[0]);
        let args = parts.drop_first();
        if name == lit_ping() {
            if args.len() == 0 {
                Option::Some(CModel::Ping { size, message: Option::None })
            } else if args.len() == 1 {
                Option::Some(CModel::Ping { size, message: Option::Some(args[0]) })
            } else {
                Option::None
            }
        } else if name == lit_echo() {
            if args.len() == 1 {
                Option::Some(CModel::Echo { size, message: args[0] })
            } else {
                Option::None
            }
        } else if name == lit_get() {
            if args.len() == 1 {
                Option::Some(CModel::Get { size, key: args[0] })
            } else {
                Option::None
            }
        } else if name == lit_set() {
            if args.len() == 2 {
                Option::Some(
                    CModel::SetKey { size, key: args[0], value: args[1], expiry: Option::None },
                )
            } else if args.len() == 4 && valid_utf8(args[2]) && upper_bytes(args[2]) == lit_px()
                && u64_str_ok(args[3]) {
                Option::Some(
                    CModel::SetKey {
                        size,
                        key: args[0],
                        value: args[1],
                        expiry: Option::Some(u64_str_value(args[3]) as u64),
                    },
                )
            } else {
                Option::None
            }
        } else if name == lit_info() {
            Option::Some(CModel::Info { size, sections: args })
        } else if name == lit_replconf() {
            if args.len() == 2 {
                Option::Some(CModel::Replconf { size, key: args[0], value: args[1] })
            } else {
                Option::None
            }
        } else if name == lit_psync() {
            if args.len() != 2 {
                Option::None
            } else if i64_str_ok(args[1]) {
                let off = int_str_value(args[1]);
                Option::Some(
                    CModel::Psync {
                        size,
                        master_replid: if args[0] == lit_question() {
                            Option::None
                        } else {
                            Option::Some(args[0])
                        },
                        master_repl_offset: if off < 0 {
                            Option::None
                        } else {
                            Option::Some((off % 0x100000000) as u32)
                        },
                    },
                )
            } else {
                Option::None
            }
        } else if name == lit_wait() {
            if args.len() == 2 && u64_str_ok(args[0]) && u64_str_ok(args[1]) {
                Option::Some(
                    CModel::Wait {
                        size,
                        replicas: u64_str_value(args[0]) as u64,
                        timeout: u64_str_value(args[1]) as u64,
                    },
                )
            } else {
                Option::None
            }
        } else {
            Option::None
        }
    }
}

/// Is every element of the array a bulk string?
pub open spec fn all_bulk(vs: Seq<VModel>) -> bool {
    forall|i: int| 0 <= i < vs.len() ==> (#[trigger] vs[i]) is Bulk
}

/// The payloads of an array of bulk strings.
pub open spec fn bulk_parts(vs: Seq<VModel>) -> Seq<Seq<u8>> {
    vs.map_values(|v: VModel| v->Bulk_0)
}

/// What command a value model of the given wire size denotes: an array of
/// bulk strings whose parts form a command.
pub open spec fn model_to_cmd(m: VModel, size: int) -> Option<CModel> {
    match m {
        VModel::Arr(vs) => if all_bulk(vs) {
            spec_cmd(size, bulk_parts(vs))
        } else {
            Option::None
        },
        _ => Option::None,
    }
}

/// What command a value denotes, carrying the value's stored size.
pub open spec fn value_to_cmd(v: Value) -> Option<CModel> {
    model_to_cmd(v@, stored_size(v))
}

/// A command could not be read from a value.
#[derive(Debug)]
pub struct FromValueError(pub String);

fn err_lit(message: &str) -> FromValueError {
    FromValueError(String::from_str(message))
}

/// Parses a command from a value: succeeds exactly when the value is an
/// array of bulk strings whose parts form a command, and then returns that
/// command with the array's size.
pub fn from_value(value: Value) -> (r: Result<Command, FromValueError>)
    ensures
        r is Ok <==> value_to_cmd(value) is Some,
        r matches Ok(c) ==> value_to_cmd(value) == Option::Some(c@),
{
    match value {
        Value::Array((size, values)) => from_values(size, values),
        _ => Err(err_lit("value must be a RESP array")),
    }
}

/// Extracts the bulk-string payloads, rejecting any other element.
fn from_values(size: usize, values: Vec<Value>) -> (r: Result<Command, FromValueError>)
    ensures
        r is Ok <==> (all_bulk(models_of(values@)) && spec_cmd(
            size as int,
            bulk_parts(models_of(values@)),
        ) is Some),
        r matches Ok(c) ==> spec_cmd(size as int, bulk_parts(models_of(values@))) == Option::Some(
            c@,
        ),
{
    proof {
        crate::value::lemma_models_of(values@);
    }
    let ghost ms = models_of(values@);
    if values.len() == 0 {
        assert(bulk_parts(ms).len() == 0);
        return Err(err_lit("RESP array must not be empty"));
    }
    let mut parts: Vec<Vec<u8>> = Vec::new();
    let mut i: usize = 0;
    while i < values.len()
        invariant
            i <= values@.len(),
            ms == models_of(values@),
            ms.len() == values@.len(),
            forall|k: int| 0 <= k < values@.len() ==> ms[k] == (#[trigger] values@[k])@,
            parts@.len() == i,
            forall|k: int| 0 <= k < i ==> (#[trigger] ms[k]) is Bulk,
            forall|k: int| 0 <= k < i ==> (#[trigger] parts@[k])@ == ms[k]->Bulk_0,
        decreases values@.len() - i,
    {
        match &values[i] {
            Value::BulkString((_, bytes)) => {
                let owned = bytes.clone();
                parts.push(owned);
            },
            _ => {
                assert(!(ms[i as int] is Bulk));
                let mut message = String::from_str("RESP array element at index ");
                message.append(strutil::dec_string(i as u64).as_str());
                message.append(" must be a bulk string");
                return Err(FromValueError(message));
            },
        }
        i = i + 1;
    }
    assert(all_bulk(ms));
    proof {
        assert(parts@.map_values(|p: Vec<u8>| p@) =~= bulk_parts(ms));
    }
    from_parts(size, parts)
}

/// Dispatches on the first part, up to ASCII case.
fn from_parts(size: usize, parts: Vec<Vec<u8>>) -> (r: Result<Command, FromValueError>)
    requires
        parts@.len() >= 1,
    ensures
        r is Ok <==> spec_cmd(size as int, parts@.map_values(|p: Vec<u8>| p@)) is Some,
        r matches Ok(c) ==> spec_cmd(size as int, parts@.map_values(|p: Vec<u8>| p@))
            == Option::Some(c@),
{
    let ghost ps = parts@.map_values(|p: Vec<u8>| p@);
    let ghost name = upper_bytes(ps[0]);
    let ghost args = ps.drop_first();
    proof {
        assert(forall|k: int| 0 <= k < args.len() ==> args[k] == ps[k + 1]);
    }
    let head = &parts[0];
    if is_name(head, 80, 73, 78, 71) {
        assert(name == lit_ping());
        parse_ping(size, parts)
    } else if is_name(head, 69, 67, 72, 79) {
        assert(name == lit_echo());
        parse_echo(size, parts)
    } else if is_name3(head, 71, 69, 84) {
        assert(name == lit_get());
        parse_get(size, parts)
    } else if is_name3(head, 83, 69, 84) {
        assert(name == lit_set());
        parse_set(size, parts)
    } else if is_name(head, 73, 78, 70, 79) {
        assert(name == lit_info());
        parse_info(size, parts)
    } else if is_name8(head, 82, 69, 80, 76, 67, 79, 78, 70) {
        assert(name == lit_replconf());
        parse_replconf(size, parts)
    } else if is_name5(head, 80, 83, 89, 78, 67) {
        assert(name == lit_psync());
        parse_psync(size, parts)
    } else if is_name(head, 87, 65, 73, 84) {
        assert(name == lit_wait());
        parse_wait(size, parts)
    } else {
        proof {
            assert(name != lit_ping() && name != lit_echo() && name != lit_get() && name
                != lit_set() && name != lit_info() && name != lit_replconf() && name != lit_psync()
                && name != lit_wait());
        }
        invalid_command(&parts[0])
    }
}

/// Does `s` spell the four given bytes, up to ASCII case?
fn is_name(s: &Vec<u8>, a: u8, b: u8, c: u8, d: u8) -> (r: bool)
    ensures
        r == (upper_bytes(s@) == seq![a, b, c, d]),
{
    let mut pat: Vec<u8> = Vec::new();
    pat.push(a);
    pat.push(b);
    pat.push(c);
    pat.push(d);
    proof {
        assert(pat@ =~= seq![a, b, c, d]);
    }
    strutil::eq_ignore_ascii_upper(s.as_slice(), pat.as_slice())
}

fn is_name3(s: &Vec<u8>, a: u8, b: u8, c: u8) -> (r: bool)
    ensures
        r == (upper_bytes(s@) == seq![a, b, c]),
{
    let mut pat: Vec<u8> = Vec::new();
    pat.push(a);
    pat.push(b);
    pat.push(c);
    proof {
        assert(pat@ =~= seq![a, b, c]);
    }
    strutil::eq_ignore_ascii_upper(s.as_slice(), pat.as_slice())
}

fn is_name5(s: &Vec<u8>, a: u8, b: u8, c: u8, d: u8, e: u8) -> (r: bool)
    ensures
        r == (upper_bytes(s@) == seq![a, b, c, d, e]),
{
    let mut pat: Vec<u8> = Vec::new();
    pat.push(a);
    pat.push(b);
    pat.push(c);
    pat.push(d);
    pat.push(e);
    proof {
        assert(pat@ =~= seq![a, b, c, d, e]);
    }
    strutil::eq_ignore_ascii_upper(s.as_slice(), pat.as_slice())
}

fn is_name8(s: &Vec<u8>, a: u8, b: u8, c: u8, d: u8, e: u8, f: u8, g: u8, h: u8) -> (r: bool)
    ensures
        r == (upper_bytes(s@) == seq![a, b, c, d, e, f, g, h]),
{
    let mut pat: Vec<u8> = Vec::new();
    pat.push(a);
    pat.push(b);
    pat.push(c);
    pat.push(d);
    pat.push(e);
    pat.push(f);
    pat.push(g);
    pat.push(h);
    proof {
        assert(pat@ =~= seq![a, b, c, d, e, f, g, h]);
    }
    strutil::eq_ignore_ascii_upper(s.as_slice(), pat.as_slice())
}

fn wrong_number_of_arguments(command: &str) -> (r: FromValueError) {
    let mut message = String::from_str("wrong number of arguments for command ");
    message.append(command);
    FromValueError(message)
}

fn invalid_command(name: &Vec<u8>) -> (r: Result<Command, FromValueError>)
    ensures
        r is Err,
{
    Err(FromValueError(strutil::compose_message("invalid command: ", name.as_slice())))
}

fn parse_ping(size: usize, parts: Vec<Vec<u8>>) -> (r: Result<Command, FromValueError>)
    requires
        parts@.len() >= 1,
        upper_bytes(parts@.map_values(|p: Vec<u8>| p@)[0]) == lit_ping(),
    ensures
        ({
            let ps = parts@.map_values(|p: Vec<u8>| p@);
            &&& r is Ok <==> spec_cmd(size as int, ps) is Some
            &&& r matches Ok(c) ==> spec_cmd(size as int, ps) == Option::Some(c@)
        }),
{
    let ghost ps = parts@.map_values(|p: Vec<u8>| p@);
    proof {
        assert(forall|k: int| 0 <= k < ps.drop_first().len() ==> ps.drop_first()[k] == ps[k + 1]);
    }
    if parts.len() == 2 {
        let message = parts[1].clone();
        Ok(Command::Ping { size, message: Some(message) })
    } else if parts.len() == 1 {
        Ok(Command::Ping { size, message: None })
    } else {
        Err(wrong_number_of_arguments("PING"))
    }
}

fn parse_echo(size: usize, parts: Vec<Vec<u8>>) -> (r: Result<Command, FromValueError>)
    requires
        parts@.len() >= 1,
        upper_bytes(parts@.map_values(|p: Vec<u8>| p@)[0]) == lit_echo(),
    ensures
        ({
            let ps = parts@.map_values(|p: Vec<u8>| p@);
            &&& r is Ok <==> spec_cmd(size as int, ps) is Some
            &&& r matches Ok(c) ==> spec_cmd(size as int, ps) == Option::Some(c@)
        }),
{
    let ghost ps = parts@.map_values(|p: Vec<u8>| p@);
    proof {
        assert(forall|k: int| 0 <= k < ps.drop_first().len() ==> ps.drop_first()[k] == ps[k + 1]);
    }
    if parts.len() == 2 {
        let message = parts[1].clone();
        Ok(Command::Echo { size, message })
    } else {
        Err(wrong_number_of_arguments("ECHO"))
    }
}

fn parse_get(size: usize, parts: Vec<Vec<u8>>) -> (r: Result<Command, FromValueError>)
    requires
        parts@.len() >= 1,
        upper_bytes(parts@.map_values(|p: Vec<u8>| p@)[0]) == lit_get(),
    ensures
        ({
            let ps = parts@.map_values(|p: Vec<u8>| p@);
            &&& r is Ok <==> spec_cmd(size as int, ps) is Some
            &&& r matches Ok(c) ==> spec_cmd(size as int, ps) == Option::Some(c@)
        }),
{
    let ghost ps = parts@.map_values(|p: Vec<u8>| p@);
    proof {
        assert(forall|k: int| 0 <= k < ps.drop_first().len() ==> ps.drop_first()[k] == ps[k + 1]);
    }
    if parts.len() == 2 {
        let key = parts[1].clone();
        Ok(Command::Get { size, key })
    } else {
        Err(wrong_number_of_arguments("GET"))
    }
}

fn parse_set(size: usize, parts: Vec<Vec<u8>>) -> (r: Result<Command, FromValueError>)
    requires
        parts@.len() >= 1,
        upper_bytes(parts@.map_values(|p: Vec<u8>| p@)[0]) == lit_set(),
    ensures
        ({
            let ps = parts@.map_values(|p: Vec<u8>| p@);
            &&& r is Ok <==> spec_cmd(size as int, ps) is Some
            &&& r matches Ok(c) ==> spec_cmd(size as int, ps) == Option::Some(c@)
        }),
{
    let ghost ps = parts@.map_values(|p: Vec<u8>| p@);
    proof {
        assert(forall|k: int| 0 <= k < ps.drop_first().len() ==> ps.drop_first()[k] == ps[k + 1]);
    }
    if parts.len() < 3 {
        return Err(wrong_number_of_arguments("SET"));
    }
    let key = parts[1].clone();
    let value = parts[2].clone();
    match parse_set_args(&parts) {
        Ok(expiry) => Ok(Command::SetKey { size, key, value, expiry }),
        Err(e) => Err(e),
    }
}

/// The optional arguments of `SET`: nothing, or exactly `PX` with a
/// millisecond count; anything else, or any surplus, is a protocol error.
fn parse_set_args(parts: &Vec<Vec<u8>>) -> (r: Result<Option<u64>, FromValueError>)
    requires
        parts@.len() >= 3,
    ensures
        ({
            let ps = parts@.map_values(|p: Vec<u8>| p@);
            let args = ps.drop_first();
            &&& (r == Result::<Option<u64>, FromValueError>::Ok(Option::<u64>::None) <==> args.len()
                == 2)
            &&& (args.len() >= 3 ==> ((r is Ok <==> args.len() == 4 && valid_utf8(args[2])
                && upper_bytes(args[2]) == lit_px() && u64_str_ok(args[3])) && (r matches Ok(e)
                ==> e == Option::Some(u64_str_value(args[3]) as u64))))
        }),
{
    let ghost ps = parts@.map_values(|p: Vec<u8>| p@);
    proof {
        assert(forall|k: int| 0 <= k < ps.drop_first().len() ==> ps.drop_first()[k] == ps[k + 1]);
    }
    if parts.len() == 3 {
        return Ok(None);
    }
    let option = &parts[3];
    if !strutil::is_utf8(option.as_slice()) {
        return Err(err_lit("invalid UTF-8"));
    }
    let mut px: Vec<u8> = Vec::new();
    px.push(80);
    px.push(88);
    proof {
        assert(px@ =~= lit_px());
    }
    if strutil::eq_ignore_ascii_upper(option.as_slice(), px.as_slice()) {
        match parse_set_expiry(parts) {
            Ok(expiry) => Ok(Some(expiry)),
            Err(e) => Err(e),
        }
    } else {
        Err(FromValueError(strutil::compose_message("invalid SET argument: ", option.as_slice())))
    }
}

/// The millisecond count after `PX`: exactly one, and a decimal.
fn parse_set_expiry(parts: &Vec<Vec<u8>>) -> (r: Result<u64, FromValueError>)
    requires
        parts@.len() >= 4,
    ensures
        ({
            let ps = parts@.map_values(|p: Vec<u8>| p@);
            let args = ps.drop_first();
            &&& (r is Ok <==> args.len() == 4 && u64_str_ok(args[3]))
            &&& (r matches Ok(e) ==> e == u64_str_value(args[3]) as u64)
        }),
{
    let ghost ps = parts@.map_values(|p: Vec<u8>| p@);
    proof {
        assert(forall|k: int| 0 <= k < ps.drop_first().len() ==> ps.drop_first()[k] == ps[k + 1]);
    }
    if parts.len() < 5 {
        return Err(wrong_number_of_arguments("SET PX"));
    }
    if parts.len() > 5 {
        return Err(wrong_number_of_arguments("SET"));
    }
    parse_number_u64(&parts[4], "integer value for SET PX argument")
}

fn parse_info(size: usize, parts: Vec<Vec<u8>>) -> (r: Result<Command, FromValueError>)
    requires
        parts@.len() >= 1,
        upper_bytes(parts@.map_values(|p: Vec<u8>| p@)[0]) == lit_info(),
    ensures
        ({
            let ps = parts@.map_values(|p: Vec<u8>| p@);
            r matches Ok(c) && spec_cmd(size as int, ps) == Option::Some(c@)
        }),
{
    let ghost ps = parts@.map_values(|p: Vec<u8>| p@);
    let mut sections: Vec<Vec<u8>> = Vec::new();
    let mut i: usize = 1;
    while i < parts.len()
        invariant
            1 <= i <= parts@.len(),
            ps == parts@.map_values(|p: Vec<u8>| p@),
            ps.len() == parts@.len(),
            sections@.len() == i - 1,
            forall|k: int| 0 <= k < i - 1 ==> (#[trigger] sections@[k])@ == ps[k + 1],
        decreases parts@.len() - i,
    {
        let s = parts[i].clone();
        sections.push(s);
        i = i + 1;
    }
    proof {
        assert(sections@.map_values(|s: Vec<u8>| s@) =~= ps.drop_first());
    }
    Ok(Command::Info { size, sections })
}

fn parse_replconf(size: usize, parts: Vec<Vec<u8>>) -> (r: Result<Command, FromValueError>)
    requires
        parts@.len() >= 1,
        upper_bytes(parts@.map_values(|p: Vec<u8>| p@)[0]) == lit_replconf(),
    ensures
        ({
            let ps = parts@.map_values(|p: Vec<u8>| p@);
            &&& r is Ok <==> spec_cmd(size as int, ps) is Some
            &&& r matches Ok(c) ==> spec_cmd(size as int, ps) == Option::Some(c@)
        }),
{
    let ghost ps = parts@.map_values(|p: Vec<u8>| p@);
    proof {
        assert(forall|k: int| 0 <= k < ps.drop_first().len() ==> ps.drop_first()[k] == ps[k + 1]);
    }
    if parts.len() != 3 {
        return Err(wrong_number_of_arguments("REPLCONF"));
    }
    let key = parts[1].clone();
    let value = parts[2].clone();
    Ok(Command::Replconf { size, key, value })
}

fn parse_psync(size: usize, parts: Vec<Vec<u8>>) -> (r: Result<Command, FromValueError>)
    requires
        parts@.len() >= 1,
        upper_bytes(parts@.map_values(|p: Vec<u8>| p@)[0]) == lit_psync(),
    ensures
        ({
            let ps = parts@.map_values(|p: Vec<u8>| p@);
            &&& r is Ok <==> spec_cmd(size as int, ps) is Some
            &&& r matches Ok(c) ==> spec_cmd(size as int, ps) == Option::Some(c@)
        }),
{
    let ghost ps = parts@.map_values(|p: Vec<u8>| p@);
    proof {
        assert(forall|k: int| 0 <= k < ps.drop_first().len() ==> ps.drop_first()[k] == ps[k + 1]);
    }
    if parts.len() != 3 {
        return Err(wrong_number_of_arguments("PSYNC"));
    }
    let master_replid = parse_psync_replid(&parts[1]);
    match parse_psync_offset(&parts[2]) {
        Ok(master_repl_offset) => Ok(
            Command::Psync { size, master_replid, master_repl_offset },
        ),
        Err(e) => Err(e),
    }
}

/// A literal `?` stands for no replication id.
fn parse_psync_replid(replid: &Vec<u8>) -> (r: Option<Vec<u8>>)
    ensures
        replid@ == lit_question() ==> r is None,
        replid@ != lit_question() ==> (r matches Some(v) && v@ == replid@),
{
    let mut q: Vec<u8> = Vec::new();
    q.push(63);
    proof {
        assert(q@ =~= lit_question());
    }
    if strutil::eq_bytes(replid.as_slice(), q.as_slice()) {
        None
    } else {
        Some(replid.clone())
    }
}

/// A negative offset stands for no offset; other values are kept, reduced to
/// the 32-bit range.
fn parse_psync_offset(offset: &Vec<u8>) -> (r: Result<Option<u32>, FromValueError>)
    ensures
        r is Ok <==> i64_str_ok(offset@),
        r matches Ok(o) ==> o == ({
            let off = int_str_value(offset@);
            if off < 0 {
                Option::<u32>::None
            } else {
                Option::<u32>::Some((off % 0x100000000) as u32)
            }
        }),
{
    match crate::num::parse_i64(offset.as_slice()) {
        None => Err(
            FromValueError(strutil::compose_message("invalid PSYNC offset: ", offset.as_slice())),
        ),
        Some(off) => {
            if off < 0 {
                Ok(None)
            } else {
                proof {
                    assert(off as int % 0x100000000 == (off as u64 % 0x100000000u64) as int)
                        by (nonlinear_arith)
                        requires off >= 0;
                }
                Ok(Some((off % 0x100000000) as u32))
            }
        },
    }
}

fn parse_wait(size: usize, parts: Vec<Vec<u8>>) -> (r: Result<Command, FromValueError>)
    requires
        parts@.len() >= 1,
        upper_bytes(parts@.map_values(|p: Vec<u8>| p@)[0]) == lit_wait(),
    ensures
        ({
            let ps = parts@.map_values(|p: Vec<u8>| p@);
            &&& r is Ok <==> spec_cmd(size as int, ps) is Some
            &&& r matches Ok(c) ==> spec_cmd(size as int, ps) == Option::Some(c@)
        }),
{
    let ghost ps = parts@.map_values(|p: Vec<u8>| p@);
    proof {
        assert(forall|k: int| 0 <= k < ps.drop_first().len() ==> ps.drop_first()[k] == ps[k + 1]);
    }
    if parts.len() != 3 {
        return Err(wrong_number_of_arguments("WAIT"));
    }
    let replicas = match parse_number_u64(&parts[1], "value for replica count") {
        Ok(n) => n,
        Err(e) => {
            return Err(e);
        },
    };
    let timeout = match parse_number_u64(&parts[2], "value for timeout") {
        Ok(n) => n,
        Err(e) => {
            return Err(e);
        },
    };
    Ok(Command::Wait { size, replicas, timeout })
}

/// The UTF-8 text of `bytes`, or the protocol error the parser reports.
fn from_utf8(bytes: &Vec<u8>) -> (r: Result<String, FromValueError>)
    ensures
        r is Ok <==> valid_utf8(bytes@),
{
    match strutil::string_from_bytes(bytes.clone()) {
        Some(s) => Ok(s),
        None => Err(err_lit("invalid UTF-8")),
    }
}

/// An unsigned decimal argument, as the standard parser reads it.
fn parse_number_u64(bytes: &Vec<u8>, desc: &str) -> (r: Result<u64, FromValueError>)
    ensures
        r is Ok <==> u64_str_ok(bytes@),
        r matches Ok(v) ==> v as nat == u64_str_value(bytes@),
{
    match from_utf8(bytes) {
        Err(e) => {
            proof {
                crate::num::lemma_numeral_is_utf8(bytes@);
            }
            Err(e)
        },
        Ok(text) => {
            match crate::num::parse_u64(bytes.as_slice()) {
                Some(v) => Ok(v),
                None => {
                    let mut message = String::from_str("invalid ");
                    message.append(desc);
                    message.append(": ");
                    message.append(text.as_str());
                    Err(FromValueError(message))
                },
            }
        },
    }
}

impl Command {
    /// The wire size this command carries.
    pub fn size(&self) -> (r: usize)
        ensures
            r == cmd_size(self@),
    {
        match self {
            Command::Ping { size, .. } => *size,
            Command::Echo { size, .. } => *size,
            Command::Get { size, .. } => *size,
            Command::SetKey { size, .. } => *size,
            Command::Info { size, .. } => *size,
            Command::Replconf { size, .. } => *size,
            Command::Psync { size, .. } => *size,
            Command::Wait { size, .. } => *size,
        }
    }

    /// Does this command mutate the keyspace?
    pub fn is_write(&self) -> (r: bool)
        ensures
            r == (self@ is SetKey),
    {
        match self {
            Command::SetKey { .. } => true,
            _ => false,
        }
    }

    /// The command as an array of bulk strings, the form fanned out to
    /// replicas.
    pub fn to_value(&self) -> (r: Value)
        requires
            to_value_fits(self@),
        ensures
            r@ == cmd_value_model(self@),
            well_sized(r),
    {
        to_value(self)
    }
}

pub open spec fn lit_neg_one() -> Seq<u8> {
    seq![45u8, 49u8]
}

/// The canonical argument list of a command: the upper-case name first, then
/// its arguments, numbers in canonical decimal.
pub open spec fn spec_cmd_parts(c: CModel) -> Seq<Seq<u8>> {
    match c {
        CModel::Ping { message: Option::None, .. } => seq![lit_ping()],
        CModel::Ping { message: Option::Some(m), .. } => seq![lit_ping(), m],
        CModel::Echo { message, .. } => seq![lit_echo(), message],
        CModel::Get { key, .. } => seq![lit_get(), key],
        CModel::SetKey { key, value, expiry: Option::None, .. } => seq![lit_set(), key, value],
        CModel::SetKey { key, value, expiry: Option::Some(e), .. } => seq![
            lit_set(),
            key,
            value,
            lit_px(),
            dec_nat(e as nat),
        ],
        CModel::Info { sections, .. } => seq![lit_info()] + sections,
        CModel::Replconf { key, value, .. } => seq![lit_replconf(), key, value],
        CModel::Psync { master_replid, master_repl_offset, .. } => seq![
            lit_psync(),
            match master_replid {
                Option::Some(r) => r,
                Option::None => lit_question(),
            },
            match master_repl_offset {
                Option::Some(o) => dec_nat(o as nat),
                Option::None => lit_neg_one(),
            },
        ],
        CModel::Wait { replicas, timeout, .. } => seq![
            lit_wait(),
            dec_nat(replicas as nat),
            dec_nat(timeout as nat),
        ],
    }
}

/// The array-of-bulk-strings value a command formats to.
pub open spec fn cmd_value_model(c: CModel) -> VModel {
    VModel::Arr(spec_cmd_parts(c).map_values(|p: Seq<u8>| VModel::Bulk(p)))
}

/// The formatted command fits the machine's size type.
pub open spec fn to_value_fits(c: CModel) -> bool {
    wire(cmd_value_model(c)).len() <= usize::MAX
}

/// The canonical parts of the command, as owned byte strings.
pub fn cmd_parts(command: &Command) -> (r: Vec<Vec<u8>>)
    ensures
        r@.map_values(|p: Vec<u8>| p@) == spec_cmd_parts(command@),
        r@.len() >= 1,
{
    let mut parts: Vec<Vec<u8>> = Vec::new();
    match command {
        Command::Ping { message, .. } => {
            parts.push(name_bytes4(80, 73, 78, 71));
            match message {
                Some(m) => {
                    parts.push(m.clone());
                },
                None => {},
            }
            proof {
                assert(parts@.map_values(|p: Vec<u8>| p@) =~~= spec_cmd_parts(command@));
            }
        },
        Command::Echo { message, .. } => {
            parts.push(name_bytes4(69, 67, 72, 79));
            parts.push(message.clone());
            proof {
                assert(parts@.map_values(|p: Vec<u8>| p@) =~~= spec_cmd_parts(command@));
            }
        },
        Command::Get { key, .. } => {
            parts.push(name_bytes3(71, 69, 84));
            parts.push(key.clone());
            proof {
                assert(parts@.map_values(|p: Vec<u8>| p@) =~~= spec_cmd_parts(command@));
            }
        },
        Command::SetKey { key, value, expiry, .. } => {
            parts.push(name_bytes3(83, 69, 84));
            parts.push(key.clone());
            parts.push(value.clone());
            match expiry {
                Some(e) => {
                    let mut px: Vec<u8> = Vec::new();
                    px.push(80);
                    px.push(88);
                    proof {
                        assert(px@ =~= lit_px());
                    }
                    parts.push(px);
                    parts.push(crate::num::u64_dec(*e));
                },
                None => {},
            }
            proof {
                assert(parts@.map_values(|p: Vec<u8>| p@) =~~= spec_cmd_parts(command@));
            }
        },
        Command::Info { sections, .. } => {
            parts.push(name_bytes4(73, 78, 70, 79));
            let mut i: usize = 0;
            while i < sections.len()
                invariant
                    i <= sections@.len(),
                    parts@.len() == i + 1,
                    parts@[0]@ == lit_info(),
                    forall|k: int| 1 <= k <= i ==> (#[trigger] parts@[k])@ == sections@[k - 1]@,
                decreases sections@.len() - i,
            {
                let s = sections[i].clone();
                parts.push(s);
                i = i + 1;
            }
            proof {
                assert(parts@.map_values(|p: Vec<u8>| p@) =~~= spec_cmd_parts(command@));
            }
        },
        Command::Replconf { key, value, .. } => {
            let mut name: Vec<u8> = Vec::new();
            name.push(82);
            name.push(69);
            name.push(80);
            name.push(76);
            name.push(67);
            name.push(79);
            name.push(78);
            name.push(70);
            proof {
                assert(name@ =~= lit_replconf());
            }
            parts.push(name);
            parts.push(key.clone());
            parts.push(value.clone());
            proof {
                assert(parts@.map_values(|p: Vec<u8>| p@) =~~= spec_cmd_parts(command@));
            }
        },
        Command::Psync { master_replid, master_repl_offset, .. } => {
            let mut name: Vec<u8> = Vec::new();
            name.push(80);
            name.push(83);
            name.push(89);
            name.push(78);
            name.push(67);
            proof {
                assert(name@ =~= lit_psync());
            }
            parts.push(name);
            match master_replid {
                Some(r) => {
                    parts.push(r.clone());
                },
                None => {
                    let mut q: Vec<u8> = Vec::new();
                    q.push(63);
                    proof {
                        assert(q@ =~= lit_question());
                    }
                    parts.push(q);
                },
            }
            match master_repl_offset {
                Some(o) => {
                    parts.push(crate::num::u64_dec(*o as u64));
                },
                None => {
                    let mut n: Vec<u8> = Vec::new();
                    n.push(45);
                    n.push(49);
                    proof {
                        assert(n@ =~= lit_neg_one());
                    }
                    parts.push(n);
                },
            }
            proof {
                assert(parts@.map_values(|p: Vec<u8>| p@) =~~= spec_cmd_parts(command@));
            }
        },
        Command::Wait { replicas, timeout, .. } => {
            parts.push(name_bytes4(87, 65, 73, 84));
            parts.push(crate::num::u64_dec(*replicas));
            parts.push(crate::num::u64_dec(*timeout));
            proof {
                assert(parts@.map_values(|p: Vec<u8>| p@) =~~= spec_cmd_parts(command@));
            }
        },
    }
    proof {
        assert(parts@.map_values(|p: Vec<u8>| p@) =~~= spec_cmd_parts(command@));
    }
    parts
}

fn name_bytes3(a: u8, b: u8, c: u8) -> (r: Vec<u8>)
    ensures
        r@ == seq![a, b, c],
{
    let mut v: Vec<u8> = Vec::new();
    v.push(a);
    v.push(b);
    v.push(c);
    proof {
        assert(v@ =~= seq![a, b, c]);
    }
    v
}

fn name_bytes4(a: u8, b: u8, c: u8, d: u8) -> (r: Vec<u8>)
    ensures
        r@ == seq![a, b, c, d],
{
    let mut v: Vec<u8> = Vec::new();
    v.push(a);
    v.push(b);
    v.push(c);
    v.push(d);
    proof {
        assert(v@ =~= seq![a, b, c, d]);
    }
    v
}

/// The command as an array of bulk strings, in argument order, preserving the
/// raw bytes of keys and values; the carried size equals what the writer
/// emits.
pub fn to_value(command: &Command) -> (r: Value)
    requires
        to_value_fits(command@),
    ensures
        r@ == cmd_value_model(command@),
        well_sized(r),
{
    let parts = cmd_parts(command);
    proof {
        assert(crate::value::bulks_model(parts@.map_values(|p: Vec<u8>| p@)) == cmd_value_model(
            command@,
        ));
    }
    crate::value::bulks_array(parts)
}

/// Whether the formatted command fits the machine's size type; callers that
/// cannot establish `to_value_fits` ahead of time test it with this.
pub fn command_fits(command: &Command) -> (r: bool)
    ensures
        r == to_value_fits(command@),
{
    let parts = cmd_parts(command);
    let ghost ps = spec_cmd_parts(command@);
    let ghost ms = ps.map_values(|p: Seq<u8>| VModel::Bulk(p));
    let count_digits = crate::num::u64_dec(parts.len() as u64);
    proof {
        crate::num::lemma_dec_u64_len(parts@.len() as nat);
        assert(wire(VModel::Arr(ms)).len() == 3 + dec_nat(ms.len() as nat).len()
            + crate::value::wire_seq(ms).len());
    }
    let mut total: usize = 3 + count_digits.len();
    let mut i: usize = 0;
    proof {
        assert(ms.take(0) =~= Seq::<VModel>::empty());
    }
    while i < parts.len()
        invariant
            i <= parts@.len(),
            ps == spec_cmd_parts(command@),
            ms == ps.map_values(|p: Seq<u8>| VModel::Bulk(p)),
            parts@.map_values(|p: Vec<u8>| p@) == ps,
            ms.len() == parts@.len(),
            count_digits@ == dec_nat(ms.len() as nat),
            count_digits@.len() <= 20,
            total == 3 + count_digits@.len() + crate::value::wire_seq(ms.take(i as int)).len(),
            total <= usize::MAX,
        decreases parts@.len() - i,
    {
        let d = crate::num::u64_dec(parts[i].len() as u64);
        proof {
            crate::num::lemma_dec_u64_len(parts@[i as int]@.len() as nat);
            assert(ms[i as int] == VModel::Bulk(parts@[i as int]@));
            assert(wire(ms[i as int]).len() == parts@[i as int]@.len() + d@.len() + 5);
            assert(ms.take(i + 1) =~= ms.take(i as int).push(ms[i as int]));
            crate::value::lemma_wire_seq_snoc(ms.take(i as int), ms[i as int]);
            crate::value::lemma_wire_seq_take_le(ms, i + 1);
        }
        let frame: usize = d.len() + 5;
        if parts[i].len() > usize::MAX - frame {
            proof {
                assert(wire(VModel::Arr(ms)).len() > usize::MAX);
            }
            return false;
        }
        let elem: usize = parts[i].len() + frame;
        if elem > usize::MAX - total {
            proof {
                assert(wire(VModel::Arr(ms)).len() > usize::MAX);
            }
            return false;
        }
        total = total + elem;
        i = i + 1;
    }
    proof {
        assert(ms.take(ms.len() as int) =~= ms);
    }
    true
}

/// Parsing the formatted form of a command yields the command back, its size
/// taken from the parsed array.  The one excluded input is a `PSYNC` whose
/// replication id is the literal `?`, which the wire form cannot tell from an
/// absent id.
pub proof fn lemma_parse_format(c: CModel, sz: int)
    requires
        !(c matches CModel::Psync { master_replid: Option::Some(r), .. } && r == lit_question()),
    ensures
        spec_cmd(sz, spec_cmd_parts(c)) == Option::Some(with_size(c, sz)),
{
    let parts = spec_cmd_parts(c);
    let args = parts.drop_first();
    lemma_upper_fix();
    match c {
        CModel::Ping { message, .. } => {
            match message {
                Option::None => {},
                Option::Some(m) => {
                    assert(args =~= seq![m]);
                },
            }
        },
        CModel::Echo { message, .. } => {
            assert(args =~= seq![message]);
        },
        CModel::Get { key, .. } => {
            assert(args =~= seq![key]);
        },
        CModel::SetKey { key, value, expiry, .. } => {
            match expiry {
                Option::None => {
                    assert(args =~= seq![key, value]);
                },
                Option::Some(e) => {
                    assert(args =~= seq![key, value, lit_px(), dec_nat(e as nat)]);
                    assert(forall|i: int|
                        0 <= i < lit_px().len() ==> #[trigger] lit_px()[i] < 128);
                    crate::strutil::lemma_upper_bytes_fix(lit_px());
                    crate::strutil::lemma_ascii_valid_utf8(lit_px());
                    crate::num::lemma_dec_nat(e as nat);
                    let d = dec_nat(e as nat);
                    assert(crate::num::strip_plus(d) == d);
                    assert(u64_str_ok(d));
                    assert(u64_str_value(d) == e as nat);
                },
            }
        },
        CModel::Info { sections, .. } => {
            assert(args =~= sections);
        },
        CModel::Replconf { key, value, .. } => {
            assert(args =~= seq![key, value]);
        },
        CModel::Psync { master_replid, master_repl_offset, .. } => {
            let rid = match master_replid {
                Option::Some(r) => r,
                Option::None => lit_question(),
            };
            let off = match master_repl_offset {
                Option::Some(o) => dec_nat(o as nat),
                Option::None => lit_neg_one(),
            };
            assert(args =~= seq![rid, off]);
            match master_repl_offset {
                Option::None => {
                    crate::num::lemma_neg_one_line();
                },
                Option::Some(o) => {
                    crate::num::lemma_dec_nat(o as nat);
                    let d = dec_nat(o as nat);
                    assert(crate::num::int_str_digits(d) == d);
                    assert(!crate::num::int_str_negative(d));
                    assert(i64_str_ok(d));
                    assert(int_str_value(d) == o as nat);
                    assert((o as int) % 0x100000000 == o as int) by (nonlinear_arith)
                        requires (o as int) < 0x100000000, 0 <= (o as int);
                },
            }
        },
        CModel::Wait { replicas, timeout, .. } => {
            assert(args =~= seq![dec_nat(replicas as nat), dec_nat(timeout as nat)]);
            crate::num::lemma_dec_nat(replicas as nat);
            crate::num::lemma_dec_nat(timeout as nat);
            assert(crate::num::strip_plus(dec_nat(replicas as nat)) == dec_nat(replicas as nat));
            assert(crate::num::strip_plus(dec_nat(timeout as nat)) == dec_nat(timeout as nat));
        },
    }
}

/// Every command name is its own ASCII upper-case form.
proof fn lemma_upper_fix()
    ensures
        upper_bytes(lit_ping()) == lit_ping(),
        upper_bytes(lit_echo()) == lit_echo(),
        upper_bytes(lit_get()) == lit_get(),
        upper_bytes(lit_set()) == lit_set(),
        upper_bytes(lit_info()) == lit_info(),
        upper_bytes(lit_replconf()) == lit_replconf(),
        upper_bytes(lit_psync()) == lit_psync(),
        upper_bytes(lit_wait()) == lit_wait(),
{
    crate::strutil::lemma_upper_bytes_fix(lit_ping());
    crate::strutil::lemma_upper_bytes_fix(lit_echo());
    crate::strutil::lemma_upper_bytes_fix(lit_get());
    crate::strutil::lemma_upper_bytes_fix(lit_set());
    crate::strutil::lemma_upper_bytes_fix(lit_info());
    crate::strutil::lemma_upper_bytes_fix(lit_replconf());
    crate::strutil::lemma_upper_bytes_fix(lit_psync());
    crate::strutil::lemma_upper_bytes_fix(lit_wait());
}

/// The arrays already in the library's own output form: exact upper-case
/// name, exact arity, the `PX` token itself, and canonical decimal numbers.
pub open spec fn canonical_parts(parts: Seq<Seq<u8>>) -> bool {
    parts.len() > 0 && {
        let name = parts[0];
        let args = parts.drop_first();
        if name == lit_ping() {
            parts.len() <= 2
        } else if name == lit_echo() {
            parts.len() == 2
        } else if name == lit_get() {
            parts.len() == 2
        } else if name == lit_set() {
            parts.len() == 3 || (parts.len() == 5 && args[2] == lit_px() && (exists|n: nat|
                n <= u64::MAX && args[3] == dec_nat(n)))
        } else if name == lit_info() {
            true
        } else if name == lit_replconf() {
            parts.len() == 3
        } else if name == lit_psync() {
            parts.len() == 3 && (args[1] == lit_neg_one() || (exists|n: nat|
                n < 0x100000000 && args[1] == dec_nat(n)))
        } else if name == lit_wait() {
            parts.len() == 3 && (exists|n: nat| n <= u64::MAX && args[0] == dec_nat(n)) && (
            exists|n: nat| n <= u64::MAX && args[1] == dec_nat(n))
        } else {
            false
        }
    }
}

/// Formatting a parsed command returns the array it was parsed from, for
/// every array already in the library's own output form.
pub proof fn lemma_format_parse(sz: int, parts: Seq<Seq<u8>>, c: CModel)
    requires
        spec_cmd(sz, parts) == Option::Some(c),
        canonical_parts(parts),
    ensures
        spec_cmd_parts(c) == parts,
{
    let name = parts[0];
    let args = parts.drop_first();
    lemma_upper_fix();
    if name == lit_ping() {
        if parts.len() == 1 {
            assert(spec_cmd_parts(c) =~= parts);
        } else {
            assert(spec_cmd_parts(c) =~= parts);
        }
    } else if name == lit_echo() {
        assert(spec_cmd_parts(c) =~= parts);
    } else if name == lit_get() {
        assert(spec_cmd_parts(c) =~= parts);
    } else if name == lit_set() {
        if parts.len() == 3 {
            assert(spec_cmd_parts(c) =~= parts);
        } else {
            let n = choose|n: nat| n <= u64::MAX && args[3] == dec_nat(n);
            crate::num::lemma_dec_nat(n);
            assert(crate::num::strip_plus(args[3]) == args[3]);
            assert(u64_str_value(args[3]) == n);
            assert(spec_cmd_parts(c) =~= parts);
        }
    } else if name == lit_info() {
        assert(spec_cmd_parts(c) =~= parts);
    } else if name == lit_replconf() {
        assert(spec_cmd_parts(c) =~= parts);
    } else if name == lit_psync() {
        if args[1] == lit_neg_one() {
            crate::num::lemma_neg_one_line();
            assert(spec_cmd_parts(c) =~= parts);
        } else {
            let n = choose|n: nat| n < 0x100000000 && args[1] == dec_nat(n);
            crate::num::lemma_dec_nat(n);
            assert(crate::num::int_str_digits(args[1]) == args[1]);
            assert(!crate::num::int_str_negative(args[1]));
            assert(int_str_value(args[1]) == n);
            assert((n as int) % 0x100000000 == n as int) by (nonlinear_arith)
                requires (n as int) < 0x100000000, 0 <= (n as int);
            assert(spec_cmd_parts(c) =~= parts);
        }
    } else if name == lit_wait() {
        let n0 = choose|n: nat| n <= u64::MAX && args[0] == dec_nat(n);
        let n1 = choose|n: nat| n <= u64::MAX && args[1] == dec_nat(n);
        crate::num::lemma_dec_nat(n0);
        crate::num::lemma_dec_nat(n1);
        assert(crate::num::strip_plus(args[0]) == args[0]);
        assert(crate::num::strip_plus(args[1]) == args[1]);
        assert(spec_cmd_parts(c) =~= parts);
    }
}

} // verus!

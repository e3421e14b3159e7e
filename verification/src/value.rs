//! The RESP value: its mathematical model, its byte-exact wire encoding, and
//! the executable type that carries each value together with its wire size.
use vstd::prelude::*;
use vstd::string::StrSliceExecFns;
use vstd::string::StringSliceAdditionalSpecFns;
use vstd::utf8::valid_utf8;
use crate::num::dec_int;
use crate::num::dec_nat;

verus! {

/// The shape of a RESP value: payloads as plain byte sequences, without the
/// cached sizes the executable type carries.
pub enum VModel {
    Simple(Seq<u8>),
    Error(Seq<u8>),
    Int(int),
    Bulk(Seq<u8>),
    Bytes(Seq<u8>),
    Arr(Seq<VModel>),
    NullBulk,
    NullArr,
}

pub open spec fn crlf() -> Seq<u8> {
    seq![13u8, 10u8]
}

/// The bytes that writing a value puts on the wire.
pub open spec fn wire(m: VModel) -> Seq<u8>
    decreases m,
{
    match m {
        VModel::Simple(p) => seq![43u8] + p + crlf(),
        VModel::Error(p) => seq![45u8] + p + crlf(),
        VModel::Int(i) => seq![58u8] + dec_int(i) + crlf(),
        VModel::Bulk(p) => seq![36u8] + dec_nat(p.len()) + crlf() + p + crlf(),
        VModel::Bytes(p) => seq![36u8] + dec_nat(p.len()) + crlf() + p,
        VModel::Arr(vs) => seq![42u8] + dec_nat(vs.len()) + crlf() + wire_seq(vs),
        VModel::NullBulk => seq![36u8, 45u8, 49u8, 13u8, 10u8],
        VModel::NullArr => seq![42u8, 45u8, 49u8, 13u8, 10u8],
    }
}

/// The concatenated encodings of a sequence of values.
pub open spec fn wire_seq(vs: Seq<VModel>) -> Seq<u8>
    decreases vs,
{
    if vs.len() == 0 {
        Seq::empty()
    } else {
        wire(vs[0]) + wire_seq(vs.drop_first())
    }
}

pub proof fn lemma_wire_seq_snoc(vs: Seq<VModel>, x: VModel)
    ensures
        wire_seq(vs.push(x)) == wire_seq(vs) + wire(x),
    decreases vs.len(),
{
    let p = vs.push(x);
    if vs.len() == 0 {
        assert(p[0] == x);
        assert(p.drop_first() =~= Seq::<VModel>::empty());
        assert(wire_seq(p.drop_first()) =~= Seq::<u8>::empty());
        assert(wire_seq(p) =~= wire(x));
        assert(wire_seq(vs) =~= Seq::<u8>::empty());
        assert(wire_seq(p) =~= wire_seq(vs) + wire(x));
    } else {
        lemma_wire_seq_snoc(vs.drop_first(), x);
        assert(p.drop_first() =~= vs.drop_first().push(x));
        assert(p[0] == vs[0]);
        assert(wire_seq(p) == wire(vs[0]) + wire_seq(vs.drop_first().push(x)));
        assert(wire_seq(p) =~= wire(vs[0]) + (wire_seq(vs.drop_first()) + wire(x)));
        assert(wire_seq(vs) == wire(vs[0]) + wire_seq(vs.drop_first()));
        assert(wire_seq(p) =~= wire_seq(vs) + wire(x));
    }
}

pub proof fn lemma_wire_seq_elem_le(vs: Seq<VModel>, i: int)
    requires
        0 <= i < vs.len(),
    ensures
        wire(vs[i]).len() <= wire_seq(vs).len(),
    decreases vs.len(),
{
    if i > 0 {
        lemma_wire_seq_elem_le(vs.drop_first(), i - 1);
    }
}

/// The payload never holds a CR directly followed by an LF.
pub open spec fn crlf_free(p: Seq<u8>) -> bool {
    forall|i: int| 0 <= i && i + 1 < p.len() ==> !(#[trigger] p[i] == 13 && p[i + 1] == 10)
}

/// The values the reader can return: what survives a trip over the wire.
/// Bulk bytes are excluded: their frame has no terminator and is read only by
/// the snapshot reader.
pub open spec fn wf(m: VModel) -> bool
    decreases m,
{
    match m {
        VModel::Simple(p) => valid_utf8(p) && crlf_free(p),
        VModel::Error(p) => valid_utf8(p) && crlf_free(p),
        VModel::Int(i) => i64::MIN <= i <= i64::MAX,
        VModel::Bulk(p) => p.len() <= i32::MAX,
        VModel::Bytes(_) => false,
        VModel::Arr(vs) => vs.len() <= i32::MAX && wf_seq(vs),
        VModel::NullBulk => true,
        VModel::NullArr => true,
    }
}

pub open spec fn wf_seq(vs: Seq<VModel>) -> bool
    decreases vs,
{
    vs.len() == 0 || (wf(vs[0]) && wf_seq(vs.drop_first()))
}

/// A parsed or synthesized RESP value.  Each variant carries its wire size in
/// bytes: for parsed values the count of bytes consumed, for synthesized ones
/// the count the writer will produce.
#[derive(Debug, PartialEq, Eq)]
pub enum Value {
    SimpleString((usize, Vec<u8>)),
    SimpleError((usize, Vec<u8>)),
    Integer((usize, i64)),
    BulkString((usize, Vec<u8>)),
    BulkBytes((usize, Vec<u8>)),
    Array((usize, Vec<Value>)),
    NullBulkString,
    NullArray,
}

pub open spec fn model_of(v: Value) -> VModel
    decreases v,
{
    match v {
        Value::SimpleString((_, p)) => VModel::Simple(p@),
        Value::SimpleError((_, p)) => VModel::Error(p@),
        Value::Integer((_, i)) => VModel::Int(i as int),
        Value::BulkString((_, p)) => VModel::Bulk(p@),
        Value::BulkBytes((_, p)) => VModel::Bytes(p@),
        Value::Array((_, vs)) => VModel::Arr(models_of(vs@)),
        Value::NullBulkString => VModel::NullBulk,
        Value::NullArray => VModel::NullArr,
    }
}

pub open spec fn models_of(vs: Seq<Value>) -> Seq<VModel>
    decreases vs,
{
    if vs.len() == 0 {
        Seq::empty()
    } else {
        models_of(vs.drop_last()).push(model_of(vs.last()))
    }
}

pub broadcast proof fn lemma_models_of(vs: Seq<Value>)
    ensures
        (#[trigger] models_of(vs)).len() == vs.len(),
        forall|i: int| 0 <= i < vs.len() ==> models_of(vs)[i] == model_of(#[trigger] vs[i]),
    decreases vs.len(),
{
    if vs.len() > 0 {
        lemma_models_of(vs.drop_last());
        assert forall|i: int| 0 <= i < vs.len() implies models_of(vs)[i] == model_of(
            #[trigger] vs[i],
        ) by {
            if i < vs.len() - 1 {
                assert(vs.drop_last()[i] == vs[i]);
                assert(models_of(vs)[i] == models_of(vs.drop_last())[i]);
            } else {
                assert(vs.last() == vs[i]);
            }
        }
    }
}

impl View for Value {
    type V = VModel;

    open spec fn view(&self) -> VModel {
        model_of(*self)
    }
}

/// The size field a value carries.
pub open spec fn stored_size(v: Value) -> int {
    match v {
        Value::SimpleString((s, _)) => s as int,
        Value::SimpleError((s, _)) => s as int,
        Value::Integer((s, _)) => s as int,
        Value::BulkString((s, _)) => s as int,
        Value::BulkBytes((s, _)) => s as int,
        Value::Array((s, _)) => s as int,
        Value::NullBulkString => 5,
        Value::NullArray => 5,
    }
}

/// The carried sizes agree with the wire encoding, recursively.  This is what
/// constructors establish; parsed values instead carry the bytes consumed.
pub open spec fn well_sized(v: Value) -> bool
    decreases v,
{
    stored_size(v) == wire(model_of(v)).len() && match v {
        Value::Array((_, vs)) => well_sized_seq(vs@),
        _ => true,
    }
}

pub open spec fn well_sized_seq(vs: Seq<Value>) -> bool
    decreases vs,
{
    vs.len() == 0 || (well_sized(vs[0]) && well_sized_seq(vs.drop_first()))
}

pub proof fn lemma_well_sized_seq_index(vs: Seq<Value>, i: int)
    requires
        well_sized_seq(vs),
        0 <= i < vs.len(),
    ensures
        well_sized(vs[i]),
    decreases vs.len(),
{
    if i > 0 {
        lemma_well_sized_seq_index(vs.drop_first(), i - 1);
    }
}

pub proof fn lemma_well_sized_seq_all(vs: Seq<Value>)
    requires
        forall|i: int| 0 <= i < vs.len() ==> well_sized(#[trigger] vs[i]),
    ensures
        well_sized_seq(vs),
    decreases vs.len(),
{
    if vs.len() > 0 {
        assert(forall|i: int|
            0 <= i < vs.drop_first().len() ==> well_sized(#[trigger] vs.drop_first()[i])) by {
            assert(forall|i: int|
                0 <= i < vs.drop_first().len() ==> #[trigger] vs.drop_first()[i] == vs[i + 1]);
        }
        lemma_well_sized_seq_all(vs.drop_first());
    }
}

impl Value {
    /// A simple string over the given text.
    pub fn simple_string(value: &str) -> (r: Value)
        requires
            value.spec_bytes().len() + 3 <= usize::MAX,
        ensures
            r@ == VModel::Simple(value.spec_bytes()),
            well_sized(r),
    {
        let bytes = value.as_bytes_vec();
        let size: usize = bytes.len() + 3;
        let r = Value::SimpleString((size, bytes));
        proof {
            assert(wire(r@).len() == value.spec_bytes().len() + 3);
        }
        r
    }

    /// A simple error over the given text.
    pub fn simple_error(value: &str) -> (r: Value)
        requires
            value.spec_bytes().len() + 3 <= usize::MAX,
        ensures
            r@ == VModel::Error(value.spec_bytes()),
            well_sized(r),
    {
        let bytes = value.as_bytes_vec();
        let size: usize = bytes.len() + 3;
        let r = Value::SimpleError((size, bytes));
        proof {
            assert(wire(r@).len() == value.spec_bytes().len() + 3);
        }
        r
    }

    /// A bulk string over the given bytes.
    pub fn bulk_string_from_bytes(value: Vec<u8>) -> (r: Value)
        requires
            value@.len() + dec_nat(value@.len()).len() + 5 <= usize::MAX,
        ensures
            r@ == VModel::Bulk(value@),
            well_sized(r),
    {
        let digits = crate::num::u64_dec(value.len() as u64);
        let size: usize = value.len() + digits.len() + 5;
        let r = Value::BulkString((size, value));
        proof {
            assert(wire(r@).len() == size);
        }
        r
    }

    /// A bulk string over the given text.
    pub fn bulk_string(value: &str) -> (r: Value)
        requires
            value.spec_bytes().len() + dec_nat(value.spec_bytes().len()).len() + 5 <= usize::MAX,
        ensures
            r@ == VModel::Bulk(value.spec_bytes()),
            well_sized(r),
    {
        Value::bulk_string_from_bytes(value.as_bytes_vec())
    }

    /// An integer value.
    pub fn integer(value: i64) -> (r: Value)
        ensures
            r@ == VModel::Int(value as int),
            well_sized(r),
    {
        let digits = crate::num::i64_dec(value);
        proof {
            crate::num::lemma_dec_int_len(value as int);
        }
        let size: usize = digits.len() + 3;
        let r = Value::Integer((size, value));
        proof {
            assert(wire(r@).len() == size);
        }
        r
    }

    /// The fixed `OK` reply.
    pub fn ok() -> (r: Value)
        ensures
            r@ == VModel::Simple(seq![79u8, 75u8]),
            well_sized(r),
    {
        proof {
            reveal_strlit("OK");
            vstd::string::is_ascii_spec_bytes("OK");
            assert("OK".spec_bytes() =~= seq![79u8, 75u8]);
        }
        Value::simple_string("OK")
    }

    /// The wire size this value carries.
    pub fn size(&self) -> (r: usize)
        ensures
            r == stored_size(*self),
            well_sized(*self) ==> r == wire(self@).len(),
    {
        match self {
            Value::SimpleString((size, _)) => *size,
            Value::SimpleError((size, _)) => *size,
            Value::Integer((size, _)) => *size,
            Value::BulkString((size, _)) => *size,
            Value::BulkBytes((size, _)) => *size,
            Value::Array((size, _)) => *size,
            Value::NullBulkString => 5,
            Value::NullArray => 5,
        }
    }
}

/// The model of an array of bulk strings: a command name followed by its
/// arguments, every element a bulk string.
pub open spec fn command_model(name: Seq<u8>, args: Seq<Seq<u8>>) -> VModel {
    VModel::Arr(seq![VModel::Bulk(name)] + args.map_values(|a: Seq<u8>| VModel::Bulk(a)))
}

/// An array over already-built elements; the carried size is computed from
/// the elements' sizes.
pub fn array_value(values: Vec<Value>) -> (r: Value)
    requires
        well_sized_seq(values@),
        wire(VModel::Arr(models_of(values@))).len() <= usize::MAX,
    ensures
        r@ == VModel::Arr(models_of(values@)),
        well_sized(r),
{
    proof {
        lemma_models_of(values@);
    }
    let ghost ms = models_of(values@);
    let digits = crate::num::u64_dec(values.len() as u64);
    let mut total: usize = 0;
    let mut i: usize = 0;
    proof {
        assert(wire(VModel::Arr(ms)).len() == 1 + digits@.len() + 2 + wire_seq(ms).len());
    }
    while i < values.len()
        invariant
            i <= values.len(),
            ms == models_of(values@),
            ms.len() == values@.len(),
            forall|k: int| 0 <= k < values@.len() ==> ms[k] == model_of(#[trigger] values@[k]),
            well_sized_seq(values@),
            total == wire_seq(ms.take(i as int)).len(),
            wire_seq(ms.take(i as int)).len() <= wire_seq(ms).len(),
            wire(VModel::Arr(ms)).len() <= usize::MAX,
            wire(VModel::Arr(ms)).len() == 1 + dec_nat(ms.len()).len() + 2 + wire_seq(ms).len(),
        decreases values.len() - i,
    {
        let s = values[i].size();
        proof {
            lemma_well_sized_seq_index(values@, i as int);
            assert(s == wire(ms[i as int]).len());
            assert(ms.take(i + 1) =~= ms.take(i as int).push(ms[i as int]));
            lemma_wire_seq_snoc(ms.take(i as int), ms[i as int]);
            lemma_wire_seq_take_le(ms, i + 1);
        }
        total = total + s;
        i = i + 1;
    }
    proof {
        assert(ms.take(values@.len() as int) =~= ms);
    }
    let size: usize = total + digits.len() + 3;
    let r = Value::Array((size, values));
    proof {
        assert(models_of(values@) == ms);
        assert(wire(r@).len() == size);
    }
    r
}

pub proof fn lemma_wire_seq_take_le(vs: Seq<VModel>, k: int)
    requires
        0 <= k <= vs.len(),
    ensures
        wire_seq(vs.take(k)).len() <= wire_seq(vs).len(),
    decreases vs.len() - k,
{
    if k < vs.len() {
        lemma_wire_seq_take_le(vs, k + 1);
        assert(vs.take(k + 1) =~= vs.take(k).push(vs[k]));
        lemma_wire_seq_snoc(vs.take(k), vs[k]);
    } else {
        assert(vs.take(k) =~= vs);
    }
}

/// Bounded elements make a bounded concatenation.
pub proof fn lemma_wire_seq_bound(ms: Seq<VModel>, b: int)
    requires
        forall|i: int| 0 <= i < ms.len() ==> wire(#[trigger] ms[i]).len() <= b,
        b >= 0,
    ensures
        wire_seq(ms).len() <= ms.len() * b,
    decreases ms.len(),
{
    if ms.len() == 0 {
    } else {
        assert(forall|i: int|
            0 <= i < ms.drop_first().len() ==> #[trigger] ms.drop_first()[i] == ms[i + 1]);
        lemma_wire_seq_bound(ms.drop_first(), b);
        assert(wire(ms[0]).len() <= b);
        assert((ms.len() - 1) * b + b == ms.len() * b) by (nonlinear_arith);
    }
}


/// The array of bulk strings over the given payloads.
pub open spec fn bulks_model(parts: Seq<Seq<u8>>) -> VModel {
    VModel::Arr(parts.map_values(|p: Seq<u8>| VModel::Bulk(p)))
}

/// Builds the array of bulk strings over the given payloads.
pub fn bulks_array(parts: Vec<Vec<u8>>) -> (r: Value)
    requires
        wire(bulks_model(parts@.map_values(|p: Vec<u8>| p@))).len() <= usize::MAX,
    ensures
        r@ == bulks_model(parts@.map_values(|p: Vec<u8>| p@)),
        well_sized(r),
{
    broadcast use vstd::std_specs::vec::group_vec_axioms;

    let ghost ps = parts@.map_values(|p: Vec<u8>| p@);
    let ghost ms = ps.map_values(|p: Seq<u8>| VModel::Bulk(p));
    let mut values: Vec<Value> = Vec::new();
    let mut i: usize = 0;
    proof {
        lemma_models_of(values@);
        assert(models_of(values@) =~= ms.take(0));
    }
    while i < parts.len()
        invariant
            i <= parts@.len(),
            ps == parts@.map_values(|p: Vec<u8>| p@),
            ms == ps.map_values(|p: Seq<u8>| VModel::Bulk(p)),
            ms.len() == parts@.len(),
            values@.len() == i,
            models_of(values@) =~= ms.take(i as int),
            forall|k: int| 0 <= k < values@.len() ==> well_sized(#[trigger] values@[k]),
            wire(VModel::Arr(ms)).len() <= usize::MAX,
        decreases parts@.len() - i,
    {
        proof {
            lemma_wire_seq_elem_le(ms, i as int);
            assert(ms[i as int] == VModel::Bulk(parts@[i as int]@));
            assert(wire(ms[i as int]).len() <= wire(VModel::Arr(ms)).len());
        }
        let owned = parts[i].clone();
        let b = Value::bulk_string_from_bytes(owned);
        let ghost prev = values@;
        values.push(b);
        proof {
            assert(values@.drop_last() =~= prev);
            assert(values@.last() == b);
            assert(models_of(values@) == models_of(prev).push(b@));
            assert(ms.take(i + 1) =~= ms.take(i as int).push(ms[i as int]));
            assert(models_of(values@) =~= ms.take(i + 1));
        }
        i = i + 1;
    }
    proof {
        assert(ms.take(ms.len() as int) =~= ms);
        lemma_well_sized_seq_all(values@);
    }
    let r = array_value(values);
    r
}

impl Value {
    /// An array of bulk strings: the command name followed by byte-string
    /// arguments.
    pub fn command(command: &str, args: &[&Vec<u8>]) -> (r: Value)
        requires
            wire(command_model(command.spec_bytes(), args@.map_values(|a: &Vec<u8>| a@))).len()
                <= usize::MAX,
        ensures
            r@ == command_model(command.spec_bytes(), args@.map_values(|a: &Vec<u8>| a@)),
            well_sized(r),
    {
        let ghost arg_models = args@.map_values(|a: &Vec<u8>| a@);
        let ghost ms = seq![VModel::Bulk(command.spec_bytes())] + arg_models.map_values(
            |a: Seq<u8>| VModel::Bulk(a),
        );
        let mut values: Vec<Value> = Vec::new();
        proof {
            lemma_wire_seq_elem_le(ms, 0);
        }
        let head = Value::bulk_string(command);
        values.push(head);
        let mut i: usize = 0;
        proof {
            lemma_models_of(values@);
        }
        while i < args.len()
            invariant
                i <= args@.len(),
                ms == seq![VModel::Bulk(command.spec_bytes())] + args@.map_values(
                    |a: &Vec<u8>| a@,
                ).map_values(|a: Seq<u8>| VModel::Bulk(a)),
                ms.len() == 1 + args@.len(),
                forall|k: int| 0 <= k < args@.len() ==> ms[k + 1] == VModel::Bulk(#[trigger] args@[k]@),
                values@.len() == i + 1,
                models_of(values@) =~= ms.take(i + 1),
                forall|k: int| 0 <= k < values@.len() ==> well_sized(#[trigger] values@[k]),
                wire(VModel::Arr(ms)).len() <= usize::MAX,
            decreases args@.len() - i,
        {
            proof {
                lemma_wire_seq_elem_le(ms, i + 1);
                assert(wire(ms[i + 1]).len() <= wire(VModel::Arr(ms)).len());
            }
            let owned: Vec<u8> = (*args[i]).clone();
            assert(owned@ == args@[i as int]@);
            let ghost prev = values@;
            let b = Value::bulk_string_from_bytes(owned);
            values.push(b);
            proof {
                assert(values@.drop_last() =~= prev);
                assert(values@.last() == b);
                assert(models_of(values@) == models_of(prev).push(model_of(b)));
                assert(model_of(b) == ms[i + 1]);
                assert(ms.take(i + 2) =~= ms.take(i + 1).push(ms[i + 1]));
                assert(models_of(values@) =~= ms.take(i + 2));
            }
            i = i + 1;
        }
        proof {
            assert(ms.take(ms.len() as int) =~= ms);
            lemma_well_sized_seq_all(values@);
        }
        let r = array_value(values);
        r
    }

    /// An array of bulk strings over text arguments.
    pub fn command_str(command: &str, args: &[&str]) -> (r: Value)
        requires
            wire(command_model(command.spec_bytes(), args@.map_values(|a: &str| a.spec_bytes())))
                .len() <= usize::MAX,
        ensures
            r@ == command_model(
                command.spec_bytes(),
                args@.map_values(|a: &str| a.spec_bytes()),
            ),
            well_sized(r),
    {
        let ghost arg_models = args@.map_values(|a: &str| a.spec_bytes());
        let ghost ms = seq![VModel::Bulk(command.spec_bytes())] + arg_models.map_values(
            |a: Seq<u8>| VModel::Bulk(a),
        );
        let mut values: Vec<Value> = Vec::new();
        proof {
            lemma_wire_seq_elem_le(ms, 0);
        }
        let head = Value::bulk_string(command);
        values.push(head);
        let mut i: usize = 0;
        proof {
            lemma_models_of(values@);
        }
        while i < args.len()
            invariant
                i <= args@.len(),
                ms == seq![VModel::Bulk(command.spec_bytes())] + args@.map_values(
                    |a: &str| a.spec_bytes(),
                ).map_values(|a: Seq<u8>| VModel::Bulk(a)),
                ms.len() == 1 + args@.len(),
                forall|k: int|
                    0 <= k < args@.len() ==> ms[k + 1] == VModel::Bulk(
                        (#[trigger] args@[k]).spec_bytes(),
                    ),
                values@.len() == i + 1,
                models_of(values@) =~= ms.take(i + 1),
                forall|k: int| 0 <= k < values@.len() ==> well_sized(#[trigger] values@[k]),
                wire(VModel::Arr(ms)).len() <= usize::MAX,
            decreases args@.len() - i,
        {
            proof {
                lemma_wire_seq_elem_le(ms, i + 1);
                assert(wire(ms[i + 1]).len() <= wire(VModel::Arr(ms)).len());
            }
            let ghost prev = values@;
            let b = Value::bulk_string(args[i]);
            values.push(b);
            proof {
                assert(values@.drop_last() =~= prev);
                assert(values@.last() == b);
                assert(models_of(values@) == models_of(prev).push(model_of(b)));
                assert(model_of(b) == ms[i + 1]);
                assert(ms.take(i + 2) =~= ms.take(i + 1).push(ms[i + 1]));
                assert(models_of(values@) =~= ms.take(i + 2));
            }
            i = i + 1;
        }
        proof {
            assert(ms.take(ms.len() as int) =~= ms);
            lemma_well_sized_seq_all(values@);
        }
        let r = array_value(values);
        r
    }
}

} // verus!

//! The incremental value reader.
//!
//! The reader holds the bytes received so far.  `feed` appends one fill from
//! the socket; `read` either consumes exactly one RESP value, reports that the
//! bytes so far are a strict prefix of a value (`Incomplete`), reports that
//! they cannot open a value at all (`Invalid`), or reports a clean end of
//! input when no byte is buffered.
//!
//! A specification-level parser `spec_parse` decides, for any byte sequence,
//! between those outcomes; `read` is proved to agree with it exactly.  The
//! round-trip law `lemma_parse_wire` then states that the parser recovers any
//! well-formed value from its wire encoding, reporting exactly its length.
use vstd::prelude::*;
use vstd::utf8::valid_utf8;
use crate::num::i64_str_ok;
use crate::num::i32_str_ok;
use crate::num::int_str_value;
use crate::strutil;
use crate::value::crlf;
use crate::value::crlf_free;
use crate::value::model_of;
use crate::value::models_of;
use crate::value::stored_size;
use crate::value::wire;
use crate::value::wire_seq;
use crate::value::Value;
use crate::value::VModel;

verus! {

broadcast use vstd::std_specs::vec::group_vec_axioms;

/// A failed read.
#[derive(Debug)]
pub enum ValueReadError {
    /// No byte was buffered when the read started.
    EndOfInput,
    /// The buffered bytes are a strict prefix of a value: feed more and retry.
    Incomplete,
    /// The buffered bytes cannot be a RESP value.
    Invalid { message: String, data: Vec<u8> },
}

/// Index of the first CR LF pair at or after `i`, if any.
pub open spec fn find_crlf(s: Seq<u8>, i: int) -> Option<int>
    decreases s.len() - i,
{
    if i < 0 || i + 1 >= s.len() {
        None
    } else if s[i] == 13 && s[i + 1] == 10 {
        Some(i)
    } else {
        find_crlf(s, i + 1)
    }
}

pub proof fn lemma_find_crlf_props(s: Seq<u8>, i: int)
    requires
        0 <= i,
    ensures
        match find_crlf(s, i) {
            Some(j) => i <= j && j + 1 < s.len() && s[j] == 13 && s[j + 1] == 10 && forall|k: int|
                i <= k < j ==> !(#[trigger] s[k] == 13 && s[k + 1] == 10),
            None => forall|k: int|
                i <= k && k + 1 < s.len() ==> !(#[trigger] s[k] == 13 && s[k + 1] == 10),
        },
    decreases s.len() - i,
{
    if i + 1 >= s.len() {
    } else if s[i] == 13 && s[i + 1] == 10 {
    } else {
        lemma_find_crlf_props(s, i + 1);
    }
}

pub proof fn lemma_find_crlf_at(s: Seq<u8>, i: int, m: int)
    requires
        0 <= i <= m,
        m + 1 < s.len(),
        s[m] == 13,
        s[m + 1] == 10,
        forall|k: int| i <= k < m ==> !(#[trigger] s[k] == 13 && s[k + 1] == 10),
    ensures
        find_crlf(s, i) == Some(m),
    decreases m - i,
{
    if i < m {
        lemma_find_crlf_at(s, i + 1, m);
    }
}

/// One line: the bytes before the first CR LF pair, and the count consumed
/// including the pair; `None` when no pair is buffered yet.
pub open spec fn spec_line(s: Seq<u8>) -> Option<(Seq<u8>, int)> {
    match find_crlf(s, 0) {
        None => None,
        Some(j) => Some((s.take(j), j + 2)),
    }
}

/// The line reader recovers a CR LF-free payload wherever the terminator
/// falls, including when CR and LF arrived in different fills.
pub proof fn lemma_line_of(p: Seq<u8>, z: Seq<u8>)
    requires
        crlf_free(p),
    ensures
        spec_line(p + crlf() + z) == Some((p, p.len() as int + 2)),
{
    let s = p + crlf() + z;
    assert(s[p.len() as int] == 13);
    assert(s[p.len() as int + 1] == 10);
    assert forall|k: int| 0 <= k < p.len() implies !(#[trigger] s[k] == 13 && s[k + 1] == 10) by {
        if k + 1 < p.len() {
            assert(s[k] == p[k] && s[k + 1] == p[k + 1]);
        } else {
            assert(s[k + 1] == 13);
        }
    }
    lemma_find_crlf_at(s, 0, p.len() as int);
    assert(s.take(p.len() as int) =~= p);
}

/// What the parser decides for a byte sequence.
pub enum ParseOut {
    /// The bytes are a strict prefix of a value; more input is needed.
    More,
    /// The bytes cannot open a RESP value.
    Bad,
    /// A value, and how many bytes it occupied.
    Got(VModel, int),
}

/// What the element parser decides for a byte sequence and a count.
pub enum ElemsOut {
    EMore,
    EBad,
    EGot(Seq<VModel>, int),
}

/// The deterministic parser: one value from the front of `s`.
///
/// The bounds guards on `k` mirror facts the line reader always establishes;
/// they keep the recursion visibly well-founded.
pub open spec fn spec_parse(s: Seq<u8>) -> ParseOut
    decreases s.len(), 0int,
{
    if s.len() == 0 {
        ParseOut::More
    } else {
        let c = s[0];
        let t = s.drop_first();
        if c == 43 {
            match spec_line(t) {
                None => ParseOut::More,
                Some((line, k)) => if valid_utf8(line) {
                    ParseOut::Got(VModel::Simple(line), 1 + k)
                } else {
                    ParseOut::Bad
                },
            }
        } else if c == 45 {
            match spec_line(t) {
                None => ParseOut::More,
                Some((line, k)) => if valid_utf8(line) {
                    ParseOut::Got(VModel::Error(line), 1 + k)
                } else {
                    ParseOut::Bad
                },
            }
        } else if c == 58 {
            match spec_line(t) {
                None => ParseOut::More,
                Some((line, k)) => if i64_str_ok(line) {
                    ParseOut::Got(VModel::Int(int_str_value(line)), 1 + k)
                } else {
                    ParseOut::Bad
                },
            }
        } else if c == 36 {
            match spec_line(t) {
                None => ParseOut::More,
                Some((line, k)) => if !i32_str_ok(line) {
                    ParseOut::Bad
                } else {
                    let ln = int_str_value(line);
                    if ln < 0 {
                        ParseOut::Got(VModel::NullBulk, 1 + k)
                    } else {
                        let rest = t.skip(k);
                        if rest.len() < ln + 2 {
                            ParseOut::More
                        } else if rest[ln] == 13 && rest[ln + 1] == 10 {
                            ParseOut::Got(VModel::Bulk(rest.take(ln)), 1 + k + ln + 2)
                        } else {
                            ParseOut::Bad
                        }
                    }
                },
            }
        } else if c == 42 {
            match spec_line(t) {
                None => ParseOut::More,
                Some((line, k)) => if !i32_str_ok(line) {
                    ParseOut::Bad
                } else {
                    let ln = int_str_value(line);
                    if ln < 0 {
                        ParseOut::Got(VModel::NullArr, 1 + k)
                    } else if k < 2 || k > t.len() {
                        ParseOut::Bad
                    } else {
                        match spec_elems(t.skip(k), ln) {
                            ElemsOut::EMore => ParseOut::More,
                            ElemsOut::EBad => ParseOut::Bad,
                            ElemsOut::EGot(ms, n) => ParseOut::Got(VModel::Arr(ms), 1 + k + n),
                        }
                    }
                },
            }
        } else {
            ParseOut::Bad
        }
    }
}

/// `count` values, one after another, from the front of `s`.
pub open spec fn spec_elems(s: Seq<u8>, count: int) -> ElemsOut
    decreases s.len(), 1int, count,
{
    if count <= 0 {
        ElemsOut::EGot(Seq::empty(), 0)
    } else {
        match spec_parse(s) {
            ParseOut::More => ElemsOut::EMore,
            ParseOut::Bad => ElemsOut::EBad,
            ParseOut::Got(m, n) => if n < 1 || n > s.len() {
                ElemsOut::EBad
            } else {
                match spec_elems(s.skip(n), count - 1) {
                    ElemsOut::EMore => ElemsOut::EMore,
                    ElemsOut::EBad => ElemsOut::EBad,
                    ElemsOut::EGot(ms, t) => ElemsOut::EGot(seq![m] + ms, n + t),
                }
            },
        }
    }
}

/// The parser consumes at least one byte and never more than it was given.
pub proof fn lemma_parse_consumed(s: Seq<u8>)
    ensures
        spec_parse(s) matches ParseOut::Got(m, n) ==> 1 <= n <= s.len(),
    decreases s.len(),
{
    if s.len() > 0 {
        let t = s.drop_first();
        lemma_find_crlf_props(t, 0);
        if spec_parse(s) matches ParseOut::Got(m, n) {
            if s[0] == 42 {
                if let Some((line, k)) = spec_line(t) {
                    if i32_str_ok(line) && int_str_value(line) >= 0 && 2 <= k <= t.len() {
                        lemma_elems_consumed(t.skip(k), int_str_value(line));
                    }
                }
            }
        }
    }
}

pub proof fn lemma_elems_consumed(s: Seq<u8>, count: int)
    ensures
        spec_elems(s, count) matches ElemsOut::EGot(ms, n) ==> 0 <= n <= s.len() && ms.len()
            == if count <= 0 { 0int } else { count },
    decreases s.len(), 1int, count,
{
    if count > 0 {
        if let ParseOut::Got(m, n) = spec_parse(s) {
            if 1 <= n <= s.len() {
                lemma_elems_consumed(s.skip(n), count - 1);
            }
        }
    }
}

/// The value's carried sizes record this parse of `s` at every level: the
/// value itself stores the byte count its parse consumed (the two nulls keep
/// their fixed five), and each element of a parsed array does so in turn for
/// its own segment.  The guards on `k` mirror `spec_parse`'s.
pub open spec fn consumed_sized(v: Value, s: Seq<u8>) -> bool
    decreases s.len(), 0int,
{
    &&& (spec_parse(s) matches ParseOut::Got(m, n) && m == v@ && (stored_size(v) == n || m
        is NullBulk || m is NullArr))
    &&& match v {
        Value::Array((_, vs)) => s.len() > 0 && match spec_line(s.drop_first()) {
            Option::Some((line, k)) => if 2 <= k <= s.drop_first().len() {
                elements_consumed_sized(vs@, s.drop_first().skip(k))
            } else {
                true
            },
            Option::None => true,
        },
        _ => true,
    }
}

/// Each listed value parses in turn from the front of `s`, carrying the byte
/// count of its own segment.
pub open spec fn elements_consumed_sized(vs: Seq<Value>, s: Seq<u8>) -> bool
    decreases s.len(), 1int, vs.len(),
{
    vs.len() == 0 || {
        &&& consumed_sized(vs[0], s)
        &&& (spec_parse(s) matches ParseOut::Got(m, n) && 1 <= n <= s.len()
            && elements_consumed_sized(vs.drop_first(), s.skip(n)))
    }
}

/// One more parsed value extends a run of parsed elements.
proof fn lemma_spec_elems_snoc(s: Seq<u8>, ms: Seq<VModel>, c: int, m: VModel, n: int)
    requires
        spec_elems(s, ms.len() as int) == ElemsOut::EGot(ms, c),
        0 <= c,
        1 <= n,
        c + n <= s.len(),
        spec_parse(s.skip(c)) == ParseOut::Got(m, n),
    ensures
        spec_elems(s, ms.len() as int + 1) == ElemsOut::EGot(ms.push(m), c + n),
    decreases ms.len(),
{
    if ms.len() == 0 {
        assert(spec_elems(s, 0) == ElemsOut::EGot(Seq::<VModel>::empty(), 0));
        assert(c == 0);
        assert(s.skip(0) =~= s);
        assert(spec_parse(s) == ParseOut::Got(m, n));
        assert(spec_elems(s.skip(n), 0) == ElemsOut::EGot(Seq::<VModel>::empty(), 0));
        assert(seq![m] + Seq::<VModel>::empty() =~= ms.push(m));
    } else {
        match spec_parse(s) {
            ParseOut::Got(m0, n0) => {
                if n0 < 1 || n0 > s.len() {
                    assert(spec_elems(s, ms.len() as int) == ElemsOut::EBad);
                    assert(false);
                }
                lemma_elems_consumed(s.skip(n0), ms.len() as int - 1);
                match spec_elems(s.skip(n0), ms.len() as int - 1) {
                    ElemsOut::EGot(ms2, t2) => {
                        assert(spec_elems(s, ms.len() as int) == ElemsOut::EGot(
                            seq![m0] + ms2,
                            n0 + t2,
                        ));
                        assert(seq![m0] + ms2 == ms);
                        assert(n0 + t2 == c);
                        assert(0 <= t2);
                        assert(ms.len() == 1 + ms2.len());
                        assert forall|i: int| 0 <= i < ms2.len() implies ms.drop_first()[i]
                            == ms2[i] by {
                            assert(ms[i + 1] == (seq![m0] + ms2)[i + 1]);
                        }
                        assert(ms2 =~= ms.drop_first());
                        assert(s.skip(n0).skip(c - n0) =~= s.skip(c));
                        lemma_spec_elems_snoc(s.skip(n0), ms.drop_first(), c - n0, m, n);
                        assert(spec_elems(s, ms.len() as int + 1) == ElemsOut::EGot(
                            seq![m0] + ms.drop_first().push(m),
                            n0 + (c - n0 + n),
                        ));
                        assert(seq![m0] + ms.drop_first().push(m) =~= ms.push(m));
                    },
                    ElemsOut::EMore => {
                        assert(spec_elems(s, ms.len() as int) == ElemsOut::EMore);
                        assert(false);
                    },
                    ElemsOut::EBad => {
                        assert(spec_elems(s, ms.len() as int) == ElemsOut::EBad);
                        assert(false);
                    },
                }
            },
            ParseOut::More => {
                assert(spec_elems(s, ms.len() as int) == ElemsOut::EMore);
                assert(false);
            },
            ParseOut::Bad => {
                assert(spec_elems(s, ms.len() as int) == ElemsOut::EBad);
                assert(false);
            },
        }
    }
}

/// One more sized value extends a run of sized elements.
proof fn lemma_elements_sized_snoc(vs: Seq<Value>, s: Seq<u8>, c: int, v: Value)
    requires
        elements_consumed_sized(vs, s),
        spec_elems(s, vs.len() as int) == ElemsOut::EGot(models_of(vs), c),
        0 <= c <= s.len(),
        consumed_sized(v, s.skip(c)),
    ensures
        elements_consumed_sized(vs.push(v), s),
    decreases vs.len(),
{
    broadcast use vstd::std_specs::vec::group_vec_axioms;

    crate::value::lemma_models_of(vs);
    if vs.len() == 0 {
        assert(models_of(vs) =~= Seq::<VModel>::empty());
        assert(spec_elems(s, 0) == ElemsOut::EGot(Seq::<VModel>::empty(), 0));
        assert(c == 0);
        assert(s.skip(0) =~= s);
        assert(consumed_sized(v, s));
        lemma_parse_consumed(s);
        assert((vs.push(v))[0] == v);
        assert((vs.push(v)).drop_first() =~= Seq::<Value>::empty());
        match spec_parse(s) {
            ParseOut::Got(m0, n0) => {
                assert(elements_consumed_sized(Seq::<Value>::empty(), s.skip(n0)));
                assert(elements_consumed_sized(vs.push(v), s));
            },
            _ => {
                assert(false);
            },
        }
    } else {
        crate::value::lemma_models_of(vs.drop_first());
        match spec_parse(s) {
            ParseOut::Got(m0, n0) => {
                assert(consumed_sized(vs[0], s));
                assert(1 <= n0 <= s.len());
                assert(elements_consumed_sized(vs.drop_first(), s.skip(n0)));
                lemma_elems_consumed(s.skip(n0), vs.len() as int - 1);
                match spec_elems(s.skip(n0), vs.len() as int - 1) {
                    ElemsOut::EGot(ms2, t2) => {
                        assert(spec_elems(s, vs.len() as int) == ElemsOut::EGot(
                            seq![m0] + ms2,
                            n0 + t2,
                        ));
                        assert(seq![m0] + ms2 == models_of(vs));
                        assert(n0 + t2 == c);
                        assert(0 <= t2);
                        assert(models_of(vs).len() == vs.len());
                        assert(ms2.len() == vs.len() - 1);
                        assert forall|i: int| 0 <= i < ms2.len() implies models_of(
                            vs.drop_first(),
                        )[i] == ms2[i] by {
                            assert(models_of(vs)[i + 1] == (seq![m0] + ms2)[i + 1]);
                            assert(vs.drop_first()[i] == vs[i + 1]);
                            assert(models_of(vs.drop_first())[i] == model_of(vs.drop_first()[i]));
                            assert(models_of(vs)[i + 1] == model_of(vs[i + 1]));
                        }
                        assert(models_of(vs.drop_first()) =~= ms2);
                        assert(s.skip(n0).skip(c - n0) =~= s.skip(c));
                        lemma_elements_sized_snoc(vs.drop_first(), s.skip(n0), c - n0, v);
                        assert((vs.push(v)).drop_first() =~= vs.drop_first().push(v));
                        assert((vs.push(v))[0] == vs[0]);
                        assert(elements_consumed_sized(vs.push(v), s));
                    },
                    ElemsOut::EMore => {
                        assert(spec_elems(s, vs.len() as int) == ElemsOut::EMore);
                        assert(false);
                    },
                    ElemsOut::EBad => {
                        assert(spec_elems(s, vs.len() as int) == ElemsOut::EBad);
                        assert(false);
                    },
                }
            },
            ParseOut::More => {
                assert(consumed_sized(vs[0], s));
                assert(false);
            },
            ParseOut::Bad => {
                assert(consumed_sized(vs[0], s));
                assert(false);
            },
        }
    }
}

/// Round trip: the parser recovers any well-formed value from its own wire
/// encoding, whatever follows it, and reports exactly its length.
pub proof fn lemma_parse_wire(m: VModel, z: Seq<u8>)
    requires
        crate::value::wf(m),
    ensures
        spec_parse(wire(m) + z) == ParseOut::Got(m, wire(m).len() as int),
    decreases m,
{
    let s = wire(m) + z;
    match m {
        VModel::Simple(p) => {
            assert(s[0] == 43);
            assert(s.drop_first() =~= p + crlf() + z);
            lemma_line_of(p, z);
        },
        VModel::Error(p) => {
            assert(s[0] == 45);
            assert(s.drop_first() =~= p + crlf() + z);
            lemma_line_of(p, z);
        },
        VModel::Int(i) => {
            assert(s[0] == 58);
            let d = crate::num::dec_int(i);
            assert(s.drop_first() =~= d + crlf() + z);
            crate::num::lemma_dec_int_bytes(i);
            assert(crlf_free(d));
            lemma_line_of(d, z);
            crate::num::lemma_dec_int_parse(i);
        },
        VModel::Bulk(p) => {
            assert(s[0] == 36);
            let d = crate::num::dec_nat(p.len());
            crate::num::lemma_dec_nat(p.len());
            assert(crlf_free(d)) by {
                assert(forall|q: int| 0 <= q < d.len() ==> 48 <= #[trigger] d[q] <= 57);
            }
            let t = s.drop_first();
            assert(t =~= d + crlf() + (p + crlf() + z));
            lemma_line_of(d, p + crlf() + z);
            crate::num::lemma_dec_nat_parse_i32(p.len());
            let k = d.len() + 2;
            let rest = t.skip(k as int);
            assert(rest =~= p + crlf() + z);
            assert(rest[p.len() as int] == 13);
            assert(rest[p.len() as int + 1] == 10);
            assert(rest.len() >= p.len() + 2);
            assert(rest.take(p.len() as int) =~= p);
            assert(wire(m).len() == 1 + k + p.len() + 2);
        },
        VModel::Bytes(_) => {
            assert(false);
        },
        VModel::Arr(vs) => {
            assert(s[0] == 42);
            let d = crate::num::dec_nat(vs.len());
            crate::num::lemma_dec_nat(vs.len());
            assert(crlf_free(d)) by {
                assert(forall|q: int| 0 <= q < d.len() ==> 48 <= #[trigger] d[q] <= 57);
            }
            let t = s.drop_first();
            assert(t =~= d + crlf() + (wire_seq(vs) + z));
            lemma_line_of(d, wire_seq(vs) + z);
            crate::num::lemma_dec_nat_parse_i32(vs.len());
            let k = d.len() + 2;
            assert(2 <= k <= t.len());
            assert(t.skip(k as int) =~= wire_seq(vs) + z);
            lemma_elems_wire(vs, z);
            assert(wire(m).len() == 1 + k + wire_seq(vs).len());
        },
        VModel::NullBulk => {
            assert(s[0] == 36);
            let t = s.drop_first();
            let line = seq![45u8, 49u8];
            assert(crlf_free(line));
            assert(t =~= line + crlf() + z);
            lemma_line_of(line, z);
            assert(i32_str_ok(line) && int_str_value(line) == -1) by {
                crate::num::lemma_neg_one_line();
            }
        },
        VModel::NullArr => {
            assert(s[0] == 42);
            let t = s.drop_first();
            let line = seq![45u8, 49u8];
            assert(crlf_free(line));
            assert(t =~= line + crlf() + z);
            lemma_line_of(line, z);
            assert(i32_str_ok(line) && int_str_value(line) == -1) by {
                crate::num::lemma_neg_one_line();
            }
        },
    }
}

pub proof fn lemma_elems_wire(vs: Seq<VModel>, z: Seq<u8>)
    requires
        crate::value::wf_seq(vs),
    ensures
        spec_elems(wire_seq(vs) + z, vs.len() as int) == ElemsOut::EGot(
            vs,
            wire_seq(vs).len() as int,
        ),
    decreases vs,
{
    let s = wire_seq(vs) + z;
    if vs.len() == 0 {
        assert(spec_elems(s, 0) == ElemsOut::EGot(Seq::<VModel>::empty(), 0));
        assert(vs =~= Seq::<VModel>::empty());
    } else {
        let head = vs[0];
        let rest = vs.drop_first();
        assert(s =~= wire(head) + (wire_seq(rest) + z));
        lemma_parse_wire(head, wire_seq(rest) + z);
        let n = wire(head).len() as int;
        assert(1 <= n <= s.len()) by {
            assert(wire(head).len() >= 1);
        }
        assert(s.skip(n) =~= wire_seq(rest) + z);
        lemma_elems_wire(rest, z);
        assert(seq![head] + rest =~= vs);
        assert(wire_seq(vs).len() == n + wire_seq(rest).len());
    }
}

/// Two values written back to back are read back in order: the corollary that
/// `write(V); write(W)` followed by two reads yields `V` then `W`.
pub proof fn lemma_parse_two(m1: VModel, m2: VModel, z: Seq<u8>)
    requires
        crate::value::wf(m1),
        crate::value::wf(m2),
    ensures
        spec_parse(wire(m1) + wire(m2) + z) == ParseOut::Got(m1, wire(m1).len() as int),
        (wire(m1) + wire(m2) + z).skip(wire(m1).len() as int) =~= wire(m2) + z,
        spec_parse(wire(m2) + z) == ParseOut::Got(m2, wire(m2).len() as int),
{
    assert(wire(m1) + wire(m2) + z =~= wire(m1) + (wire(m2) + z));
    lemma_parse_wire(m1, wire(m2) + z);
    lemma_parse_wire(m2, z);
    assert((wire(m1) + wire(m2) + z).skip(wire(m1).len() as int) =~= wire(m2) + z);
}

/// Bytes `a..b` of the buffer, as an owned vector.
fn copy_range(buf: &Vec<u8>, a: usize, b: usize) -> (r: Vec<u8>)
    requires
        a <= b <= buf@.len(),
    ensures
        r@ == buf@.subrange(a as int, b as int),
{
    let mut out: Vec<u8> = Vec::new();
    let mut i: usize = a;
    while i < b
        invariant
            a <= i <= b <= buf@.len(),
            out@ == buf@.subrange(a as int, i as int),
        decreases b - i,
    {
        out.push(buf[i]);
        proof {
            assert(buf@.subrange(a as int, i + 1) =~= buf@.subrange(a as int, i as int).push(
                buf@[i as int],
            ));
        }
        i = i + 1;
    }
    out
}

/// One line starting at `from`: the bytes before the first CR LF, and the
/// count consumed including the pair.
fn read_line(buf: &Vec<u8>, from: usize) -> (r: Option<(Vec<u8>, usize)>)
    requires
        from <= buf@.len(),
    ensures
        match r {
            Some((line, k)) => {
                &&& spec_line(buf@.skip(from as int)) == Some((line@, k as int))
                &&& from + k <= buf@.len()
                &&& k >= 2
                &&& line@.len() == k - 2
            },
            None => spec_line(buf@.skip(from as int)) is None,
        },
{
    let ghost t = buf@.skip(from as int);
    let mut i: usize = from;
    while buf.len() - i >= 2
        invariant
            from <= i <= buf@.len(),
            t == buf@.skip(from as int),
            forall|k: int|
                from <= k < i && k + 1 < buf@.len() ==> !(#[trigger] buf@[k] == 13 && buf@[k + 1]
                    == 10),
        decreases buf@.len() - i,
    {
        if buf[i] == 13 && buf[i + 1] == 10 {
            let line = copy_range(buf, from, i);
            let k = i - from + 2;
            proof {
                assert forall|q: int| 0 <= q < i - from implies !(#[trigger] t[q] == 13 && t[q + 1]
                    == 10) by {
                    assert(t[q] == buf@[from + q]);
                    assert(t[q + 1] == buf@[from + q + 1]);
                }
                assert(t[i - from] == 13);
                assert(t[i - from + 1] == 10);
                lemma_find_crlf_at(t, 0, i - from);
                assert(line@ =~= t.take(i - from));
            }
            return Some((line, k));
        }
        i = i + 1;
    }
    proof {
        lemma_find_crlf_props(t, 0);
        match find_crlf(t, 0) {
            Some(j) => {
                assert(t[j] == buf@[from + j] && t[j + 1] == buf@[from + j + 1]);
                assert(false);
            },
            None => {},
        }
    }
    None
}

fn invalid(prefix: &str, data: Vec<u8>) -> (r: ValueReadError)
    ensures
        r matches ValueReadError::Invalid { .. },
{
    let message = strutil::compose_message(prefix, data.as_slice());
    ValueReadError::Invalid { message, data }
}

/// `count` values, one after another, from `buf` starting at `from`: agrees
/// exactly with `spec_elems` on the remaining bytes, each parsed value
/// carrying the byte count of its own segment.
#[verifier::loop_isolation(false)]
#[verifier::rlimit(100)]
fn parse_elems_at(buf: &Vec<u8>, from: usize, count: usize) -> (r: Result<
    (Vec<Value>, usize),
    ValueReadError,
>)
    requires
        from <= buf@.len(),
    ensures
        ({
            let s0 = buf@.skip(from as int);
            match r {
                Ok((values, consumed)) => {
                    &&& spec_elems(s0, count as int) == ElemsOut::EGot(
                        models_of(values@),
                        consumed as int,
                    )
                    &&& from + consumed <= buf@.len()
                    &&& values@.len() == count
                    &&& elements_consumed_sized(values@, s0)
                },
                Err(ValueReadError::Incomplete) => spec_elems(s0, count as int) is EMore,
                Err(ValueReadError::Invalid { .. }) => spec_elems(s0, count as int) is EBad,
                Err(ValueReadError::EndOfInput) => false,
            }
        }),
    decreases buf@.len() - from, 1int,
{
    let ghost s0 = buf@.skip(from as int);
    let total = buf.len();
    let mut values: Vec<Value> = Vec::new();
    let mut consumed: usize = 0;
    let mut idx: usize = 0;
    proof {
        assert(s0.skip(0) =~= s0);
        assert(models_of(values@) =~= Seq::<VModel>::empty());
        assert(spec_elems(s0, 0) == ElemsOut::EGot(models_of(values@), 0));
        match spec_elems(s0, count as int) {
            ElemsOut::EGot(ms, t2) => {
                assert(models_of(values@) + ms =~= ms);
            },
            ElemsOut::EMore => {},
            ElemsOut::EBad => {},
        }
    }
    while idx < count
        invariant
            total == buf@.len(),
            from + consumed <= total,
            idx <= count,
            values@.len() == idx,
            s0 == buf@.skip(from as int),
            spec_elems(s0, idx as int) == ElemsOut::EGot(models_of(values@), consumed as int),
            elements_consumed_sized(values@, s0),
            (match spec_elems(s0.skip(consumed as int), count - idx) {
                ElemsOut::EGot(ms, t2) => spec_elems(s0, count as int) == ElemsOut::EGot(
                    models_of(values@) + ms,
                    consumed + t2,
                ),
                ElemsOut::EMore => spec_elems(s0, count as int) is EMore,
                ElemsOut::EBad => spec_elems(s0, count as int) is EBad,
            }),
        decreases count - idx,
    {
        let step = parse_at(buf, from + consumed);
        proof {
            assert(buf@.skip((from + consumed) as int) =~= s0.skip(consumed as int));
        }
        match step {
            Err(e) => {
                proof {
                    let sub = s0.skip(consumed as int);
                    assert(count - idx >= 1);
                    if spec_parse(sub) is More {
                        assert(spec_elems(sub, count - idx) is EMore);
                    }
                    if spec_parse(sub) is Bad {
                        assert(spec_elems(sub, count - idx) is EBad);
                    }
                }
                return Err(e);
            },
            Ok((v, n)) => {
                let ghost prev = values@;
                let ghost sub = s0.skip(consumed as int);
                values.push(v);
                proof {
                    assert(spec_parse(sub) == ParseOut::Got(v@, n as int));
                    lemma_parse_consumed(sub);
                    assert(1 <= n <= sub.len());
                    assert(sub.skip(n as int) =~= s0.skip(consumed + n));
                    assert(values@.drop_last() =~= prev);
                    assert(values@.last() == v);
                    assert(models_of(values@) == models_of(prev).push(v@));
                    crate::value::lemma_models_of(prev);
                    assert(models_of(prev).len() == idx);
                    assert(consumed + n <= s0.len());
                    lemma_spec_elems_snoc(s0, models_of(prev), consumed as int, v@, n as int);
                    lemma_elements_sized_snoc(prev, s0, consumed as int, v);
                    assert(values@ == prev.push(v));
                    match spec_elems(s0.skip(consumed + n), count - idx - 1) {
                        ElemsOut::EMore => {},
                        ElemsOut::EBad => {},
                        ElemsOut::EGot(ms2, t2) => {
                            assert(spec_elems(sub, count - idx) == ElemsOut::EGot(
                                seq![v@] + ms2,
                                n + t2,
                            ));
                            assert(models_of(prev) + (seq![v@] + ms2) =~= models_of(values@)
                                + ms2);
                        },
                    }
                }
                consumed = consumed + n;
                idx = idx + 1;
            },
        }
    }
    proof {
        assert(spec_elems(s0.skip(consumed as int), 0) == ElemsOut::EGot(
            Seq::<VModel>::empty(),
            0,
        ));
        assert(models_of(values@) + Seq::<VModel>::empty() =~= models_of(values@));
        assert(spec_elems(s0, count as int) == ElemsOut::EGot(
            models_of(values@),
            consumed as int,
        ));
    }
    Ok((values, consumed))
}

/// One value from `buf` starting at `pos`: agrees exactly with `spec_parse`
/// on the remaining bytes.
#[verifier::loop_isolation(false)]
#[verifier::rlimit(100)]
fn parse_at(buf: &Vec<u8>, pos: usize) -> (r: Result<(Value, usize), ValueReadError>)
    requires
        pos <= buf@.len(),
    ensures
        ({
            let rem = buf@.skip(pos as int);
            match r {
                Ok((v, n)) => {
                    &&& spec_parse(rem) == ParseOut::Got(v@, n as int)
                    &&& 1 <= n
                    &&& pos + n <= buf@.len()
                    &&& (stored_size(v) == n || v@ is NullBulk || v@ is NullArr)
                    &&& consumed_sized(v, rem)
                },
                Err(ValueReadError::Incomplete) => spec_parse(rem) is More,
                Err(ValueReadError::Invalid { .. }) => spec_parse(rem) is Bad,
                Err(ValueReadError::EndOfInput) => false,
            }
        }),
    decreases buf@.len() - pos, 0int,
{
    let ghost rem = buf@.skip(pos as int);
    if pos == buf.len() {
        assert(rem.len() == 0);
        return Err(ValueReadError::Incomplete);
    }
    let c = buf[pos];
    proof {
        assert(rem[0] == c);
        assert(rem.drop_first() =~= buf@.skip(pos + 1));
    }
    if c == 43 || c == 45 {
        match read_line(buf, pos + 1) {
            None => Err(ValueReadError::Incomplete),
            Some((line, k)) => {
                if !strutil::is_utf8(line.as_slice()) {
                    return Err(invalid("invalid UTF-8 in simple string: ", line));
                }
                let size: usize = 1 + k;
                if c == 43 {
                    Ok((Value::SimpleString((size, line)), size))
                } else {
                    Ok((Value::SimpleError((size, line)), size))
                }
            },
        }
    } else if c == 58 {
        match read_line(buf, pos + 1) {
            None => Err(ValueReadError::Incomplete),
            Some((line, k)) => {
                match crate::num::parse_i64(line.as_slice()) {
                    None => {
                        if !strutil::is_utf8(line.as_slice()) {
                            Err(invalid("invalid UTF-8 in simple string: ", line))
                        } else {
                            Err(invalid("invalid integer value: ", line))
                        }
                    },
                    Some(value) => {
                        let size: usize = 1 + k;
                        Ok((Value::Integer((size, value)), size))
                    },
                }
            },
        }
    } else if c == 36 {
        match read_line(buf, pos + 1) {
            None => Err(ValueReadError::Incomplete),
            Some((line, k)) => {
                match crate::num::parse_i32(line.as_slice()) {
                    None => {
                        if !strutil::is_utf8(line.as_slice()) {
                            Err(invalid("invalid UTF-8 in simple string: ", line))
                        } else {
                            Err(invalid("invalid length: ", line))
                        }
                    },
                    Some(ln) => {
                        if ln < 0 {
                            let size: usize = 1 + k;
                            assert(spec_parse(rem) == ParseOut::Got(VModel::NullBulk, size as int));
                            Ok((Value::NullBulkString, size))
                        } else {
                            let lnu = ln as usize;
                            let p = pos + 1 + k;
                            let ghost rest = buf@.skip(pos + 1).skip(k as int);
                            proof {
                                assert(rest =~= buf@.skip(p as int));
                            }
                            if buf.len() - p < lnu + 2 {
                                assert(rest.len() < lnu + 2);
                                return Err(ValueReadError::Incomplete);
                            }
                            if buf[p + lnu] != 13 || buf[p + lnu + 1] != 10 {
                                proof {
                                    assert(rest[lnu as int] == buf@[p + lnu]);
                                    assert(rest[lnu + 1] == buf@[p + lnu + 1]);
                                }
                                let data = copy_range(buf, p, p + lnu);
                                return Err(invalid("bulk string not terminated by \\r\\n: ", data));
                            }
                            let payload = copy_range(buf, p, p + lnu);
                            let size: usize = 1 + k + lnu + 2;
                            proof {
                                assert(rest[lnu as int] == buf@[p + lnu]);
                                assert(rest[lnu + 1] == buf@[p + lnu + 1]);
                                assert(rest.take(lnu as int) =~= payload@);
                            }
                            Ok((Value::BulkString((size, payload)), size))
                        }
                    },
                }
            },
        }
    } else if c == 42 {
        match read_line(buf, pos + 1) {
            None => Err(ValueReadError::Incomplete),
            Some((line, k)) => {
                match crate::num::parse_i32(line.as_slice()) {
                    None => {
                        if !strutil::is_utf8(line.as_slice()) {
                            Err(invalid("invalid UTF-8 in simple string: ", line))
                        } else {
                            Err(invalid("invalid length: ", line))
                        }
                    },
                    Some(ln) => {
                        if ln < 0 {
                            let size: usize = 1 + k;
                            assert(spec_parse(rem) == ParseOut::Got(VModel::NullArr, size as int));
                            Ok((Value::NullArray, size))
                        } else {
                            let count = ln as usize;
                            let elems_start = pos + 1 + k;
                            let ghost s0 = buf@.skip(elems_start as int);
                            proof {
                                assert(s0 =~= buf@.skip(pos + 1).skip(k as int));
                                assert(rem.drop_first().skip(k as int) =~= s0);
                            }
                            match parse_elems_at(buf, elems_start, count) {
                                Err(e) => {
                                    proof {
                                        if spec_elems(s0, count as int) is EMore {
                                            assert(spec_parse(rem) is More);
                                        }
                                        if spec_elems(s0, count as int) is EBad {
                                            assert(spec_parse(rem) is Bad);
                                        }
                                    }
                                    Err(e)
                                },
                                Ok((values, consumed)) => {
                                    let size: usize = 1 + k + consumed;
                                    let v = Value::Array((size, values));
                                    proof {
                                        assert(spec_parse(rem) == ParseOut::Got(v@, size as int));
                                        assert(consumed_sized(v, rem));
                                    }
                                    Ok((v, size))
                                },
                            }
                        }
                    },
                }
            },
        }
    } else {
        let mut data: Vec<u8> = Vec::new();
        if c < 128 {
            data.push(c);
        } else {
            proof {
                assert(c >> 6 <= 3 && c & 63 <= 63) by (bit_vector);
            }
            data.push(192 + (c >> 6));
            data.push(128 + (c & 63));
        }
        Err(invalid("invalid RESP value: ", data))
    }
}

/// What the snapshot-frame parser decides: a `$<length>` header followed by
/// exactly `length` raw bytes, with no trailing CR LF.
pub enum BytesOut {
    BMore,
    BBad,
    BGot(Seq<u8>, int),
}

pub open spec fn spec_parse_bytes(s: Seq<u8>) -> BytesOut {
    if s.len() == 0 {
        BytesOut::BMore
    } else if s[0] != 36 {
        BytesOut::BBad
    } else {
        let t = s.drop_first();
        match spec_line(t) {
            None => BytesOut::BMore,
            Some((line, k)) => if !i32_str_ok(line) {
                BytesOut::BBad
            } else {
                let ln = int_str_value(line);
                if ln < 0 {
                    BytesOut::BGot(Seq::empty(), 1 + k)
                } else if t.skip(k).len() < ln {
                    BytesOut::BMore
                } else {
                    BytesOut::BGot(t.skip(k).take(ln), 1 + k + ln)
                }
            },
        }
    }
}

/// Reads one value at a time from the bytes fed so far.
pub struct ValueReader {
    buf: Vec<u8>,
    pos: usize,
}

impl ValueReader {
    /// The reader's buffer is consistent.
    pub closed spec fn wf(&self) -> bool {
        self.pos <= self.buf@.len()
    }

    /// The bytes received and not yet consumed.
    pub closed spec fn remaining(&self) -> Seq<u8> {
        self.buf@.skip(self.pos as int)
    }

    pub fn new() -> (r: ValueReader)
        ensures
            r.wf(),
            r.remaining() == Seq::<u8>::empty(),
    {
        let r = ValueReader { buf: Vec::new(), pos: 0 };
        proof {
            assert(r.remaining() =~= Seq::<u8>::empty());
        }
        r
    }

    /// Appends one fill from the input.
    pub fn feed(&mut self, chunk: &[u8])
        requires
            old(self).wf(),
        ensures
            final(self).wf(),
            final(self).remaining() == old(self).remaining() + chunk@,
    {
        let mut kept = copy_range(&self.buf, self.pos, self.buf.len());
        crate::writer::append_bytes(&mut kept, chunk);
        proof {
            assert(kept@ =~= old(self).remaining() + chunk@);
        }
        self.buf = kept;
        self.pos = 0;
        proof {
            assert(self.remaining() =~= self.buf@);
        }
    }

    /// Reads one value, or reports why none could be read.  Exactly one of
    /// the four outcomes of `spec_parse` happens; on success the consumed
    /// bytes leave the buffer, and the value's carried sizes record the parse
    /// at every level: the value itself and each element of an array store
    /// the byte count of their own segments (`consumed_sized`).
    pub fn read(&mut self) -> (r: Result<Value, ValueReadError>)
        requires
            old(self).wf(),
        ensures
            final(self).wf(),
            ({
                let before = old(self).remaining();
                let after = final(self).remaining();
                match r {
                    Ok(v) => consumed_sized(v, before) && (spec_parse(before)
                        matches ParseOut::Got(m, n) && m == v@ && after == before.skip(n) && (
                    stored_size(v) == n || m is NullBulk || m is NullArr)),
                    Err(ValueReadError::EndOfInput) => before.len() == 0 && after == before,
                    Err(ValueReadError::Incomplete) => before.len() > 0 && spec_parse(before)
                        is More && after == before,
                    Err(ValueReadError::Invalid { .. }) => spec_parse(before) is Bad && after
                        == before,
                }
            }),
    {
        if self.pos == self.buf.len() {
            assert(self.remaining().len() == 0);
            return Err(ValueReadError::EndOfInput);
        }
        match parse_at(&self.buf, self.pos) {
            Err(e) => Err(e),
            Ok((v, n)) => {
                proof {
                    assert(self.buf@.skip(self.pos as int).skip(n as int) =~= self.buf@.skip(
                        self.pos + n,
                    ));
                }
                self.pos = self.pos + n;
                Ok(v)
            },
        }
    }

    /// Reads a snapshot frame: a bulk-string header followed by exactly that
    /// many raw bytes, without a trailing CR LF.  Returns the consumed byte
    /// count and the payload.
    pub fn read_bytes(&mut self) -> (r: Result<(usize, Vec<u8>), ValueReadError>)
        requires
            old(self).wf(),
        ensures
            final(self).wf(),
            ({
                let before = old(self).remaining();
                let after = final(self).remaining();
                match r {
                    Ok((n, data)) => spec_parse_bytes(before) == BytesOut::BGot(data@, n as int)
                        && after == before.skip(n as int),
                    Err(ValueReadError::EndOfInput) => before.len() == 0 && after == before,
                    Err(ValueReadError::Incomplete) => before.len() > 0 && spec_parse_bytes(before)
                        is BMore && after == before,
                    Err(ValueReadError::Invalid { .. }) => spec_parse_bytes(before) is BBad
                        && after == before,
                }
            }),
    {
        let ghost rem = self.remaining();
        if self.pos == self.buf.len() {
            assert(rem.len() == 0);
            return Err(ValueReadError::EndOfInput);
        }
        let c = self.buf[self.pos];
        proof {
            assert(rem[0] == c);
            assert(rem.drop_first() =~= self.buf@.skip(self.pos + 1));
        }
        if c != 36 {
            let mut data: Vec<u8> = Vec::new();
            data.push(c);
            return Err(invalid("invalid RESP prefix for bulk bytes: ", data));
        }
        match read_line(&self.buf, self.pos + 1) {
            None => Err(ValueReadError::Incomplete),
            Some((line, k)) => {
                match crate::num::parse_i32(line.as_slice()) {
                    None => Err(invalid("invalid length: ", line)),
                    Some(ln) => {
                        if ln < 0 {
                            let n: usize = 1 + k;
                            self.pos = self.pos + n;
                            proof {
                                assert(spec_parse_bytes(rem) == BytesOut::BGot(
                                    Seq::<u8>::empty(),
                                    n as int,
                                ));
                                assert(self.buf@.skip((self.pos) as int) =~= rem.skip(n as int));
                            }
                            Ok((n, Vec::new()))
                        } else {
                            let lnu = ln as usize;
                            let p = self.pos + 1 + k;
                            let ghost rest = rem.drop_first().skip(k as int);
                            proof {
                                assert(rest =~= self.buf@.skip(p as int));
                            }
                            if self.buf.len() - p < lnu {
                                assert(rest.len() < lnu);
                                return Err(ValueReadError::Incomplete);
                            }
                            let data = copy_range(&self.buf, p, p + lnu);
                            let n: usize = 1 + k + lnu;
                            self.pos = self.pos + n;
                            proof {
                                assert(rest.take(lnu as int) =~= data@);
                                assert(self.buf@.skip((self.pos) as int) =~= rem.skip(n as int));
                            }
                            Ok((n, data))
                        }
                    },
                }
            },
        }
    }
}

} // verus!

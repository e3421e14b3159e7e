//! Byte-string helpers: comparisons, ASCII case folding, and the two places
//! where the library leans on the standard UTF-8 machinery.
use vstd::prelude::*;
use vstd::string::StringExecFns;
use vstd::utf8::valid_utf8;

verus! {

/// Byte-wise equality of two slices.
pub fn eq_bytes(a: &[u8], b: &[u8]) -> (r: bool)
    ensures
        r == (a@ == b@),
{
    if a.len() != b.len() {
        assert(a@.len() != b@.len());
        return false;
    }
    let mut i: usize = 0;
    while i < a.len()
        invariant
            i <= a.len(),
            a@.len() == b@.len(),
            forall|k: int| 0 <= k < i ==> a@[k] == b@[k],
        decreases a.len() - i,
    {
        if a[i] != b[i] {
            return false;
        }
        i = i + 1;
    }
    assert(a@ =~= b@);
    true
}

/// ASCII upper-case of one byte; other bytes unchanged.
pub open spec fn ascii_upper(b: u8) -> u8 {
    if 97 <= b <= 122 {
        (b - 32) as u8
    } else {
        b
    }
}

/// ASCII upper-case of a byte string.
pub open spec fn upper_bytes(s: Seq<u8>) -> Seq<u8> {
    s.map_values(|b: u8| ascii_upper(b))
}

/// Does `a` equal the (already upper-case) pattern `b` up to ASCII case?
pub fn eq_ignore_ascii_upper(a: &[u8], b: &[u8]) -> (r: bool)
    ensures
        r == (upper_bytes(a@) == b@),
{
    if a.len() != b.len() {
        assert(upper_bytes(a@).len() == a@.len());
        return false;
    }
    let mut i: usize = 0;
    while i < a.len()
        invariant
            i <= a.len(),
            a@.len() == b@.len(),
            forall|k: int| 0 <= k < i ==> ascii_upper(a@[k]) == b@[k],
        decreases a.len() - i,
    {
        let c = a[i];
        let up: u8 = if c >= 97 && c <= 122 {
            c - 32
        } else {
            c
        };
        if up != b[i] {
            assert(upper_bytes(a@)[i as int] != b@[i as int]);
            return false;
        }
        i = i + 1;
    }
    assert(upper_bytes(a@) =~= b@);
    true
}

/// A byte string with no lower-case letter is its own upper-case form.
pub proof fn lemma_upper_bytes_fix(s: Seq<u8>)
    requires
        forall|i: int| 0 <= i < s.len() ==> !(97 <= #[trigger] s[i] <= 122),
    ensures
        upper_bytes(s) == s,
{
    assert(upper_bytes(s) =~= s);
}

/// An all-ASCII byte string is valid UTF-8.
pub proof fn lemma_ascii_valid_utf8(s: Seq<u8>)
    requires
        forall|i: int| 0 <= i < s.len() ==> #[trigger] s[i] < 128,
    ensures
        valid_utf8(s),
{
    assert forall|i: int| 0 <= i < s.len() implies vstd::utf8::is_leading_byte_width_1(
        #[trigger] s[i],
    ) by {
        assert(s[i] < 128);
    }
    assert(s.subrange(0, 0) =~= Seq::<u8>::empty());
    assert(vstd::utf8::partial_valid_utf8(s, 0));
    vstd::utf8::partial_valid_utf8_extend_ascii_block(s, 0, s.len() as int);
    assert(s.subrange(0, s.len() as int) =~= s);
}

/// ASCII bytes decode to the characters with the same codes.
pub proof fn lemma_ascii_bytes_chars(bytes: Seq<u8>, s: Seq<char>)
    requires
        forall|i: int| 0 <= i < bytes.len() ==> #[trigger] bytes[i] < 128,
        vstd::utf8::encode_utf8(s) == bytes,
    ensures
        s == bytes.map_values(|b: u8| b as char),
{
    let cs = bytes.map_values(|b: u8| b as char);
    assert(vstd::utf8::is_ascii_chars(cs)) by {
        assert forall|i: int| 0 <= i < cs.len() implies '\0' <= #[trigger] cs[i] <= '\u{7f}' by {
            assert(cs[i] == bytes[i] as char);
            assert(bytes[i] < 128);
        }
    }
    vstd::utf8::is_ascii_chars_encode_utf8(cs);
    assert(vstd::utf8::encode_utf8(cs) =~= bytes);
    vstd::utf8::encode_utf8_decode_utf8(s);
    vstd::utf8::encode_utf8_decode_utf8(cs);
    assert(s == vstd::utf8::decode_utf8(bytes));
    assert(cs == vstd::utf8::decode_utf8(bytes));
}

/// ASCII bytes viewed as characters encode back to the same bytes.
pub proof fn lemma_ascii_chars_bytes(bytes: Seq<u8>)
    requires
        forall|i: int| 0 <= i < bytes.len() ==> #[trigger] bytes[i] < 128,
    ensures
        vstd::utf8::encode_utf8(bytes.map_values(|b: u8| b as char)) == bytes,
{
    let cs = bytes.map_values(|b: u8| b as char);
    assert(vstd::utf8::is_ascii_chars(cs)) by {
        assert forall|i: int| 0 <= i < cs.len() implies '\0' <= #[trigger] cs[i] <= '\u{7f}' by {
            assert(cs[i] == bytes[i] as char);
            assert(bytes[i] < 128);
        }
    }
    vstd::utf8::is_ascii_chars_encode_utf8(cs);
    assert(vstd::utf8::encode_utf8(cs) =~= bytes);
}

/// Relies on `core::str::from_utf8`: it succeeds exactly on the byte strings
/// that are valid UTF-8, the same predicate vstd's UTF-8 theory formalizes.
#[verifier::external_body]
pub(crate) fn is_utf8(v: &[u8]) -> (r: bool)
    ensures
        r == valid_utf8(v@),
{
    core::str::from_utf8(v).is_ok()
}

/// Relies on `String::from_utf8`: it succeeds exactly on valid UTF-8 and the
/// returned string holds exactly the given bytes.
#[verifier::external_body]
pub(crate) fn string_from_bytes(v: Vec<u8>) -> (r: Option<String>)
    ensures
        r is Some <==> valid_utf8(v@),
        r matches Some(s) ==> vstd::utf8::encode_utf8(s@) == v@,
{
    String::from_utf8(v).ok()
}

/// The text of `tail` appended to `prefix`, used for diagnostics; when `tail`
/// is not UTF-8 the prefix stands alone.
pub(crate) fn compose_message(prefix: &str, tail: &[u8]) -> String {
    let owned = vstd::slice::slice_to_vec(tail);
    let mut out = String::from_str(prefix);
    match string_from_bytes(owned) {
        Some(s) => {
            out.append(s.as_str());
            out
        },
        None => out,
    }
}

/// The decimal text of `n`, for diagnostics.
pub(crate) fn dec_string(n: u64) -> String {
    let digits = crate::num::u64_dec(n);
    match string_from_bytes(digits) {
        Some(s) => s,
        None => String::from_str(""),
    }
}

} // verus!

//! The value writer: serializes one value after another into a byte buffer
//! that the connection's writer task drains onto its socket.
use vstd::prelude::*;
use crate::value::models_of;
use crate::value::lemma_models_of;
use crate::value::lemma_wire_seq_snoc;
use crate::value::wire;
use crate::value::wire_seq;
use crate::value::Value;

verus! {

broadcast use vstd::std_specs::vec::group_vec_axioms;

/// Appends the bytes of `src` to `out`.
pub fn append_bytes(out: &mut Vec<u8>, src: &[u8])
    ensures
        final(out)@ == old(out)@ + src@,
{
    let mut i: usize = 0;
    while i < src.len()
        invariant
            i <= src@.len(),
            out@ == old(out)@ + src@.take(i as int),
        decreases src@.len() - i,
    {
        out.push(src[i]);
        proof {
            assert(src@.take(i + 1) =~= src@.take(i as int).push(src@[i as int]));
            assert(out@ =~= old(out)@ + src@.take(i + 1));
        }
        i = i + 1;
    }
    proof {
        assert(src@.take(i as int) =~= src@);
    }
}

/// Appends the wire form of `v` to `out`, exactly the bytes `wire(v@)`.
pub fn encode(v: &Value, out: &mut Vec<u8>)
    ensures
        final(out)@ == old(out)@ + wire(v@),
    decreases *v,
{
    match v {
        Value::SimpleString((_, p)) => {
            out.push(43);
            append_bytes(out, p.as_slice());
            out.push(13);
            out.push(10);
            proof {
                assert(out@ =~= old(out)@ + wire(v@));
            }
        },
        Value::SimpleError((_, p)) => {
            out.push(45);
            append_bytes(out, p.as_slice());
            out.push(13);
            out.push(10);
            proof {
                assert(out@ =~= old(out)@ + wire(v@));
            }
        },
        Value::Integer((_, n)) => {
            out.push(58);
            let mut digits = crate::num::i64_dec(*n);
            out.append(&mut digits);
            out.push(13);
            out.push(10);
            proof {
                assert(out@ =~= old(out)@ + wire(v@));
            }
        },
        Value::BulkString((_, p)) => {
            out.push(36);
            let mut digits = crate::num::u64_dec(p.len() as u64);
            out.append(&mut digits);
            out.push(13);
            out.push(10);
            append_bytes(out, p.as_slice());
            out.push(13);
            out.push(10);
            proof {
                assert(out@ =~= old(out)@ + wire(v@));
            }
        },
        Value::BulkBytes((_, p)) => {
            out.push(36);
            let mut digits = crate::num::u64_dec(p.len() as u64);
            out.append(&mut digits);
            out.push(13);
            out.push(10);
            append_bytes(out, p.as_slice());
            proof {
                assert(out@ =~= old(out)@ + wire(v@));
            }
        },
        Value::Array((_, vs)) => {
            out.push(42);
            let mut digits = crate::num::u64_dec(vs.len() as u64);
            out.append(&mut digits);
            out.push(13);
            out.push(10);
            let ghost ms = models_of(vs@);
            let ghost header_done = out@;
            proof {
                lemma_models_of(vs@);
                assert(header_done =~= old(out)@ + seq![42u8] + crate::num::dec_nat(ms.len())
                    + crate::value::crlf());
            }
            let mut j: usize = 0;
            while j < vs.len()
                invariant
                    j <= vs@.len(),
                    ms == models_of(vs@),
                    ms.len() == vs@.len(),
                    forall|k: int| 0 <= k < vs@.len() ==> ms[k] == (#[trigger] vs@[k])@,
                    out@ == header_done + wire_seq(ms.take(j as int)),
                    *v matches Value::Array(pair) && pair.1 == *vs,
                decreases vs@.len() - j,
            {
                proof {
                    let pair = v->Array_0;
                    assert(decreases_to!(*v => pair));
                    assert(decreases_to!(pair => pair.1));
                    assert(pair.1 == *vs);
                    assert(decreases_to!(*vs => vs@));
                    assert(decreases_to!(vs@ => vs@[j as int]));
                }
                encode(&vs[j], out);
                proof {
                    assert(ms.take(j + 1) =~= ms.take(j as int).push(ms[j as int]));
                    lemma_wire_seq_snoc(ms.take(j as int), ms[j as int]);
                    assert(out@ =~= header_done + wire_seq(ms.take(j + 1)));
                }
                j = j + 1;
            }
            proof {
                assert(ms.take(j as int) =~= ms);
                assert(out@ =~= old(out)@ + wire(v@));
            }
        },
        Value::NullBulkString => {
            out.push(36);
            out.push(45);
            out.push(49);
            out.push(13);
            out.push(10);
            proof {
                assert(out@ =~= old(out)@ + wire(v@));
            }
        },
        Value::NullArray => {
            out.push(42);
            out.push(45);
            out.push(49);
            out.push(13);
            out.push(10);
            proof {
                assert(out@ =~= old(out)@ + wire(v@));
            }
        },
    }
}

/// Serializes values into a buffer.  Each written value appends exactly its
/// wire form; the connection's writer task drains the buffer onto the socket
/// and flushes after each top-level value.
pub struct ValueWriter {
    out: Vec<u8>,
}

impl ValueWriter {
    /// The bytes written and not yet drained.
    pub closed spec fn buffered(&self) -> Seq<u8> {
        self.out@
    }

    pub fn new() -> (r: ValueWriter)
        ensures
            r.buffered() == Seq::<u8>::empty(),
    {
        ValueWriter { out: Vec::new() }
    }

    /// Writes one value: appends exactly `wire(value@)`.
    pub fn write(&mut self, value: &Value)
        ensures
            final(self).buffered() == old(self).buffered() + wire(value@),
    {
        encode(value, &mut self.out);
    }

    /// Hands the buffered bytes out and leaves the buffer empty.
    pub fn take_bytes(&mut self) -> (r: Vec<u8>)
        ensures
            r@ == old(self).buffered(),
            final(self).buffered() == Seq::<u8>::empty(),
    {
        let mut drained: Vec<u8> = Vec::new();
        core::mem::swap(&mut drained, &mut self.out);
        drained
    }
}

} // verus!

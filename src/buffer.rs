//! The staging buffer that the output is assembled in before it is handed
//! to the caller in one piece: a `SmallVec` that keeps small pictures off the heap.

use smallvec::SmallVec;
use vstd::prelude::*;
use vstd::utf8::{encode_utf8, is_ascii_chars, is_ascii_chars_encode_utf8};

verus! {

/// Byte buffer with room for 2 KiB inline. Verus cannot declare `SmallVec`
/// itself (its parameter is bound by smallvec's `Array` trait), so the
/// buffer is held here and seen only through `staged`.
#[verifier::external_body]
pub struct Stage {
    bytes: SmallVec<[u8; 2048]>,
}

/// The bytes that a staging buffer holds, in order.
pub uninterp spec fn staged(b: Stage) -> Seq<u8>;

/// Relies on `SmallVec::new`: a buffer that holds nothing.
#[verifier::external_body]
pub(crate) fn stage_new() -> (b: Stage)
    ensures
        staged(b) == Seq::<u8>::empty(),
{
    Stage { bytes: SmallVec::new() }
}

/// Relies on `SmallVec::push`: appends one byte. It grows onto the heap when
/// the inline space is full; its capacity-overflow panic needs a length of
/// 2^62 bytes, beyond the address space of any machine.
#[verifier::external_body]
pub(crate) fn stage_push(b: &mut Stage, x: u8)
    ensures
        staged(*final(b)) == staged(*old(b)).push(x),
{
    b.bytes.push(x)
}

/// Relies on `SmallVec::extend_from_slice`: appends the bytes of `s` in order
/// (it inserts them at the end; growth as for `push`).
#[verifier::external_body]
pub(crate) fn stage_extend(b: &mut Stage, s: &[u8])
    ensures
        staged(*final(b)) == staged(*old(b)) + s@,
{
    b.bytes.extend_from_slice(s)
}

/// Relies on `SmallVec::as_slice`: the bytes held, in order.
#[verifier::external_body]
pub(crate) fn stage_bytes(b: &Stage) -> (r: &[u8])
    ensures
        r@ == staged(*b),
{
    b.bytes.as_slice()
}

/// `k` copies of `c`.
pub open spec fn repeat(c: char, k: nat) -> Seq<char> {
    Seq::new(k, |_i: int| c)
}

/// UTF-8 encoding distributes over concatenation.
pub proof fn lemma_encode_concat(a: Seq<char>, b: Seq<char>)
    ensures
        encode_utf8(a + b) == encode_utf8(a) + encode_utf8(b),
    decreases a.len(),
{
    if a.len() == 0 {
        assert(a + b =~= b);
        assert(encode_utf8(a) + encode_utf8(b) =~= encode_utf8(b));
    } else {
        lemma_encode_concat(a.drop_first(), b);
        assert((a + b).drop_first() =~= a.drop_first() + b);
        assert((a + b)[0] == a[0]);
        assert(encode_utf8(a + b) =~= encode_utf8(a) + encode_utf8(b));
    }
}

/// Appends the UTF-8 bytes of `s`.
pub(crate) fn put_str(buf: &mut Stage, s: &str)
    ensures
        staged(*final(buf)) == staged(*old(buf)) + encode_utf8(s@),
{
    stage_extend(buf, s.as_bytes());
}

/// Appends an ASCII character.
pub(crate) fn put_char(buf: &mut Stage, c: char)
    requires
        (c as u32) < 0x80,
    ensures
        staged(*final(buf)) == staged(*old(buf)) + encode_utf8(seq![c]),
{
    stage_push(buf, (c as u32) as u8);
    proof {
        assert(is_ascii_chars(seq![c]));
        is_ascii_chars_encode_utf8(seq![c]);
        assert(encode_utf8(seq![c]) =~= seq![(c as u32) as u8]);
    }
}

/// Appends `k` copies of an ASCII character.
pub(crate) fn put_repeat(buf: &mut Stage, c: char, k: usize)
    requires
        (c as u32) < 0x80,
    ensures
        staged(*final(buf)) == staged(*old(buf)) + encode_utf8(repeat(c, k as nat)),
{
    let ghost start = staged(*buf);
    let mut i: usize = 0;
    assert(encode_utf8(repeat(c, 0)) =~= Seq::<u8>::empty());
    assert(start + Seq::<u8>::empty() =~= start);
    while i < k
        invariant
            i <= k,
            (c as u32) < 0x80,
            staged(*buf) == start + encode_utf8(repeat(c, i as nat)),
        decreases k - i,
    {
        put_char(buf, c);
        proof {
            assert(repeat(c, (i + 1) as nat) =~= repeat(c, i as nat) + seq![c]);
            lemma_encode_concat(repeat(c, i as nat), seq![c]);
            assert(staged(*buf) =~= start + encode_utf8(repeat(c, (i + 1) as nat)));
        }
        i += 1;
    }
}

/// Appends the staged bytes to `out`, in order.
pub(crate) fn hand_over(buf: &Stage, out: &mut Vec<u8>)
    ensures
        final(out)@ == old(out)@ + staged(*buf),
{
    let bytes = stage_bytes(buf);
    let ghost start = out@;
    let mut i: usize = 0;
    while i < bytes.len()
        invariant
            i <= bytes@.len(),
            bytes@ == staged(*buf),
            out@ == start + bytes@.take(i as int),
        decreases bytes@.len() - i,
    {
        out.push(bytes[i]);
        proof {
            assert(bytes@.take(i as int + 1) =~= bytes@.take(i as int).push(bytes@[i as int]));
        }
        i += 1;
    }
    assert(bytes@.take(bytes@.len() as int) =~= bytes@);
}

/// Appending the encoding of one more piece extends the encoded text.
pub proof fn lemma_encode_extend(start: Seq<u8>, acc: Seq<char>, piece: Seq<char>)
    ensures
        start + encode_utf8(acc) + encode_utf8(piece) == start + encode_utf8(acc + piece),
{
    lemma_encode_concat(acc, piece);
    assert(start + encode_utf8(acc) + encode_utf8(piece) =~= start + (encode_utf8(acc)
        + encode_utf8(piece)));
}

} // verus!

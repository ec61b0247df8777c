//! Small helpers on byte buffers.
use vstd::prelude::*;

verus! {

/// Whether every byte of `s` is zero.
pub open spec fn all_zero(s: Seq<u8>) -> bool {
    forall|i: int| 0 <= i < s.len() ==> #[trigger] s[i] == 0
}

/// Wipes a byte buffer: calls `zeroize::Zeroize::zeroize` on the slice,
/// which overwrites every element with zero by writes that the compiler
/// may not remove.  The contract claims that the buffer keeps its length
/// and holds only zeros afterwards.
#[verifier::external_body]
pub(crate) fn wipe(buf: &mut [u8])
    ensures
        final(buf)@.len() == old(buf)@.len(),
        all_zero(final(buf)@),
{
    zeroize::Zeroize::zeroize(buf);
}

/// Appends `src` to `dst`.
pub fn append_bytes(dst: &mut Vec<u8>, src: &[u8])
    ensures
        final(dst)@ == old(dst)@ + src@,
{
    let ghost start = dst@;
    let mut i: usize = 0;
    while i < src.len()
        invariant
            i <= src@.len(),
            dst@ == start + src@.subrange(0, i as int),
        decreases src@.len() - i,
    {
        dst.push(src[i]);
        proof {
            assert(src@.subrange(0, i + 1) =~= src@.subrange(0, i as int).push(src@[i as int]));
            assert(dst@ =~= start + src@.subrange(0, i + 1));
        }
        i += 1;
    }
    proof {
        assert(src@.subrange(0, i as int) =~= src@);
    }
}

/// A copy of `src[from..to]`.
pub fn copy_range(src: &[u8], from: usize, to: usize) -> (out: Vec<u8>)
    requires
        from <= to <= src@.len(),
    ensures
        out@ == src@.subrange(from as int, to as int),
{
    let mut out: Vec<u8> = Vec::new();
    let mut i: usize = from;
    while i < to
        invariant
            from <= i <= to,
            to <= src@.len(),
            out@ == src@.subrange(from as int, i as int),
        decreases to - i,
    {
        out.push(src[i]);
        proof {
            assert(out@ =~= src@.subrange(from as int, i + 1));
        }
        i += 1;
    }
    out
}

/// The `L` bytes of `src` as an array.
pub fn to_array<const L: usize>(src: &[u8]) -> (out: [u8; L])
    requires
        src@.len() == L,
    ensures
        out@ == src@,
{
    let mut out = [0u8;L];
    let mut i: usize = 0;
    while i < L
        invariant
            i <= L,
            src@.len() == L,
            forall|t: int| 0 <= t < i ==> out@[t] == src@[t],
        decreases L - i,
    {
        out[i] = src[i];
        i += 1;
    }
    proof {
        assert(out@ =~= src@);
    }
    out
}

/// The bitwise OR of the differences of two byte strings of the same
/// length: zero where they are equal and not zero where they are not.  The
/// loop is never left early, so that the running time depends on the
/// length only.
pub fn ct_diff(a: &[u8], b: &[u8]) -> (diff: u8)
    requires
        a@.len() == b@.len(),
    ensures
        (diff == 0) == (a@ == b@),
{
    let mut diff: u8 = 0;
    let mut i: usize = 0;
    proof {
        assert(a@.subrange(0, 0) =~= b@.subrange(0, 0));
    }
    while i < a.len()
        invariant
            i <= a@.len(),
            a@.len() == b@.len(),
            (diff == 0) == (a@.subrange(0, i as int) == b@.subrange(0, i as int)),
        decreases a@.len() - i,
    {
        let x = a[i];
        let y = b[i];
        let ghost old_diff = diff;
        diff = diff | (x ^ y);
        proof {
            assert((old_diff | (x ^ y)) == 0 <==> (old_diff == 0 && x == y)) by (bit_vector);
            let pa = a@.subrange(0, i as int);
            let pb = b@.subrange(0, i as int);
            let qa = a@.subrange(0, i + 1);
            let qb = b@.subrange(0, i + 1);
            assert(qa =~= pa.push(x));
            assert(qb =~= pb.push(y));
            if qa == qb {
                assert(pa =~= qa.subrange(0, i as int));
                assert(pb =~= qb.subrange(0, i as int));
                assert(qa[i as int] == qb[i as int]);
            }
        }
        i += 1;
    }
    proof {
        assert(a@.subrange(0, i as int) =~= a@);
        assert(b@.subrange(0, i as int) =~= b@);
    }
    diff
}

/// Whether two byte strings are equal.  Strings of the same length are
/// compared in a time that depends on the length only.
pub fn ct_eq(a: &[u8], b: &[u8]) -> (r: bool)
    ensures
        r == (a@ == b@),
{
    if a.len() != b.len() {
        return false;
    }
    ct_diff(a, b) == 0
}

/// The mask `0xff` for zero and `0x00` for every other byte, computed
/// without a branch.
pub fn zero_mask(d: u8) -> (mask: u8)
    ensures
        d == 0 ==> mask == 0xff,
        d != 0 ==> mask == 0x00,
{
    let wide: u16 = d as u16 + 0xff;
    let not_zero: u16 = wide >> 8;
    assert(d == 0 ==> not_zero == 0) by (bit_vector)
        requires
            wide == d as u16 + 0xff,
            not_zero == wide >> 8,
    ;
    assert(d != 0 ==> not_zero == 1) by (bit_vector)
        requires
            wide == d as u16 + 0xff,
            not_zero == wide >> 8,
    ;
    0xff - (not_zero as u8) * 0xff
}

/// Selects one of two byte strings of the same length by a mask, byte by
/// byte and without a branch: `a` for the mask `0xff`, `b` for the mask
/// `0x00`.
pub fn ct_select(a: &[u8], b: &[u8], mask: u8) -> (out: Vec<u8>)
    requires
        a@.len() == b@.len(),
        mask == 0xff || mask == 0x00,
    ensures
        mask == 0xff ==> out@ == a@,
        mask == 0x00 ==> out@ == b@,
{
    let mut out: Vec<u8> = Vec::new();
    let mut i: usize = 0;
    while i < a.len()
        invariant
            i <= a@.len(),
            a@.len() == b@.len(),
            mask == 0xff || mask == 0x00,
            out@.len() == i,
            mask == 0xff ==> out@ == a@.subrange(0, i as int),
            mask == 0x00 ==> out@ == b@.subrange(0, i as int),
        decreases a@.len() - i,
    {
        let x = a[i];
        let y = b[i];
        let v = (x & mask) | (y & !mask);
        assert(mask == 0xff ==> v == x) by (bit_vector)
            requires
                v == (x & mask) | (y & !mask),
        ;
        assert(mask == 0x00 ==> v == y) by (bit_vector)
            requires
                v == (x & mask) | (y & !mask),
        ;
        out.push(v);
        proof {
            assert(a@.subrange(0, i + 1) =~= a@.subrange(0, i as int).push(x));
            assert(b@.subrange(0, i + 1) =~= b@.subrange(0, i as int).push(y));
        }
        i += 1;
    }
    proof {
        assert(a@.subrange(0, i as int) =~= a@);
        assert(b@.subrange(0, i as int) =~= b@);
    }
    out
}

} // verus!

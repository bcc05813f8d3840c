//! Byte framing: fixed-width little-endian integers and length-prefixed
//! text, so that distinct field values give distinct byte strings.

use vstd::prelude::*;

verus! {

/// The `k` little-endian bytes of `x`.
pub open spec fn le_bytes(x: nat, k: nat) -> Seq<u8>
    decreases k,
{
    if k == 0 {
        seq![]
    } else {
        seq![(x % 256) as u8] + le_bytes(x / 256, (k - 1) as nat)
    }
}

/// Each character as four little-endian bytes of its scalar value.
pub open spec fn chars_bytes(s: Seq<char>) -> Seq<u8>
    decreases s.len(),
{
    if s.len() == 0 {
        seq![]
    } else {
        le_bytes((s[0] as u32) as nat, 4) + chars_bytes(s.drop_first())
    }
}

/// A length-prefixed string.
pub open spec fn str_frame(s: Seq<char>) -> Seq<u8> {
    le_bytes(s.len(), 8) + chars_bytes(s)
}

pub(crate) fn push_le(out: &mut Vec<u8>, x: u128, k: usize)
    ensures
        final(out)@ == old(out)@ + le_bytes(x as nat, k as nat),
{
    let ghost start = out@;
    let mut v = x;
    let mut i: usize = 0;
    while i < k
        invariant
            i <= k,
            start + le_bytes(x as nat, k as nat) == out@ + le_bytes(v as nat, (k - i) as nat),
        decreases k - i,
    {
        let ghost before = out@;
        out.push((v % 256) as u8);
        assert(before + le_bytes(v as nat, (k - i) as nat) =~= out@ + le_bytes((v / 256) as nat, (k - i - 1) as nat));
        v = v / 256;
        i = i + 1;
    }
    assert(out@ + le_bytes(v as nat, 0) =~= out@);
}

pub(crate) proof fn lemma_skip_step<A>(s: Seq<A>, i: int)
    requires
        0 <= i < s.len(),
    ensures
        s.skip(i).drop_first() == s.skip(i + 1),
        s.skip(i)[0] == s[i],
        s.skip(i).len() > 0,
{
    assert(s.skip(i).drop_first() =~= s.skip(i + 1));
}

pub(crate) fn push_str(out: &mut Vec<u8>, s: &str)
    ensures
        final(out)@ == old(out)@ + str_frame(s@),
{
    let ghost start = out@;
    let n = s.unicode_len();
    push_le(out, n as u128, 8);
    let mut i: usize = 0;
    assert(s@.skip(0) =~= s@);
    while i < n
        invariant
            n == s@.len(),
            i <= n,
            start + str_frame(s@) == out@ + chars_bytes(s@.skip(i as int)),
        decreases n - i,
    {
        proof {
            lemma_skip_step(s@, i as int);
        }
        let c = s.get_char(i);
        let ghost before = out@;
        push_le(out, c as u32 as u128, 4);
        assert(before + chars_bytes(s@.skip(i as int)) =~= out@ + chars_bytes(s@.skip(i as int + 1)));
        i = i + 1;
    }
    assert(s@.skip(n as int).len() == 0);
    assert(out@ + chars_bytes(s@.skip(n as int)) =~= out@);
}

} // verus!

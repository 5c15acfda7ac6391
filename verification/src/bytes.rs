//! Little-endian byte layout of the numbers on the wire.

use vstd::prelude::*;

verus! {

/// The smaller of two numbers.
pub open spec fn least(a: nat, b: nat) -> nat {
    if a < b {
        a
    } else {
        b
    }
}

/// The two bytes of `x`, low byte first.
pub open spec fn u16_le(x: u16) -> Seq<u8> {
    seq![(x % 256) as u8, (x / 256) as u8]
}

/// The number whose bytes are `lo` and `hi`.
pub open spec fn u16_of_le(lo: u8, hi: u8) -> u16 {
    (lo + 256 * hi) as u16
}

/// The four bytes of `x`, low byte first.
pub open spec fn u32_le(x: u32) -> Seq<u8> {
    seq![
        (x % 256) as u8,
        (x / 0x100 % 256) as u8,
        (x / 0x1_0000 % 256) as u8,
        (x / 0x100_0000) as u8,
    ]
}

/// The number whose bytes are `b0` to `b3`.
pub open spec fn u32_of_le(b0: u8, b1: u8, b2: u8, b3: u8) -> u32 {
    (b0 + 0x100 * b1 + 0x1_0000 * b2 + 0x100_0000 * b3) as u32
}

/// The words of `s`, four bytes each, one behind the other.
pub open spec fn words_le(s: Seq<u32>) -> Seq<u8> {
    Seq::new(4 * s.len(), |i: int| u32_le(s[i / 4])[i % 4])
}

/// The words that the bytes `b` hold, four bytes each.
pub open spec fn words_of_le(b: Seq<u8>) -> Seq<u32> {
    Seq::new(
        b.len() / 4,
        |k: int| u32_of_le(b[4 * k], b[4 * k + 1], b[4 * k + 2], b[4 * k + 3]),
    )
}

/// Reading the bytes of a word gives the word back.
pub proof fn lemma_u32_round_trip(x: u32)
    ensures
        u32_of_le(u32_le(x)[0], u32_le(x)[1], u32_le(x)[2], u32_le(x)[3]) == x,
{
}

/// Writing the word that four bytes hold gives the bytes back.
pub proof fn lemma_u32_bytes_round_trip(b0: u8, b1: u8, b2: u8, b3: u8)
    ensures
        u32_le(u32_of_le(b0, b1, b2, b3)) == seq![b0, b1, b2, b3],
{
    let x = u32_of_le(b0, b1, b2, b3);
    assert(x == b0 + 0x100 * (b1 + 0x100 * (b2 + 0x100 * b3)));
    assert(x % 256 == b0);
    assert(x / 0x100 == b1 + 0x100 * (b2 + 0x100 * b3));
    assert(x / 0x100 % 256 == b1);
    assert(x / 0x1_0000 == b2 + 0x100 * b3);
    assert(x / 0x1_0000 % 256 == b2);
    assert(x / 0x100_0000 == b3);
    assert(u32_le(x) =~= seq![b0, b1, b2, b3]);
}

/// Reading the bytes of a length gives the length back.
pub proof fn lemma_u16_round_trip(x: u16)
    ensures
        u16_of_le(u16_le(x)[0], u16_le(x)[1]) == x,
{
}

/// Reading the bytes of a run of words gives the words back.
pub proof fn lemma_words_round_trip(s: Seq<u32>)
    ensures
        words_of_le(words_le(s)) == s,
{
    let b = words_le(s);
    assert forall|k: int| 0 <= k < s.len() implies words_of_le(b)[k] == s[k] by {
        lemma_u32_round_trip(s[k]);
    }
    assert(words_of_le(b) =~= s);
}

/// Writing the words that a run of bytes holds gives the bytes back.
pub proof fn lemma_words_bytes_round_trip(b: Seq<u8>)
    requires
        b.len() % 4 == 0,
    ensures
        words_le(words_of_le(b)) == b,
{
    let s = words_of_le(b);
    assert forall|i: int| 0 <= i < b.len() implies words_le(s)[i] == b[i] by {
        let k = i / 4;
        lemma_u32_bytes_round_trip(b[4 * k], b[4 * k + 1], b[4 * k + 2], b[4 * k + 3]);
    }
    assert(words_le(s) =~= b);
}

/// Appends the two bytes of `x`.
pub fn push_u16_le(out: &mut Vec<u8>, x: u16)
    ensures
        final(out)@ == old(out)@ + u16_le(x),
{
    out.push((x % 256) as u8);
    out.push((x / 256) as u8);
    assert(final(out)@ =~= old(out)@ + u16_le(x));
}

/// The length that two bytes of the wire hold.
pub fn read_u16_le(lo: u8, hi: u8) -> (r: u16)
    ensures
        r == u16_of_le(lo, hi),
{
    lo as u16 + 256 * (hi as u16)
}

/// Appends the bytes of every word of `words`.
pub fn push_words_le(out: &mut Vec<u8>, words: &Vec<u32>)
    ensures
        final(out)@ == old(out)@ + words_le(words@),
{
    let ghost before = out@;
    let mut i: usize = 0;
    assert(out@ =~= before + words_le(words@.take(0)));
    while i < words.len()
        invariant
            i <= words.len(),
            out@ == before + words_le(words@.take(i as int)),
        decreases words.len() - i,
    {
        let x = words[i];
        let ghost so_far = out@;
        out.push((x % 256) as u8);
        out.push((x / 0x100 % 256) as u8);
        out.push((x / 0x1_0000 % 256) as u8);
        out.push((x / 0x100_0000) as u8);
        proof {
            let done = words@.take(i as int);
            let next = words@.take(i + 1);
            assert(words_le(next) =~= words_le(done) + u32_le(x)) by {
                assert forall|j: int| 0 <= j < 4 * next.len() implies words_le(next)[j] == (
                words_le(done) + u32_le(x))[j] by {
                    if j < 4 * done.len() {
                        assert(next[j / 4] == done[j / 4]);
                    } else {
                        assert(j / 4 == i);
                    }
                }
            }
            assert(out@ =~= so_far + u32_le(x));
            assert(out@ =~= before + words_le(next));
        }
        i += 1;
    }
    assert(words@.take(words.len() as int) =~= words@);
}

/// The word that four bytes of the wire hold.
pub fn read_u32_le(b0: u8, b1: u8, b2: u8, b3: u8) -> (r: u32)
    ensures
        r == u32_of_le(b0, b1, b2, b3),
{
    b0 as u32 + 0x100 * (b1 as u32) + 0x1_0000 * (b2 as u32) + 0x100_0000 * (b3 as u32)
}

/// Of two numbers the smaller is one of them and no more than either.
pub proof fn lemma_least_is_the_smaller(a: nat, b: nat)
    ensures
        least(a, b) <= a,
        least(a, b) <= b,
        least(a, b) == a || least(a, b) == b,
{
}

/// The low byte comes first: each byte counts 256 times the one before it.
pub proof fn lemma_low_byte_first(x: u16, y: u32)
    ensures
        u16_le(x).len() == 2,
        u16_le(x)[0] + 256 * u16_le(x)[1] == x,
        u32_le(y).len() == 4,
        u32_le(y)[0] + 256 * (u32_le(y)[1] + 256 * (u32_le(y)[2] + 256 * u32_le(y)[3])) == y,
{
}

/// Words lie behind each other in four bytes each, low byte first.
pub proof fn lemma_words_lie_in_order(s: Seq<u32>, k: int)
    requires
        0 <= k < s.len(),
    ensures
        words_le(s).len() == 4 * s.len(),
        words_le(s)[4 * k] + 256 * (words_le(s)[4 * k + 1] + 256 * (words_le(s)[4 * k + 2] + 256
            * words_le(s)[4 * k + 3])) == s[k],
{
    let b = words_le(s);
    let w = u32_le(s[k]);
    assert((4 * k) / 4 == k && (4 * k) % 4 == 0);
    assert((4 * k + 1) / 4 == k && (4 * k + 1) % 4 == 1);
    assert((4 * k + 2) / 4 == k && (4 * k + 2) % 4 == 2);
    assert((4 * k + 3) / 4 == k && (4 * k + 3) % 4 == 3);
    assert(b[4 * k] == w[0] && b[4 * k + 1] == w[1] && b[4 * k + 2] == w[2] && b[4 * k + 3] == w[3]);
    lemma_low_byte_first(0, s[k]);
}

} // verus!

//! Numbers as ASCII in fixed buffers.

use vstd::prelude::*;

use crate::bytes;

verus! {

/// `n` in base ten as ASCII bytes, without leading zeros.
pub open spec fn decimal_bytes(n: nat) -> Seq<u8>
    decreases n,
{
    if n < 10 {
        seq![(48 + n) as u8]
    } else {
        decimal_bytes(n / 10).push((48 + n % 10) as u8)
    }
}

/// `dst` after the number `n` has been written at its start. A buffer that is too short for all
/// digits receives the last ones.
pub open spec fn with_decimal(dst: Seq<u8>, n: nat) -> Seq<u8> {
    let text = decimal_bytes(n);
    let k = bytes::least(text.len(), dst.len());
    text.skip(text.len() - k) + dst.skip(k as int)
}

/// The bytes that writing the number `n` into a buffer of `room` bytes takes up.
pub open spec fn decimal_report(n: nat, room: nat) -> nat {
    bytes::least(decimal_bytes(n).len(), room)
}

proof fn lemma_decimal_nonempty(n: nat)
    ensures
        decimal_bytes(n).len() >= 1,
        n >= 10 ==> decimal_bytes(n).drop_last() == decimal_bytes(n / 10),
        decimal_bytes(n).last() == 48 + n % 10,
    decreases n,
{
    if n >= 10 {
        lemma_decimal_nonempty(n / 10);
        assert(decimal_bytes(n).drop_last() =~= decimal_bytes(n / 10));
    }
}

/// A power of ten.
spec fn ten_to(k: nat) -> nat
    decreases k,
{
    if k == 0 {
        1
    } else {
        10 * ten_to((k - 1) as nat)
    }
}

/// A number below a power of ten has no more digits than the power has zeros.
proof fn lemma_digit_count(n: nat, k: nat)
    requires
        n < ten_to(k),
        k >= 1,
    ensures
        decimal_bytes(n).len() <= k,
    decreases k,
{
    if n >= 10 {
        if k == 1 {
            reveal_with_fuel(ten_to, 2);
        } else {
            lemma_digit_count(n / 10, (k - 1) as nat);
        }
    }
}

/// Writes `n` at the start of `dst`.
fn write_decimal(n: u64, dst: &mut [u8]) -> (r: usize)
    ensures
        r == decimal_report(n as nat, old(dst)@.len()),
        final(dst)@ == with_decimal(old(dst)@, n as nat),
{
    let ghost before = dst@;
    let ghost text = decimal_bytes(n as nat);
    if n == 0 {
        if dst.len() == 0 {
            assert(dst@ =~= with_decimal(before, 0));
            return 0;
        }
        dst[0] = 48u8;
        assert(dst@ =~= with_decimal(before, 0));
        return 1;
    }
    proof {
        reveal_with_fuel(ten_to, 21);
        lemma_digit_count(n as nat, 20);
    }
    let mut count: usize = 0;
    let mut tmp: u64 = n;
    while tmp > 0
        invariant
            count + (if tmp > 0 {
                decimal_bytes(tmp as nat).len()
            } else {
                0
            }) == text.len(),
            text.len() <= 20,
        decreases tmp,
    {
        proof {
            lemma_decimal_nonempty(tmp as nat);
        }
        count += 1;
        tmp = tmp / 10;
    }
    let digits: usize = if count < dst.len() {
        count
    } else {
        dst.len()
    };
    let mut left: u64 = n;
    let mut i: usize = digits;
    while i > 0
        invariant
            i <= digits <= text.len(),
            digits <= before.len(),
            dst@.len() == before.len(),
            text.len() - (digits - i) > 0 ==> decimal_bytes(left as nat) == text.take(
                text.len() - (digits - i),
            ),
            forall|k: int| i <= k < digits ==> dst@[k] == text[text.len() - digits + k],
            forall|k: int| digits <= k < before.len() ==> dst@[k] == before[k],
        decreases i,
    {
        proof {
            lemma_decimal_nonempty(left as nat);
        }
        let ghost keep = text.len() - (digits - i);
        dst[i - 1] = 48u8 + (left % 10) as u8;
        i -= 1;
        proof {
            assert(decimal_bytes(left as nat).last() == text[keep - 1]);
            if keep > 1 {
                assert(decimal_bytes(left as nat).len() == keep);
                assert(left >= 10);
                assert(text.take(keep).drop_last() =~= text.take(keep - 1));
            }
        }
        left = left / 10;
    }
    assert(dst@ =~= with_decimal(before, n as nat));
    digits
}

/// Writes `n` at the start of `dst`. Returns the number of bytes written.
pub fn fmt_u32(n: u32, dst: &mut [u8]) -> (r: usize)
    ensures
        r == decimal_report(n as nat, old(dst)@.len()),
        final(dst)@ == with_decimal(old(dst)@, n as nat),
{
    write_decimal(n as u64, dst)
}

/// Writes `n` at the start of `dst`. Returns the number of bytes written.
pub fn fmt_usize(n: usize, dst: &mut [u8]) -> (r: usize)
    ensures
        r == decimal_report(n as nat, old(dst)@.len()),
        final(dst)@ == with_decimal(old(dst)@, n as nat),
{
    write_decimal(n as u64, dst)
}

/// Writes `n` at the start of `dst`. Returns the number of bytes written.
pub fn fmt_u64(n: u64, dst: &mut [u8]) -> (r: usize)
    ensures
        r == decimal_report(n as nat, old(dst)@.len()),
        final(dst)@ == with_decimal(old(dst)@, n as nat),
{
    write_decimal(n, dst)
}

/// `before` with as much of `text` at its start as there is room for.
pub open spec fn with_text(before: Seq<u8>, text: Seq<u8>) -> Seq<u8> {
    let k = bytes::least(text.len(), before.len()) as int;
    text.take(k) + before.skip(k)
}

/// Copies as much of `s` to `buf[off..]` as there is room for. Returns the offset behind it.
pub fn put(buf: &mut [u8], off: usize, s: &[u8]) -> (r: usize)
    requires
        off <= old(buf)@.len(),
    ensures
        ({
            let k = bytes::least(s@.len(), (old(buf)@.len() - off) as nat);
            &&& r == off + k
            &&& final(buf)@ == old(buf)@.take(off as int) + s@.take(k as int) + old(buf)@.skip(
                off + k,
            )
        }),
{
    let ghost before = buf@;
    let room: usize = buf.len() - off;
    let n: usize = if s.len() < room {
        s.len()
    } else {
        room
    };
    let mut i: usize = 0;
    assert(buf@ =~= before.take(off as int) + s@.take(0) + before.skip(off as int));
    while i < n
        invariant
            i <= n <= s@.len(),
            off + n <= before.len() == buf.len(),
            buf@ == before.take(off as int) + s@.take(i as int) + before.skip(off + i),
        decreases n - i,
    {
        buf[off + i] = s[i];
        assert(buf@ =~= before.take(off as int) + s@.take(i + 1) + before.skip(off + i + 1));
        i += 1;
    }
    off + n
}

/// Putting one text behind another is putting both.
pub proof fn lemma_put_extends(before: Seq<u8>, text: Seq<u8>, s: Seq<u8>)
    ensures
        ({
            let now = with_text(before, text);
            let off = bytes::least(text.len(), before.len());
            let k = bytes::least(s.len(), (before.len() - off) as nat);
            &&& now.len() == before.len()
            &&& off + k == bytes::least((text + s).len(), before.len())
            &&& now.take(off as int) + s.take(k as int) + now.skip((off + k) as int) == with_text(
                before,
                text + s,
            )
        }),
{
    let now = with_text(before, text);
    let off = bytes::least(text.len(), before.len());
    let k = bytes::least(s.len(), (before.len() - off) as nat);
    assert(now.take(off as int) + s.take(k as int) + now.skip((off + k) as int) =~= with_text(
        before,
        text + s,
    ));
}

/// A float as its decimal text needs it: the rounded magnitude split at the point, with six
/// decimals behind it.
#[derive(Debug, Clone, Copy, PartialEq, Eq, Structural)]
pub enum F64Parts {
    Nan,
    Infinite,
    Finite { negative: bool, int_part: u64, frac_part: u64 },
}

/// Six decimals: zeros before a short number, the first digits of a long one.
pub open spec fn six_decimals(frac: nat) -> Seq<u8> {
    let d = decimal_bytes(frac);
    if d.len() < 6 {
        Seq::new((6 - d.len()) as nat, |i: int| 48u8) + d
    } else {
        d.take(6)
    }
}

/// The text of a float with six decimals.
pub open spec fn fixed_text(parts: F64Parts) -> Seq<u8> {
    match parts {
        F64Parts::Nan => seq![110u8, 97u8, 110u8],
        F64Parts::Infinite => seq![105u8, 110u8, 102u8],
        F64Parts::Finite { negative, int_part, frac_part } => (if negative {
            seq![45u8]
        } else {
            Seq::<u8>::empty()
        }) + decimal_bytes(int_part as nat) + seq![46u8] + six_decimals(frac_part as nat),
    }
}

/// The digits of `n`.
fn digits_of(n: u64) -> (r: Vec<u8>)
    ensures
        r@ == decimal_bytes(n as nat),
{
    let mut buf: Vec<u8> = vec![0u8; 32];
    let ghost before = buf@;
    let len = fmt_u64(n, buf.as_mut_slice());
    proof {
        lemma_decimal_fits(n as nat);
    }
    assert(buf@ == with_decimal(before, n as nat));
    buf.truncate(len);
    assert(buf@ =~= decimal_bytes(n as nat));
    buf
}

/// Writes the text of a float at the start of `dst`, as far as there is room for it, and
/// reports the number of bytes.
pub fn fmt_f64(parts: F64Parts, dst: &mut [u8]) -> (r: usize)
    ensures
        r == bytes::least(fixed_text(parts).len(), old(dst)@.len()),
        final(dst)@ == with_text(old(dst)@, fixed_text(parts)),
{
    let ghost before = dst@;
    let ghost mut text = Seq::<u8>::empty();
    assert(dst@ =~= with_text(before, text));
    match parts {
        F64Parts::Nan => {
            let s: [u8; 3] = [110u8, 97u8, 110u8];
            proof {
                lemma_put_extends(before, text, s@);
            }
            assert(text + s@ =~= fixed_text(parts));
            put(dst, 0, &s)
        },
        F64Parts::Infinite => {
            let s: [u8; 3] = [105u8, 110u8, 102u8];
            proof {
                lemma_put_extends(before, text, s@);
            }
            assert(text + s@ =~= fixed_text(parts));
            put(dst, 0, &s)
        },
        F64Parts::Finite { negative, int_part, frac_part } => {
            let mut off: usize = 0;
            if negative {
                let s: [u8; 1] = [45u8];
                proof {
                    lemma_put_extends(before, text, s@);
                    text = text + s@;
                }
                off = put(dst, off, &s);
            }
            let int_digits = digits_of(int_part);
            proof {
                lemma_put_extends(before, text, int_digits@);
                text = text + int_digits@;
            }
            off = put(dst, off, int_digits.as_slice());
            let s: [u8; 1] = [46u8];
            proof {
                lemma_put_extends(before, text, s@);
                text = text + s@;
            }
            off = put(dst, off, &s);
            let mut decimals: Vec<u8> = Vec::new();
            let frac_digits = digits_of(frac_part);
            let mut pad: usize = frac_digits.len();
            while pad < 6
                invariant
                    pad >= frac_digits@.len(),
                    frac_digits@.len() < 6 ==> pad <= 6,
                    frac_digits@.len() >= 6 ==> pad == frac_digits@.len(),
                    decimals@ =~= Seq::new((pad - frac_digits@.len()) as nat, |i: int| 48u8),
                decreases 6 - pad,
            {
                decimals.push(48u8);
                pad += 1;
            }
            let ghost zeros = decimals@;
            decimals.extend_from_slice(frac_digits.as_slice());
            assert(decimals@ =~= zeros + frac_digits@);
            decimals.truncate(6);
            assert(decimals@ =~= six_decimals(frac_part as nat)) by {
                if frac_digits@.len() >= 6 {
                    assert(zeros =~= Seq::<u8>::empty());
                    assert((zeros + frac_digits@) =~= frac_digits@);
                } else {
                    assert(zeros.len() + frac_digits@.len() == 6);
                }
            }
            proof {
                lemma_put_extends(before, text, decimals@);
                text = text + decimals@;
            }
            off = put(dst, off, decimals.as_slice());
            assert(text =~= fixed_text(parts));
            off
        },
    }
}

/// A number of 64 bits has at least one and at most twenty digits.
pub proof fn lemma_decimal_fits(n: nat)
    requires
        n <= u64::MAX,
    ensures
        1 <= decimal_bytes(n).len() <= 20,
{
    reveal_with_fuel(ten_to, 21);
    lemma_digit_count(n, 20);
    lemma_decimal_nonempty(n);
}

/// The text of a float has at most 28 bytes.
pub proof fn lemma_fixed_text_fits(parts: F64Parts)
    ensures
        fixed_text(parts).len() <= 28,
{
    match parts {
        F64Parts::Finite { negative, int_part, frac_part } => {
            lemma_decimal_fits(int_part as nat);
            lemma_decimal_fits(frac_part as nat);
        },
        _ => {},
    }
}

/// The bytes still to be written after a write of `left` bytes returned `n`. A write that fails
/// or takes nothing is given up.
pub fn write_raw(left: usize, n: isize) -> (r: usize)
    requires
        n <= left,
    ensures
        r == (if n <= 0 {
            0
        } else {
            left - n
        }),
{
    if n <= 0 {
        0
    } else {
        left - n as usize
    }
}

/// The number that ASCII digits of base ten stand for.
pub open spec fn value_of(s: Seq<u8>) -> nat
    decreases s.len(),
{
    if s.len() == 0 {
        0
    } else {
        value_of(s.drop_last()) * 10 + (s.last() - 48) as nat
    }
}

/// A number is written in the digits 0 to 9, they stand for it, and no zero is in front unless
/// the number is zero.
pub proof fn lemma_digits_are_the_number(n: nat)
    ensures
        decimal_bytes(n).len() > 0,
        forall|i: int| 0 <= i < decimal_bytes(n).len() ==> 48 <= #[trigger] decimal_bytes(n)[i] <= 57,
        value_of(decimal_bytes(n)) == n,
        decimal_bytes(n)[0] == 48 <==> n == 0,
    decreases n,
{
    let s = decimal_bytes(n);
    if n < 10 {
        reveal_with_fuel(value_of, 2);
        assert(s.drop_last() =~= Seq::<u8>::empty());
    } else {
        lemma_digits_are_the_number(n / 10);
        let before = decimal_bytes(n / 10);
        assert(s.drop_last() =~= before);
        assert(s[0] == before[0]);
        assert forall|i: int| 0 <= i < s.len() implies 48 <= #[trigger] s[i] <= 57 by {
            if i < before.len() {
                assert(s[i] == before[i]);
            }
        }
    }
}

/// A number that fits is written whole at the start of a buffer; of one that does not, the last
/// digits fill it. The report is the number of bytes written, and the others stay.
pub proof fn lemma_number_is_put_in_front(dst: Seq<u8>, n: nat, k: int)
    requires
        0 <= k < dst.len(),
    ensures
        ({
            let text = decimal_bytes(n);
            let r = decimal_report(n, dst.len());
            let after = with_decimal(dst, n);
            &&& after.len() == dst.len()
            &&& r <= dst.len()
            &&& text.len() <= dst.len() ==> r == text.len() && after.take(r as int) == text
            &&& text.len() > dst.len() ==> r == dst.len() && after == text.skip(
                text.len() - dst.len(),
            )
            &&& k >= r ==> after[k] == dst[k]
        }),
{
    let text = decimal_bytes(n);
    let after = with_decimal(dst, n);
    if text.len() <= dst.len() {
        assert(after.take(text.len() as int) =~= text);
    } else {
        assert(after =~= text.skip(text.len() - dst.len()));
    }
}

/// A text that fits is put whole at the start of a buffer; of one that does not, the first bytes
/// fill it. The other bytes stay.
pub proof fn lemma_text_is_put_in_front(before: Seq<u8>, text: Seq<u8>, k: int)
    requires
        0 <= k < before.len(),
    ensures
        with_text(before, text).len() == before.len(),
        with_text(before, text)[k] == (if k < text.len() {
            text[k]
        } else {
            before[k]
        }),
{
}

proof fn lemma_zeros_in_front(zeros: nat, s: Seq<u8>)
    ensures
        value_of(Seq::new(zeros, |i: int| 48u8) + s) == value_of(s),
    decreases s.len(), zeros,
{
    let z = Seq::new(zeros, |i: int| 48u8);
    let t = z + s;
    if s.len() > 0 {
        lemma_zeros_in_front(zeros, s.drop_last());
        assert(t.drop_last() =~= z + s.drop_last());
    } else if zeros > 0 {
        let fewer = Seq::new((zeros - 1) as nat, |i: int| 48u8);
        lemma_zeros_in_front((zeros - 1) as nat, s);
        assert(t.drop_last() =~= fewer + s);
    } else {
        assert(t =~= s);
    }
}

/// Millionths are written in exactly six digits, which stand for them.
pub proof fn lemma_six_decimals_are_the_millionths(frac: nat)
    ensures
        six_decimals(frac).len() == 6,
        forall|i: int| 0 <= i < 6 ==> 48 <= #[trigger] six_decimals(frac)[i] <= 57,
        frac < 1_000_000 ==> value_of(six_decimals(frac)) == frac,
{
    let d = decimal_bytes(frac);
    lemma_digits_are_the_number(frac);
    if d.len() < 6 {
        lemma_zeros_in_front((6 - d.len()) as nat, d);
    }
    if frac < 1_000_000 {
        assert(ten_to(6) == 1_000_000) by {
            reveal_with_fuel(ten_to, 7);
        }
        lemma_digit_count(frac, 6);
        if d.len() == 6 {
            assert(d.take(6) =~= d);
        }
    }
}

/// The text of a float: a minus sign if and only if it is negative, the digits of its whole part,
/// a point, and six decimals. What is no number reads `nan`, what is too large `inf`.
pub proof fn lemma_float_text_is_the_float(negative: bool, int_part: u64, frac_part: u64)
    ensures
        fixed_text(F64Parts::Nan) == seq![110u8, 97u8, 110u8],
        fixed_text(F64Parts::Infinite) == seq![105u8, 110u8, 102u8],
        ({
            let t = fixed_text(F64Parts::Finite { negative, int_part, frac_part });
            let sign = if negative {
                1int
            } else {
                0
            };
            let point = t.len() - 7;
            &&& point > sign
            &&& t[0] == 45 <==> negative
            &&& t[point] == 46
            &&& value_of(t.subrange(sign, point)) == int_part
            &&& forall|i: int| sign <= i < point ==> 48 <= #[trigger] t[i] <= 57
            &&& t[sign] == 48 ==> point == sign + 1
            &&& frac_part < 1_000_000 ==> value_of(t.skip(point + 1)) == frac_part
            &&& forall|i: int| point < i < t.len() ==> 48 <= #[trigger] t[i] <= 57
        }),
{
    let t = fixed_text(F64Parts::Finite { negative, int_part, frac_part });
    let d = decimal_bytes(int_part as nat);
    let f = six_decimals(frac_part as nat);
    lemma_digits_are_the_number(int_part as nat);
    lemma_six_decimals_are_the_millionths(frac_part as nat);
    let sign = if negative {
        1int
    } else {
        0
    };
    let point = t.len() - 7;
    assert(point == sign + d.len());
    assert(t.subrange(sign, point) =~= d);
    assert(t.skip(point + 1) =~= f);
    assert forall|i: int| sign <= i < point implies 48 <= #[trigger] t[i] <= 57 by {
        assert(t[i] == d[i - sign]);
    }
    assert forall|i: int| point < i < t.len() implies 48 <= #[trigger] t[i] <= 57 by {
        assert(t[i] == f[i - point - 1]);
    }
    assert(t[sign] == d[0]);
    if int_part == 0 {
        assert(d.len() == 1);
    }
}

} // verus!

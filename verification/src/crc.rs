//! CRC-8/MAXIM: reflected polynomial `0x8C`, initial value zero, no final inversion.

use vstd::prelude::*;

verus! {

/// One shift of the checksum register.
pub open spec fn crc8_bit(c: u8) -> u8 {
    if c & 1u8 != 0 {
        (c >> 1u8) ^ 0x8Cu8
    } else {
        c >> 1u8
    }
}

/// Eight shifts of the checksum register: the effect of one whole byte.
pub open spec fn crc8_byte(c: u8) -> u8 {
    crc8_bit(crc8_bit(crc8_bit(crc8_bit(crc8_bit(crc8_bit(crc8_bit(crc8_bit(c))))))))
}

/// `k` shifts of the checksum register.
pub open spec fn crc8_shifts(c: u8, k: nat) -> u8
    decreases k,
{
    if k == 0 {
        c
    } else {
        crc8_bit(crc8_shifts(c, (k - 1) as nat))
    }
}

/// The register after `data`, started from `init`.
pub open spec fn crc8_from(init: u8, data: Seq<u8>) -> u8
    decreases data.len(),
{
    if data.len() == 0 {
        init
    } else {
        crc8_byte(crc8_from(init, data.drop_last()) ^ data.last())
    }
}

/// The checksum of `data`.
pub open spec fn crc8_of(data: Seq<u8>) -> u8 {
    crc8_from(0, data)
}

/// Checking a run of bytes in two parts is checking it whole.
pub proof fn lemma_crc8_concat(init: u8, a: Seq<u8>, b: Seq<u8>)
    ensures
        crc8_from(init, a + b) == crc8_from(crc8_from(init, a), b),
    decreases b.len(),
{
    if b.len() == 0 {
        assert(a + b =~= a);
    } else {
        assert((a + b).drop_last() =~= a + b.drop_last());
        lemma_crc8_concat(init, a, b.drop_last());
    }
}

/// No two register values are mixed into one.
proof fn lemma_crc8_byte_injective(x: u8, y: u8)
    requires
        crc8_byte(x) == crc8_byte(y),
    ensures
        x == y,
{
    assert(crc8_byte(x) == crc8_byte(y) ==> x == y) by (bit_vector);
}

/// Two different registers stay different over the same bytes.
proof fn lemma_crc8_from_injective(x: u8, y: u8, data: Seq<u8>)
    requires
        x != y,
    ensures
        crc8_from(x, data) != crc8_from(y, data),
    decreases data.len(),
{
    if data.len() > 0 {
        lemma_crc8_from_injective(x, y, data.drop_last());
        let p = crc8_from(x, data.drop_last());
        let q = crc8_from(y, data.drop_last());
        let b = data.last();
        assert(p != q ==> p ^ b != q ^ b) by (bit_vector);
        if crc8_byte(p ^ b) == crc8_byte(q ^ b) {
            lemma_crc8_byte_injective(p ^ b, q ^ b);
        }
    }
}

/// Changing any one byte changes the checksum.
pub proof fn lemma_crc8_detects_one_byte(a: Seq<u8>, x: u8, y: u8, b: Seq<u8>)
    requires
        x != y,
    ensures
        crc8_of(a + seq![x] + b) != crc8_of(a + seq![y] + b),
{
    lemma_crc8_concat(0, a + seq![x], b);
    lemma_crc8_concat(0, a + seq![y], b);
    assert((a + seq![x]).drop_last() =~= a);
    assert((a + seq![y]).drop_last() =~= a);
    let c = crc8_of(a);
    assert(x != y ==> c ^ x != c ^ y) by (bit_vector);
    if crc8_byte(c ^ x) == crc8_byte(c ^ y) {
        lemma_crc8_byte_injective(c ^ x, c ^ y);
    }
    lemma_crc8_from_injective(crc8_of(a + seq![x]), crc8_of(a + seq![y]), b);
}

/// The effect of one byte for every register value.
pub fn generate_crc8_table() -> (table: [u8; 256])
    ensures
        forall|i: int| 0 <= i < 256 ==> #[trigger] table@[i] == crc8_byte(i as u8),
{
    let mut table: [u8; 256] = [0u8; 256];
    let mut i: usize = 0;
    while i < 256
        invariant
            i <= 256,
            forall|k: int| 0 <= k < i ==> #[trigger] table@[k] == crc8_byte(k as u8),
        decreases 256 - i,
    {
        let mut crc: u8 = i as u8;
        let mut j: usize = 0;
        while j < 8
            invariant
                j <= 8,
                crc == crc8_shifts(i as u8, j as nat),
            decreases 8 - j,
        {
            if crc & 1u8 != 0 {
                crc = (crc >> 1u8) ^ 0x8Cu8;
            } else {
                crc = crc >> 1u8;
            }
            j += 1;
        }
        proof {
            reveal_with_fuel(crc8_shifts, 9);
        }
        table[i] = crc;
        i += 1;
    }
    table
}

/// The checksum of `data`.
pub fn crc8(data: &[u8]) -> (r: u8)
    ensures
        r == crc8_of(data@),
{
    let table = generate_crc8_table();
    let mut crc: u8 = 0;
    let mut i: usize = 0;
    while i < data.len()
        invariant
            i <= data.len(),
            crc == crc8_of(data@.take(i as int)),
            forall|k: int| 0 <= k < 256 ==> #[trigger] table@[k] == crc8_byte(k as u8),
        decreases data.len() - i,
    {
        let x = crc ^ data[i];
        crc = table[x as usize];
        assert(data@.take(i + 1).drop_last() =~= data@.take(i as int));
        i += 1;
    }
    assert(data@.take(data.len() as int) =~= data@);
    crc
}

/// The register shifts to the right, and a bit that falls out brings in the polynomial `0x8C`.
pub proof fn lemma_crc8_shift(c: u8)
    ensures
        c < 128 ==> crc8_bit((2 * c) as u8) == c,
        c < 128 ==> crc8_bit((2 * c + 1) as u8) == c ^ 0x8C,
{
    assert(c < 128 ==> crc8_bit((2 * c) as u8) == c) by (bit_vector);
    assert(c < 128 ==> crc8_bit((2 * c + 1) as u8) == c ^ 0x8C) by (bit_vector);
}

/// A byte is taken in by eight shifts of the register it was mixed into, and nothing is mixed in
/// before the first or behind the last.
pub proof fn lemma_crc8_takes_bytes_in_order(data: Seq<u8>, x: u8)
    ensures
        crc8_of(Seq::empty()) == 0,
        crc8_of(data.push(x)) == crc8_shifts(crc8_of(data) ^ x, 8),
{
    reveal_with_fuel(crc8_shifts, 9);
    assert(data.push(x).drop_last() =~= data);
}

/// Bytes with their checksum behind them check to zero, and with any other byte they do not.
pub proof fn lemma_crc8_checks_itself(data: Seq<u8>, x: u8)
    ensures
        crc8_of(data.push(x)) == 0 <==> x == crc8_of(data),
{
    let c = crc8_of(data);
    assert(data.push(x).drop_last() =~= data);
    assert(crc8_byte(c ^ x) == 0 <==> x == c) by (bit_vector);
}

/// Checksums add up: mixing two runs of bytes of one length mixes their checksums.
pub proof fn lemma_crc8_is_linear(a: Seq<u8>, b: Seq<u8>)
    requires
        a.len() == b.len(),
    ensures
        crc8_of(Seq::new(a.len(), |i: int| a[i] ^ b[i])) == crc8_of(a) ^ crc8_of(b),
    decreases a.len(),
{
    let m = Seq::new(a.len(), |i: int| a[i] ^ b[i]);
    if a.len() == 0 {
        assert(0u8 ^ 0u8 == 0u8) by (bit_vector);
    } else {
        let a0 = a.drop_last();
        let b0 = b.drop_last();
        lemma_crc8_is_linear(a0, b0);
        assert(m.drop_last() =~= Seq::new(a0.len(), |i: int| a0[i] ^ b0[i]));
        let p = crc8_of(a0);
        let q = crc8_of(b0);
        let x = a.last();
        let y = b.last();
        assert(crc8_byte((p ^ q) ^ (x ^ y)) == crc8_byte(p ^ x) ^ crc8_byte(q ^ y)) by (bit_vector);
    }
}

} // verus!

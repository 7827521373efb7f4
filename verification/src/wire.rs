//! Big-endian integers, as TLS lays them out on the wire.

use vstd::prelude::*;

verus! {

/// The two-byte integer at offset `i` of `s`.
pub open spec fn be16(s: Seq<u8>, i: int) -> int {
    s[i] * 256 + s[i + 1]
}

/// The three-byte integer at offset `i` of `s`.
pub open spec fn be24(s: Seq<u8>, i: int) -> int {
    s[i] * 65536 + s[i + 1] * 256 + s[i + 2]
}

/// The low 16 bits of `n`, most significant byte first.
pub open spec fn u16_bytes(n: int) -> Seq<u8> {
    seq![(n / 256 % 256) as u8, (n % 256) as u8]
}

/// The low 24 bits of `n`, most significant byte first.
pub open spec fn u24_bytes(n: int) -> Seq<u8> {
    seq![(n / 65536 % 256) as u8, (n / 256 % 256) as u8, (n % 256) as u8]
}

/// `values` as two-byte integers, one behind the other.
pub open spec fn u16_list(values: Seq<u16>) -> Seq<u8>
    decreases values.len(),
{
    if values.len() == 0 {
        Seq::empty()
    } else {
        u16_list(values.drop_last()) + u16_bytes(values.last() as int)
    }
}

/// The most significant byte comes first, in what is read and in what is written.
pub proof fn law_most_significant_byte_first(s: Seq<u8>, i: int, n: int)
    requires
        0 <= n,
    ensures
        be16(s, i) == 0x100 * s[i] + s[i + 1],
        be24(s, i) == 0x10000 * s[i] + 0x100 * s[i + 1] + s[i + 2],
        u16_bytes(n).len() == 2,
        u16_bytes(n)[0] == n / 0x100 % 0x100,
        u16_bytes(n)[1] == n % 0x100,
        u24_bytes(n).len() == 3,
        u24_bytes(n)[0] == n / 0x10000 % 0x100,
        u24_bytes(n)[1] == n / 0x100 % 0x100,
        u24_bytes(n)[2] == n % 0x100,
{
}

/// What `be16` reads of `u16_bytes` is the integer modulo 2^16, for every
/// integer that is not negative.
pub proof fn law_u16_round_trip(n: int)
    requires
        0 <= n,
    ensures
        be16(u16_bytes(n), 0) == n % 65536,
{
}

/// What `be24` reads of `u24_bytes` is the integer modulo 2^24, for every
/// integer that is not negative.
pub proof fn law_u24_round_trip(n: int)
    requires
        0 <= n,
    ensures
        be24(u24_bytes(n), 0) == n % 16777216,
{
}

/// A list of `n` two-byte integers takes `2 * n` bytes, and the integer at
/// index `i` stands at offset `2 * i`.
pub proof fn law_u16_list_layout(values: Seq<u16>)
    ensures
        u16_list(values).len() == 2 * values.len(),
        forall|i: int|
            #![trigger values[i]]
            0 <= i < values.len() ==> be16(u16_list(values), 2 * i) == values[i],
    decreases values.len(),
{
    if values.len() > 0 {
        let front = values.drop_last();
        law_u16_list_layout(front);
        let list = u16_list(values);
        assert forall|i: int| #![trigger values[i]] 0 <= i < values.len() implies be16(list, 2 * i)
            == values[i] by {
            if i < front.len() {
                assert(front[i] == values[i]);
                assert(be16(u16_list(front), 2 * i) == front[i]);
            } else {
                law_u16_round_trip(values[i] as int);
            }
        }
    }
}

/// Where two lists of two-byte integers agree, so do their bytes.
pub(crate) proof fn lemma_u16_lists_compared(a: Seq<u16>, b: Seq<u16>, i: int)
    requires
        a.len() == b.len(),
        0 <= i < 2 * a.len(),
        a[i / 2] == b[i / 2],
    ensures
        u16_list(a)[i] == u16_list(b)[i],
{
    law_u16_list_layout(a);
    law_u16_list_layout(b);
    let k = i / 2;
    assert(be16(u16_list(a), 2 * k) == a[k]);
    assert(be16(u16_list(b), 2 * k) == b[k]);
}

/// Narrowing a length to 16 bits keeps exactly the bytes that `u16_bytes` keeps.
pub(crate) proof fn lemma_narrow_u16(n: usize)
    ensures
        n as u16 == n as int % 65536,
        u16_bytes((n as u16) as int) == u16_bytes(n as int),
{
    assert(n as u16 == n % 65536) by (bit_vector);
}

/// Narrowing a length to 8 bits keeps its lowest byte.
pub(crate) proof fn lemma_narrow_u8(n: usize)
    ensures
        n as u8 == n as int % 256,
{
    assert(n as u8 == n % 256) by (bit_vector);
}

/// `u16_bytes` looks at the low 16 bits only.
pub(crate) proof fn lemma_u16_bytes_low(n: int)
    requires
        0 <= n,
    ensures
        u16_bytes(n) == u16_bytes(n % 65536),
{
    let high = n / 65536;
    let low = n % 65536;
    assert(n == high * 65536 + low);
    assert(n / 256 == high * 256 + low / 256);
}

/// `u24_bytes` looks at the low 24 bits only.
proof fn lemma_u24_bytes_low(n: int)
    requires
        0 <= n,
    ensures
        u24_bytes(n) == u24_bytes(n % 16777216),
{
    let high = n / 16777216;
    let low = n % 16777216;
    assert(n == high * 16777216 + low);
    assert(n / 65536 == high * 256 + low / 65536);
    assert(n / 256 == high * 65536 + low / 256);
}

/// Narrowing a length to 32 bits keeps the bytes that `u24_bytes` keeps.
pub(crate) proof fn lemma_narrow_u24(n: usize)
    ensures
        u24_bytes((n as u32) as int) == u24_bytes(n as int),
{
    let m = n as u32;
    assert(m % 16777216 == n % 16777216) by (bit_vector)
        requires
            m == n as u32,
    ;
    lemma_u24_bytes_low(m as int);
    lemma_u24_bytes_low(n as int);
}

/// Appends the byte `v`.
pub(crate) fn wu8(buf: &mut Vec<u8>, v: u8)
    ensures
        final(buf)@ == old(buf)@ + seq![v],
{
    buf.push(v);
    assert(buf@ =~= old(buf)@ + seq![v]);
}

/// Appends `v`, most significant byte first.
pub fn wu16(buf: &mut Vec<u8>, v: u16)
    ensures
        final(buf)@ == old(buf)@ + u16_bytes(v as int),
{
    buf.push((v / 256) as u8);
    buf.push((v % 256) as u8);
    assert(buf@ =~= old(buf)@ + u16_bytes(v as int));
}

/// Appends the low 24 bits of `v`, most significant byte first.
pub fn wu24(buf: &mut Vec<u8>, v: u32)
    ensures
        final(buf)@ == old(buf)@ + u24_bytes(v as int),
{
    buf.push((v / 65536 % 256) as u8);
    buf.push((v / 256 % 256) as u8);
    buf.push((v % 256) as u8);
    assert(buf@ =~= old(buf)@ + u24_bytes(v as int));
}

/// Appends each of `values` in turn, two bytes each.
pub(crate) fn wu16_list(buf: &mut Vec<u8>, values: &[u16])
    ensures
        final(buf)@ == old(buf)@ + u16_list(values@),
{
    let ghost start = buf@;
    let mut i: usize = 0;
    while i < values.len()
        invariant
            i <= values.len(),
            buf@ == start + u16_list(values@.take(i as int)),
        decreases values.len() - i,
    {
        assert(values@.take(i + 1).drop_last() == values@.take(i as int));
        wu16(buf, values[i]);
        i += 1;
    }
    assert(values@.take(i as int) == values@);
}

/// Appends `data`.
pub(crate) fn append(buf: &mut Vec<u8>, data: &[u8])
    ensures
        final(buf)@ == old(buf)@ + data@,
{
    buf.extend_from_slice(data);
    assert(buf@ =~= old(buf)@ + data@);
}

/// The two-byte integer at offset `i` of `s`.
pub(crate) fn read_u16(s: &[u8], i: usize) -> (n: usize)
    requires
        i + 1 < s@.len(),
    ensures
        n == be16(s@, i as int),
{
    s[i] as usize * 256 + s[i + 1] as usize
}

} // verus!

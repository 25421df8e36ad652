//! Big-endian ("network order") encoding of unsigned integers.
use vstd::prelude::*;

verus! {

/// `256` raised to `n`.
pub open spec fn pow256(n: nat) -> nat
    decreases n,
{
    if n == 0 {
        1
    } else {
        256 * pow256((n - 1) as nat)
    }
}

/// `pow256` grows with its exponent.
pub proof fn lemma_pow256_monotone(a: nat, b: nat)
    requires
        a <= b,
    ensures
        pow256(a) <= pow256(b),
    decreases b,
{
    if a < b {
        lemma_pow256_monotone(a, (b - 1) as nat);
        lemma_pow256_positive((b - 1) as nat);
    }
}

/// Byte `i` of `be_bytes(x, n)` in terms of `x`.
pub proof fn lemma_be_bytes_index(x: nat, n: nat, i: int)
    requires
        0 <= i < n,
    ensures
        be_bytes(x, n)[i] == ((x / pow256((n - 1 - i) as nat)) % 256) as u8,
    decreases n,
{
    lemma_be_bytes_len(x, n);
    lemma_be_bytes_len(x / 256, (n - 1) as nat);
    if i < n - 1 {
        lemma_be_bytes_index(x / 256, (n - 1) as nat, i);
        lemma_pow256_positive((n - 2 - i) as nat);
        vstd::arithmetic::div_mod::lemma_div_denominator(
            x as int,
            256,
            pow256((n - 2 - i) as nat) as int,
        );
        assert(pow256((n - 1 - i) as nat) == 256 * pow256((n - 2 - i) as nat));
        assert(be_bytes(x, n)[i] == be_bytes(x / 256, (n - 1) as nat)[i]);
        assert((x / 256) / pow256((n - 2 - i) as nat) == x / pow256((n - 1 - i) as nat));
    } else {
        assert(pow256(0) == 1);
        assert(x / 1 == x);
        assert(be_bytes(x, n)[i] == (x % 256) as u8);
    }
}

/// The number that the bytes `s` spell in network order.
pub open spec fn be_value(s: Seq<u8>) -> nat
    decreases s.len(),
{
    if s.len() == 0 {
        0
    } else {
        be_value(s.drop_last()) * 256 + s.last() as nat
    }
}

/// The `n` low-order bytes of `x`, most significant first.
pub open spec fn be_bytes(x: nat, n: nat) -> Seq<u8>
    decreases n,
{
    if n == 0 {
        Seq::empty()
    } else {
        be_bytes(x / 256, (n - 1) as nat).push((x % 256) as u8)
    }
}

/// `pow256` is at least one.
pub proof fn lemma_pow256_positive(n: nat)
    ensures
        pow256(n) >= 1,
    decreases n,
{
    if n > 0 {
        lemma_pow256_positive((n - 1) as nat);
    }
}

/// `n` bytes spell a number below `256^n`.
pub proof fn lemma_be_value_bound(s: Seq<u8>)
    ensures
        be_value(s) < pow256(s.len()),
    decreases s.len(),
{
    if s.len() > 0 {
        lemma_be_value_bound(s.drop_last());
    }
}

/// `be_bytes(x, n)` has `n` bytes.
pub proof fn lemma_be_bytes_len(x: nat, n: nat)
    ensures
        be_bytes(x, n).len() == n,
    decreases n,
{
    if n > 0 {
        lemma_be_bytes_len(x / 256, (n - 1) as nat);
    }
}

/// Encoding a number that fits in `n` bytes and reading it back gives it back.
pub proof fn lemma_be_value_of_bytes(x: nat, n: nat)
    requires
        x < pow256(n),
    ensures
        be_value(be_bytes(x, n)) == x,
    decreases n,
{
    if n > 0 {
        assert(x / 256 < pow256((n - 1) as nat));
        lemma_be_value_of_bytes(x / 256, (n - 1) as nat);
        let s = be_bytes(x, n);
        assert(s.drop_last() =~= be_bytes(x / 256, (n - 1) as nat));
    }
}

/// Reading bytes as a number and encoding it again gives the bytes back.
pub proof fn lemma_be_bytes_of_value(s: Seq<u8>)
    ensures
        be_bytes(be_value(s), s.len()) =~= s,
    decreases s.len(),
{
    if s.len() > 0 {
        let v = be_value(s.drop_last());
        assert((v * 256 + s.last()) / 256 == v);
        assert((v * 256 + s.last()) % 256 == s.last());
        lemma_be_bytes_of_value(s.drop_last());
        assert(s =~= s.drop_last().push(s.last()));
    }
}

/// `be_value` of a concatenation.
pub proof fn lemma_be_value_append(a: Seq<u8>, b: Seq<u8>)
    ensures
        be_value(a + b) == be_value(a) * pow256(b.len()) + be_value(b),
    decreases b.len(),
{
    if b.len() == 0 {
        assert(a + b =~= a);
        assert(pow256(b.len()) == 1);
        assert(be_value(a) * 1 == be_value(a));
    } else {
        lemma_be_value_append(a, b.drop_last());
        assert((a + b).drop_last() =~= a + b.drop_last());
        let p = pow256((b.len() - 1) as nat);
        let va = be_value(a);
        let vb = be_value(b.drop_last());
        assert((a + b).last() == b.last());
        assert(be_value(a + b) == be_value((a + b).drop_last()) * 256 + (a + b).last());
        assert(be_value(b) == vb * 256 + b.last());
        assert(pow256(b.len()) == 256 * p);
        assert(b.drop_last().len() == (b.len() - 1) as nat);
        assert(be_value(a + b.drop_last()) == va * p + vb);
        assert(be_value(a + b) == (va * p + vb) * 256 + b.last());
        assert((va * p + vb) * 256 + b.last() == va * (256 * p) + (vb * 256 + b.last()))
            by (nonlinear_arith);
    }
}

/// The number that two bytes spell in network order.
pub open spec fn be16(hi: u8, lo: u8) -> u16 {
    (hi * 256 + lo) as u16
}

/// The two bytes of `v`, most significant first.
pub open spec fn u16_bytes(v: u16) -> Seq<u8> {
    seq![(v / 256) as u8, (v % 256) as u8]
}

/// The four bytes of `v`, most significant first.
pub open spec fn u32_bytes(v: u32) -> Seq<u8> {
    seq![
        (v / 0x100_0000) as u8,
        ((v / 0x1_0000) % 256) as u8,
        ((v / 256) % 256) as u8,
        (v % 256) as u8,
    ]
}

/// The number that the first four bytes of `s` spell in network order.
pub open spec fn be32(s: Seq<u8>) -> u32 {
    (s[0] * 0x100_0000 + s[1] * 0x1_0000 + s[2] * 256 + s[3]) as u32
}

/// Law: a 16-bit number written in network order (`PacketBuilder::write_u16`)
/// reads back as itself (`Packet::read_u16`).
pub proof fn lemma_u16_bytes(v: u16)
    ensures
        u16_bytes(v) =~= be_bytes(v as nat, 2),
        be16(u16_bytes(v)[0], u16_bytes(v)[1]) == v,
        be_value(u16_bytes(v)) == v,
{
    reveal_with_fuel(be_bytes, 3);
    reveal_with_fuel(be_value, 3);
}

/// Two bytes read as a number (`read_u16`) and written back (`write_u16`)
/// are the same two bytes.
pub proof fn lemma_be16(hi: u8, lo: u8)
    ensures
        be16(hi, lo) == hi * 256 + lo,
        be16(hi, lo) == be_value(seq![hi, lo]),
        u16_bytes(be16(hi, lo)) =~= seq![hi, lo],
{
    reveal_with_fuel(be_value, 3);
    assert(seq![hi, lo].drop_last() =~= seq![hi]);
    assert(seq![hi].drop_last() =~= Seq::<u8>::empty());
}

/// Law: a 32-bit number written in network order (`PacketBuilder::write_u32`)
/// reads back as itself (`Packet::read_u32`).
pub proof fn lemma_u32_bytes(v: u32)
    ensures
        u32_bytes(v) =~= be_bytes(v as nat, 4),
        be32(u32_bytes(v)) == v,
        be_value(u32_bytes(v)) == v,
{
    reveal_with_fuel(be_bytes, 5);
    reveal_with_fuel(be_value, 5);
    let s = u32_bytes(v);
    assert(s.drop_last().drop_last().drop_last().drop_last() =~= Seq::<u8>::empty());
}

/// Four bytes read as a number (`read_u32`) and written back (`write_u32`)
/// are the same four bytes.
pub proof fn lemma_be32(s: Seq<u8>)
    requires
        s.len() == 4,
    ensures
        be32(s) == s[0] * 0x100_0000 + s[1] * 0x1_0000 + s[2] * 256 + s[3],
        be32(s) == be_value(s),
        u32_bytes(be32(s)) =~= s,
{
    reveal_with_fuel(be_value, 5);
    assert(s.drop_last().drop_last().drop_last().drop_last() =~= Seq::<u8>::empty());
}

/// The number two bytes spell in network order.
pub fn u16_from_be(hi: u8, lo: u8) -> (r: u16)
    ensures
        r == be16(hi, lo),
        r == hi * 256 + lo,
{
    (hi as u16) * 256 + (lo as u16)
}

/// The two bytes of `v` in network order.
pub fn u16_to_be(v: u16) -> (r: [u8; 2])
    ensures
        r@ == u16_bytes(v),
{
    [(v / 256) as u8, (v % 256) as u8]
}

/// The number four bytes spell in network order.
pub fn u32_from_be(b0: u8, b1: u8, b2: u8, b3: u8) -> (r: u32)
    ensures
        r == be32(seq![b0, b1, b2, b3]),
        r == b0 * 0x100_0000 + b1 * 0x1_0000 + b2 * 256 + b3,
{
    (b0 as u32) * 0x100_0000 + (b1 as u32) * 0x1_0000 + (b2 as u32) * 256 + (b3 as u32)
}

/// The four bytes of `v` in network order.
pub fn u32_to_be(v: u32) -> (r: [u8; 4])
    ensures
        r@ == u32_bytes(v),
{
    [(v / 0x100_0000) as u8, ((v / 0x1_0000) % 256) as u8, ((v / 256) % 256) as u8, (v % 256) as u8]
}

/// Appends `bytes` to `buffer`.
pub fn extend_bytes(buffer: &mut Vec<u8>, bytes: &[u8])
    ensures
        final(buffer)@ == old(buffer)@ + bytes@,
{
    let mut i: usize = 0;
    while i < bytes.len()
        invariant
            i <= bytes@.len(),
            buffer@ == old(buffer)@ + bytes@.take(i as int),
        decreases bytes@.len() - i,
    {
        buffer.push(bytes[i]);
        i = i + 1;
        assert(buffer@ =~= old(buffer)@ + bytes@.take(i as int));
    }
    assert(bytes@.take(i as int) =~= bytes@);
}

/// The number of bytes of a `usize`.
pub open spec fn usize_width() -> nat {
    (usize::BITS / 8) as nat
}

/// The bytes of `x`, most significant first, as many as a `usize` has.
pub fn usize_to_be(x: usize) -> (r: Vec<u8>)
    ensures
        r@ == be_bytes(x as nat, usize_width()),
        r@.len() == usize_width(),
{
    let width: usize = (usize::BITS / 8) as usize;
    let mut bytes: Vec<u8> = Vec::new();
    let mut k: usize = 0;
    let mut rest: usize = x;
    proof {
        lemma_be_bytes_len(x as nat, width as nat);
        assert(pow256(0) == 1);
        assert(bytes@ =~= be_bytes(x as nat, width as nat).subrange(width as int, width as int));
    }
    while k < width
        invariant
            width == usize_width(),
            width == 4 || width == 8,
            k <= width,
            bytes@.len() == k,
            be_bytes(x as nat, width as nat).len() == width,
            bytes@ == be_bytes(x as nat, width as nat).subrange(width - k, width as int),
            rest as nat == x as nat / pow256(k as nat),
        decreases width - k,
    {
        proof {
            lemma_be_bytes_index(x as nat, width as nat, width - 1 - k as int);
            lemma_pow256_positive(k as nat);
            vstd::arithmetic::div_mod::lemma_div_denominator(x as int, pow256(k as nat) as int, 256);
            assert(pow256((k + 1) as nat) == pow256(k as nat) * 256);
        }
        bytes.insert(0, (rest % 256) as u8);
        rest = rest / 256;
        k = k + 1;
        assert(bytes@ =~= be_bytes(x as nat, width as nat).subrange(width - k, width as int));
    }
    assert(bytes@ =~= be_bytes(x as nat, width as nat));
    bytes
}

} // verus!

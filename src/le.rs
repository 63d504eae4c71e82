use vstd::prelude::*;

verus! {

/// The unsigned integer that `b` encodes in little-endian byte order.
pub open spec fn le_value(b: Seq<u8>) -> nat
    decreases b.len(),
{
    if b.len() == 0 {
        0
    } else {
        b[0] as nat + 256 * le_value(b.drop_first())
    }
}

/// `256` to the power `n`.
pub open spec fn pow256(n: nat) -> nat
    decreases n,
{
    if n == 0 {
        1
    } else {
        256 * pow256((n - 1) as nat)
    }
}

proof fn lemma_pow256_mono(a: nat, b: nat)
    requires
        a <= b,
    ensures
        pow256(a) <= pow256(b),
    decreases b,
{
    if a < b {
        lemma_pow256_mono(a, (b - 1) as nat);
    }
}

/// `n` little-endian bytes encode a value below `256^n`.
proof fn lemma_le_bound(b: Seq<u8>)
    ensures
        le_value(b) < pow256(b.len()),
    decreases b.len(),
{
    if b.len() > 0 {
        lemma_le_bound(b.drop_first());
        let r = le_value(b.drop_first());
        let p = pow256((b.len() - 1) as nat);
        assert(b[0] as nat + 256 * r < 256 * p) by (nonlinear_arith)
            requires
                b[0] < 256,
                r < p,
        ;
    }
}

/// Appending a byte adds it at weight `256^len`.
proof fn lemma_le_push(b: Seq<u8>, d: u8)
    ensures
        le_value(b.push(d)) == le_value(b) + pow256(b.len()) * d,
    decreases b.len(),
{
    let bd = b.push(d);
    if b.len() == 0 {
        assert(bd.drop_first() =~= Seq::<u8>::empty());
        assert(bd[0] == d);
        assert(le_value(bd) == d as nat + 256 * le_value(bd.drop_first()));
        assert(le_value(bd) == d as nat);
        assert(pow256(0) == 1);
    } else {
        let rest = b.drop_first();
        assert(bd.drop_first() =~= rest.push(d));
        lemma_le_push(rest, d);
        let p = pow256((b.len() - 1) as nat);
        assert(bd[0] == b[0]);
        assert(pow256(b.len()) == 256 * p);
        assert(le_value(bd) == b[0] as nat + 256 * le_value(rest.push(d)));
        assert(le_value(rest.push(d)) == le_value(rest) + p * d);
        assert(le_value(b) == b[0] as nat + 256 * le_value(rest));
        assert(256 * (le_value(rest) + p * d) == 256 * le_value(rest) + (256 * p) * d) by (nonlinear_arith);
    }
}

proof fn lemma_pow256_values()
    ensures
        pow256(4) == 0x1_0000_0000,
        pow256(8) == 0x1_0000_0000_0000_0000,
        pow256(15) == 0x1_00_0000_0000_0000_0000_0000_0000_0000,
        pow256(16) == 0x1_0000_0000_0000_0000_0000_0000_0000_0000,
{
    reveal_with_fuel(pow256, 17);
}

/// The integer that at most 16 little-endian bytes encode.
pub fn le_to_u128(b: &[u8]) -> (r: u128)
    requires
        b@.len() <= 16,
    ensures
        r as nat == le_value(b@),
{
    let n = b.len();
    let mut acc: u128 = 0;
    let mut i: usize = n;
    assert(b@.subrange(n as int, n as int) =~= Seq::<u8>::empty());
    while i > 0
        invariant
            i <= n,
            n == b@.len(),
            n <= 16,
            acc as nat == le_value(b@.subrange(i as int, n as int)),
        decreases i,
    {
        i = i - 1;
        let ghost rest = b@.subrange(i + 1, n as int);
        proof {
            lemma_le_bound(rest);
            lemma_pow256_mono(rest.len(), 15);
            lemma_pow256_values();
        }
        let d = b[i];
        assert(acc * 256 + d < 0x1_0000_0000_0000_0000_0000_0000_0000_0000) by (nonlinear_arith)
            requires
                acc < 0x1_00_0000_0000_0000_0000_0000_0000_0000,
                d < 256,
        ;
        assert(b@.subrange(i as int, n as int).drop_first() =~= rest);
        acc = acc * 256 + d as u128;
    }
    assert(b@.subrange(0, n as int) =~= b@);
    acc
}

/// The integer that 8 little-endian bytes encode.
pub fn le_to_u64(b: &[u8]) -> (r: u64)
    requires
        b@.len() == 8,
    ensures
        r as nat == le_value(b@),
{
    proof {
        lemma_le_bound(b@);
        lemma_pow256_values();
    }
    le_to_u128(b) as u64
}

/// The integer that 4 little-endian bytes encode.
pub fn le_to_u32(b: &[u8]) -> (r: u32)
    requires
        b@.len() == 4,
    ensures
        r as nat == le_value(b@),
{
    proof {
        lemma_le_bound(b@);
        lemma_pow256_values();
    }
    le_to_u128(b) as u32
}

/// The 16 little-endian bytes of `x`.
pub fn u128_to_le_bytes(x: u128) -> (r: Vec<u8>)
    ensures
        r@.len() == 16,
        le_value(r@) == x as nat,
{
    let mut r: Vec<u8> = Vec::with_capacity(16);
    let mut v: u128 = x;
    let mut i: usize = 0;
    proof {
        lemma_pow256_values();
        assert(r@ =~= Seq::<u8>::empty());
        assert(le_value(r@) == 0);
        assert(pow256(0) == 1);
    }
    while i < 16
        invariant
            i <= 16,
            r@.len() == i,
            x as nat == le_value(r@) + pow256(i as nat) * v,
            v < pow256((16 - i) as nat),
        decreases 16 - i,
    {
        let d = (v % 256) as u8;
        let next = v / 256;
        proof {
            lemma_le_push(r@, d);
            let p = pow256(i as nat);
            assert(p * v == p * d + (256 * p) * next) by (nonlinear_arith)
                requires
                    v == 256 * next + d,
            ;
            let q = pow256((15 - i) as nat);
            assert(pow256((16 - i) as nat) == 256 * q);
            assert(next < q) by (nonlinear_arith)
                requires
                    v < 256 * q,
                    next == v / 256,
            ;
        }
        r.push(d);
        v = next;
        i = i + 1;
    }
    assert(v == 0);
    r
}

} // verus!

use vstd::prelude::*;

verus! {

/// Byte-lexicographic strict order on keys.
pub open spec fn lex_lt(a: Seq<u8>, b: Seq<u8>) -> bool
    decreases a.len(),
{
    if b.len() == 0 {
        false
    } else if a.len() == 0 {
        true
    } else if a[0] != b[0] {
        a[0] < b[0]
    } else {
        lex_lt(a.drop_first(), b.drop_first())
    }
}

/// `p` is a byte-prefix of `k`.
pub open spec fn has_prefix(k: Seq<u8>, p: Seq<u8>) -> bool {
    p.len() <= k.len() && k.subrange(0, p.len() as int) =~= p
}

pub proof fn lemma_lex_irreflexive(a: Seq<u8>)
    ensures
        !lex_lt(a, a),
    decreases a.len(),
{
    if a.len() > 0 {
        lemma_lex_irreflexive(a.drop_first());
    }
}

pub proof fn lemma_lex_asymmetric(a: Seq<u8>, b: Seq<u8>)
    ensures
        !(lex_lt(a, b) && lex_lt(b, a)),
    decreases a.len(),
{
    if a.len() > 0 && b.len() > 0 && a[0] == b[0] {
        lemma_lex_asymmetric(a.drop_first(), b.drop_first());
    }
}

pub proof fn lemma_lex_transitive(a: Seq<u8>, b: Seq<u8>, c: Seq<u8>)
    requires
        lex_lt(a, b),
        lex_lt(b, c),
    ensures
        lex_lt(a, c),
    decreases a.len(),
{
    if a.len() > 0 && a[0] == b[0] && b[0] == c[0] {
        lemma_lex_transitive(a.drop_first(), b.drop_first(), c.drop_first());
    }
}

pub proof fn lemma_lex_total(a: Seq<u8>, b: Seq<u8>)
    ensures
        a == b || lex_lt(a, b) || lex_lt(b, a),
    decreases a.len(),
{
    if a.len() > 0 && b.len() > 0 && a[0] == b[0] {
        lemma_lex_total(a.drop_first(), b.drop_first());
        if a.drop_first() == b.drop_first() {
            assert(a =~= seq![a[0]] + a.drop_first());
            assert(b =~= seq![b[0]] + b.drop_first());
        }
    } else if a.len() == 0 && b.len() == 0 {
        assert(a =~= b);
    }
}

/// Byte-wise equality of two slices.
pub fn bytes_eq(a: &[u8], b: &[u8]) -> (r: bool)
    ensures
        r == (a@ == b@),
{
    if a.len() != b.len() {
        return false;
    }
    let mut i: usize = 0;
    while i < a.len()
        invariant
            a@.len() == b@.len(),
            i <= a@.len(),
            a@.subrange(0, i as int) =~= b@.subrange(0, i as int),
        decreases a@.len() - i,
    {
        if a[i] != b[i] {
            assert(a@[i as int] != b@[i as int]);
            return false;
        }
        i = i + 1;
        assert(a@.subrange(0, i as int) =~= b@.subrange(0, i as int)) by {
            assert forall|j: int| 0 <= j < i implies a@[j] == b@[j] by {
                if j < i - 1 {
                    assert(a@.subrange(0, i - 1)[j] == b@.subrange(0, i - 1)[j]);
                }
            }
        }
    }
    assert(a@ =~= a@.subrange(0, i as int));
    assert(b@ =~= b@.subrange(0, i as int));
    true
}

proof fn lemma_lex_step(a: Seq<u8>, b: Seq<u8>, i: int)
    requires
        0 <= i < a.len(),
        i < b.len(),
        a[i] == b[i],
    ensures
        lex_lt(a.skip(i), b.skip(i)) == lex_lt(a.skip(i + 1), b.skip(i + 1)),
{
    assert(a.skip(i).drop_first() =~= a.skip(i + 1));
    assert(b.skip(i).drop_first() =~= b.skip(i + 1));
}

/// Byte-lexicographic comparison: whether `a` sorts strictly before `b`.
pub fn bytes_lt(a: &[u8], b: &[u8]) -> (r: bool)
    ensures
        r == lex_lt(a@, b@),
{
    let mut i: usize = 0;
    assert(a@.skip(0) =~= a@);
    assert(b@.skip(0) =~= b@);
    while i < a.len() && i < b.len()
        invariant
            i <= a@.len(),
            i <= b@.len(),
            lex_lt(a@, b@) == lex_lt(a@.skip(i as int), b@.skip(i as int)),
        decreases a@.len() - i,
    {
        if a[i] != b[i] {
            return a[i] < b[i];
        }
        proof {
            lemma_lex_step(a@, b@, i as int);
        }
        i = i + 1;
    }
    i < b.len()
}

/// Whether `p` is a byte-prefix of `k`.
pub fn bytes_has_prefix(k: &[u8], p: &[u8]) -> (r: bool)
    ensures
        r == has_prefix(k@, p@),
{
    if p.len() > k.len() {
        return false;
    }
    let mut i: usize = 0;
    while i < p.len()
        invariant
            p@.len() <= k@.len(),
            i <= p@.len(),
            forall|j: int| 0 <= j < i ==> k@[j] == p@[j],
        decreases p@.len() - i,
    {
        if k[i] != p[i] {
            assert(k@.subrange(0, p@.len() as int)[i as int] != p@[i as int]);
            return false;
        }
        i = i + 1;
    }
    true
}

/// A fresh vector holding the same bytes.
pub fn copy_bytes(v: &[u8]) -> (r: Vec<u8>)
    ensures
        r@ == v@,
{
    let mut r: Vec<u8> = Vec::with_capacity(v.len());
    let mut i: usize = 0;
    while i < v.len()
        invariant
            i <= v@.len(),
            r@ =~= v@.subrange(0, i as int),
        decreases v@.len() - i,
    {
        r.push(v[i]);
        i = i + 1;
    }
    assert(r@ =~= v@);
    r
}

} // verus!

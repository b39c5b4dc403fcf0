use vstd::prelude::*;
use vstd::string::StringSliceAdditionalSpecFns;

verus! {

/// The byte the hierarchical separator is made of; the separator between
/// two path segments is this byte twice ("::").
pub const SEP_BYTE: u8 = 58;

/// The separator as a byte sequence.
pub open spec fn sep_seq() -> Seq<u8> {
    seq![SEP_BYTE, SEP_BYTE]
}

/// Strict lexicographic order on byte sequences.
pub open spec fn lex_lt(a: Seq<u8>, b: Seq<u8>) -> bool
    decreases a.len(),
{
    if b.len() == 0 {
        false
    } else if a.len() == 0 {
        true
    } else if a[0] < b[0] {
        true
    } else if a[0] > b[0] {
        false
    } else {
        lex_lt(a.drop_first(), b.drop_first())
    }
}

/// `parent` covers `child`: either the two are equal, or `child` continues
/// `parent` across a separator boundary. A bare byte prefix without the
/// boundary does not count, so "net" does not cover "network".
pub open spec fn is_ancestor(parent: Seq<u8>, child: Seq<u8>) -> bool {
    &&& parent.len() <= child.len()
    &&& child.subrange(0, parent.len() as int) == parent
    &&& (parent.len() == child.len() || (parent.len() + 2 <= child.len()
        && child[parent.len() as int] == SEP_BYTE && child[parent.len() as int + 1] == SEP_BYTE))
}

/// A path on which the ordered-set reasoning of the filter is exact: every
/// byte sorts at or after the separator byte, and the path does not end in
/// a separator byte. Ordinary alphabetic module paths such as "a::b" are
/// valid; a path with a segment byte below the separator byte (a digit, for
/// one) is not, and the filter's search may miss covering prefixes of it.
pub open spec fn valid_path(p: Seq<u8>) -> bool {
    &&& p.len() > 0
    &&& forall|i: int| 0 <= i < p.len() ==> p[i] >= SEP_BYTE
    &&& p[p.len() - 1] != SEP_BYTE
}

pub proof fn lemma_lex_lt_irrefl(a: Seq<u8>)
    ensures
        !lex_lt(a, a),
    decreases a.len(),
{
    if a.len() > 0 {
        lemma_lex_lt_irrefl(a.drop_first());
    }
}

pub proof fn lemma_lex_lt_asym(a: Seq<u8>, b: Seq<u8>)
    requires
        lex_lt(a, b),
    ensures
        !lex_lt(b, a),
    decreases a.len(),
{
    if a.len() > 0 && b.len() > 0 && a[0] == b[0] {
        lemma_lex_lt_asym(a.drop_first(), b.drop_first());
    }
}

pub proof fn lemma_lex_lt_connected(a: Seq<u8>, b: Seq<u8>)
    ensures
        lex_lt(a, b) || lex_lt(b, a) || a == b,
    decreases a.len(),
{
    if a.len() == 0 {
        if b.len() == 0 {
            assert(a =~= b);
        }
    } else if b.len() > 0 && a[0] == b[0] {
        lemma_lex_lt_connected(a.drop_first(), b.drop_first());
        if a.drop_first() == b.drop_first() {
            assert(a.drop_first().len() == b.drop_first().len());
            assert(a.len() == b.len());
            assert forall|i: int| 0 <= i < a.len() implies a[i] == b[i] by {
                if i >= 1 {
                    assert(a[i] == a.drop_first()[i - 1]);
                    assert(b[i] == b.drop_first()[i - 1]);
                }
            }
            assert(a =~= b);
        }
    }
}

pub proof fn lemma_lex_lt_trans(a: Seq<u8>, b: Seq<u8>, c: Seq<u8>)
    requires
        lex_lt(a, b),
        lex_lt(b, c),
    ensures
        lex_lt(a, c),
    decreases a.len(),
{
    if a.len() > 0 && b.len() > 0 && c.len() > 0 && a[0] == b[0] && b[0] == c[0] {
        lemma_lex_lt_trans(a.drop_first(), b.drop_first(), c.drop_first());
    }
}

/// If `a` and `b` agree up to position `k` and `a` is smaller there, then
/// `a` sorts before `b`.
pub proof fn lemma_lex_lt_from_diff(a: Seq<u8>, b: Seq<u8>, k: int)
    requires
        0 <= k < a.len(),
        k < b.len(),
        forall|i: int| 0 <= i < k ==> a[i] == b[i],
        a[k] < b[k],
    ensures
        lex_lt(a, b),
    decreases k,
{
    if k > 0 {
        assert(forall|i: int|
            0 <= i < k - 1 ==> #[trigger] a.drop_first()[i] == b.drop_first()[i]);
        assert(a.drop_first()[k - 1] == a[k] && b.drop_first()[k - 1] == b[k]);
        lemma_lex_lt_from_diff(a.drop_first(), b.drop_first(), k - 1);
    }
}

/// A smaller sequence is either a strict prefix of the larger one, or the
/// two first differ at some position where the smaller one is smaller.
pub proof fn lemma_lex_lt_first_diff(a: Seq<u8>, b: Seq<u8>)
    requires
        lex_lt(a, b),
    ensures
        (a.len() < b.len() && (forall|i: int| 0 <= i < a.len() ==> a[i] == b[i])) || (exists|
            k: int,
        |
            0 <= k < a.len() && k < b.len() && (forall|i: int| 0 <= i < k ==> a[i] == b[i]) && a[k]
                < b[k]),
    decreases a.len(),
{
    if a.len() == 0 {
    } else if a[0] < b[0] {
        let k: int = 0;
        assert(0 <= k < a.len() && k < b.len() && (forall|i: int| 0 <= i < k ==> a[i] == b[i])
            && a[k] < b[k]);
    } else {
        assert(a[0] == b[0]);
        lemma_lex_lt_first_diff(a.drop_first(), b.drop_first());
        let ad = a.drop_first();
        let bd = b.drop_first();
        if ad.len() < bd.len() && (forall|i: int| 0 <= i < ad.len() ==> ad[i] == bd[i]) {
            assert forall|i: int| 0 <= i < a.len() implies a[i] == b[i] by {
                if i >= 1 {
                    assert(a[i] == ad[i - 1]);
                    assert(b[i] == bd[i - 1]);
                    assert(ad[i - 1] == bd[i - 1]);
                }
            }
        } else {
            let k0 = choose|k: int|
                0 <= k < ad.len() && k < bd.len() && (forall|i: int| 0 <= i < k ==> ad[i] == bd[i])
                    && ad[k] < bd[k];
            let k = k0 + 1;
            assert(a[k] == ad[k0] && b[k] == bd[k0]);
            assert forall|i: int| 0 <= i < k implies a[i] == b[i] by {
                if i >= 1 {
                    assert(a[i] == ad[i - 1]);
                    assert(b[i] == bd[i - 1]);
                    assert(ad[i - 1] == bd[i - 1]);
                }
            }
            assert(0 <= k < a.len() && k < b.len() && (forall|i: int| 0 <= i < k ==> a[i] == b[i])
                && a[k] < b[k]);
        }
    }
}

/// A prefix sorts at or before what it is a prefix of.
pub proof fn lemma_prefix_le(a: Seq<u8>, b: Seq<u8>)
    requires
        a.len() <= b.len(),
        b.subrange(0, a.len() as int) == a,
    ensures
        a == b || lex_lt(a, b),
    decreases a.len(),
{
    if a.len() == 0 {
        if b.len() == 0 {
            assert(a =~= b);
        }
    } else {
        assert(a[0] == b[0]) by {
            assert(b.subrange(0, a.len() as int)[0] == b[0]);
        }
        assert(forall|i: int| 0 <= i < a.len() ==> #[trigger] a[i] == b[i]) by {
            assert(forall|i: int|
                0 <= i < a.len() ==> #[trigger] b.subrange(0, a.len() as int)[i] == b[i]);
        }
        assert(b.drop_first().subrange(0, a.len() - 1) == a.drop_first()) by {
            assert(b.drop_first().subrange(0, a.len() - 1) =~= a.drop_first());
        }
        lemma_prefix_le(a.drop_first(), b.drop_first());
        if a.drop_first() == b.drop_first() {
            if a.len() == b.len() {
                assert(a =~= b);
            } else {
                assert(a.drop_first().len() == b.drop_first().len());
            }
        }
    }
}

/// An ancestor sorts at or before its descendant.
pub proof fn lemma_ancestor_le(parent: Seq<u8>, child: Seq<u8>)
    requires
        is_ancestor(parent, child),
    ensures
        parent == child || lex_lt(parent, child),
{
    lemma_prefix_le(parent, child);
}

/// Covering is transitive.
pub proof fn lemma_ancestor_trans(a: Seq<u8>, b: Seq<u8>, c: Seq<u8>)
    requires
        is_ancestor(a, b),
        is_ancestor(b, c),
    ensures
        is_ancestor(a, c),
{
    assert(forall|i: int| 0 <= i < b.len() ==> #[trigger] c[i] == b[i]) by {
        assert(forall|i: int|
            0 <= i < b.len() ==> #[trigger] c.subrange(0, b.len() as int)[i] == c[i]);
    }
    assert(forall|i: int| 0 <= i < a.len() ==> #[trigger] b[i] == a[i]) by {
        assert(forall|i: int|
            0 <= i < a.len() ==> #[trigger] b.subrange(0, a.len() as int)[i] == b[i]);
    }
    assert(c.subrange(0, a.len() as int) =~= a);
    if a.len() == c.len() {
    } else if a.len() == b.len() {
        assert(a =~= b);
    } else {
        assert(b[a.len() as int] == SEP_BYTE && b[a.len() as int + 1] == SEP_BYTE);
        assert(c[a.len() as int] == SEP_BYTE && c[a.len() as int + 1] == SEP_BYTE);
    }
}

/// Every path covers itself, and covers its extension across a separator.
pub proof fn lemma_ancestor_extend(p: Seq<u8>, rest: Seq<u8>)
    ensures
        is_ancestor(p, p),
        is_ancestor(p, p + sep_seq() + rest),
{
    assert(p.subrange(0, p.len() as int) =~= p);
    let c = p + sep_seq() + rest;
    assert(c.subrange(0, p.len() as int) =~= p);
    assert(c[p.len() as int] == SEP_BYTE && c[p.len() as int + 1] == SEP_BYTE);
}

/// A bare byte prefix without a separator boundary does not cover: a
/// strictly longer path is covered only when the separator follows the
/// shared prefix.
pub proof fn lemma_ancestor_needs_boundary(p: Seq<u8>, q: Seq<u8>)
    requires
        p.len() < q.len(),
        !(p.len() + 2 <= q.len() && q[p.len() as int] == SEP_BYTE && q[p.len() as int + 1]
            == SEP_BYTE),
    ensures
        !is_ancestor(p, q),
{
}

/// The crux of the ordered-search arguments: a valid path that sorts
/// strictly between an ancestor of `q` and `q` itself is covered by that
/// same ancestor.
pub proof fn lemma_ancestor_between(p: Seq<u8>, x: Seq<u8>, q: Seq<u8>)
    requires
        valid_path(x),
        is_ancestor(p, q),
        lex_lt(p, x),
        lex_lt(x, q),
    ensures
        is_ancestor(p, x),
{
    lemma_lex_lt_trans(p, x, q);
    lemma_lex_lt_irrefl(p);
    // p is a strict ancestor, so q continues p across a separator.
    if p.len() == q.len() {
        assert(p =~= q) by {
            assert(forall|i: int|
                0 <= i < p.len() ==> #[trigger] q.subrange(0, p.len() as int)[i] == q[i]);
        }
        assert(false);
    }
    assert(forall|i: int| 0 <= i < p.len() ==> #[trigger] q[i] == p[i]) by {
        assert(forall|i: int|
            0 <= i < p.len() ==> #[trigger] q.subrange(0, p.len() as int)[i] == q[i]);
    }
    assert(q[p.len() as int] == SEP_BYTE && q[p.len() as int + 1] == SEP_BYTE);
    // x starts with p.
    lemma_lex_lt_first_diff(p, x);
    if !(p.len() < x.len() && (forall|i: int| 0 <= i < p.len() ==> p[i] == x[i])) {
        let k = choose|k: int|
            0 <= k < p.len() && k < x.len() && (forall|i: int| 0 <= i < k ==> p[i] == x[i]) && p[k]
                < x[k];
        assert(forall|i: int| 0 <= i < k ==> q[i] == x[i]);
        lemma_lex_lt_from_diff(q, x, k);
        lemma_lex_lt_asym(x, q);
        assert(false);
    }
    assert(forall|i: int| 0 <= i < p.len() ==> #[trigger] x[i] == p[i]);
    // Walk the first difference between x and q.
    lemma_lex_lt_first_diff(x, q);
    if x.len() < q.len() && (forall|i: int| 0 <= i < x.len() ==> x[i] == q[i]) {
        assert(x[p.len() as int] == SEP_BYTE);
        assert(x[x.len() - 1] != SEP_BYTE);
        assert(x.len() >= p.len() + 2);
        assert(x[p.len() as int + 1] == q[p.len() as int + 1]);
        assert(x.subrange(0, p.len() as int) =~= p);
    } else {
        let k = choose|k: int|
            0 <= k < x.len() && k < q.len() && (forall|i: int| 0 <= i < k ==> x[i] == q[i]) && x[k]
                < q[k];
        if k < p.len() {
            assert(x[k] == p[k] && q[k] == p[k]);
            assert(false);
        } else if k == p.len() {
            assert(x[k] < SEP_BYTE);
            assert(false);
        } else if k == p.len() + 1 {
            assert(x[p.len() as int] == q[p.len() as int]);
            assert(x[k] < SEP_BYTE);
            assert(false);
        } else {
            assert(x[p.len() as int] == q[p.len() as int]);
            assert(x[p.len() as int + 1] == q[p.len() as int + 1]);
            assert(x.subrange(0, p.len() as int) =~= p);
        }
    }
}

/// Is `parent` equal to `possible_child`, or does `possible_child` continue
/// it across a separator boundary? Decided on the byte encodings.
pub fn is_submodule(parent: &str, possible_child: &str) -> (r: bool)
    ensures
        r == is_ancestor(parent.spec_bytes(), possible_child.spec_bytes()),
{
    ancestor_bytes(parent.as_bytes(), possible_child.as_bytes())
}

/// `is_ancestor`, decided on byte slices.
pub fn ancestor_bytes(parent: &[u8], child: &[u8]) -> (r: bool)
    ensures
        r == is_ancestor(parent@, child@),
{
    if parent.len() > child.len() {
        return false;
    }
    let mut i: usize = 0;
    while i < parent.len()
        invariant
            i <= parent.len() <= child.len(),
            forall|j: int| 0 <= j < i ==> parent@[j] == child@[j],
        decreases parent.len() - i,
    {
        if parent[i] != child[i] {
            proof {
                assert(child@.subrange(0, parent@.len() as int)[i as int] == child@[i as int]);
            }
            return false;
        }
        i += 1;
    }
    proof {
        assert(child@.subrange(0, parent@.len() as int) =~= parent@);
    }
    if parent.len() == child.len() {
        return true;
    }
    if child.len() - parent.len() >= 2 {
        child[parent.len()] == SEP_BYTE && child[parent.len() + 1] == SEP_BYTE
    } else {
        false
    }
}

/// Strict lexicographic comparison of byte slices.
pub fn bytes_lt(a: &[u8], b: &[u8]) -> (r: bool)
    ensures
        r == lex_lt(a@, b@),
{
    let n: usize = if a.len() < b.len() {
        a.len()
    } else {
        b.len()
    };
    let mut i: usize = 0;
    while i < n
        invariant
            i <= n,
            n == if a@.len() < b@.len() {
                a@.len()
            } else {
                b@.len()
            },
            forall|j: int| 0 <= j < i ==> a@[j] == b@[j],
        decreases n - i,
    {
        if a[i] < b[i] {
            proof {
                lemma_lex_lt_from_diff(a@, b@, i as int);
            }
            return true;
        }
        if a[i] > b[i] {
            proof {
                lemma_lex_lt_from_diff(b@, a@, i as int);
                lemma_lex_lt_asym(b@, a@);
            }
            return false;
        }
        i += 1;
    }
    proof {
        if a@.len() < b@.len() {
            assert(b@.subrange(0, a@.len() as int) =~= a@);
            lemma_prefix_le(a@, b@);
        } else if a@.len() == b@.len() {
            assert(a@ =~= b@);
            lemma_lex_lt_irrefl(a@);
        } else {
            assert(a@.subrange(0, b@.len() as int) =~= b@);
            lemma_prefix_le(b@, a@);
            if lex_lt(b@, a@) {
                lemma_lex_lt_asym(b@, a@);
            } else {
                lemma_lex_lt_irrefl(a@);
            }
        }
    }
    a.len() < b.len()
}

/// Equality of byte slices.
pub fn bytes_eq(a: &[u8], b: &[u8]) -> (r: bool)
    ensures
        r == (a@ == b@),
{
    if a.len() != b.len() {
        return false;
    }
    let mut i: usize = 0;
    while i < a.len()
        invariant
            i <= a.len() == b.len(),
            forall|j: int| 0 <= j < i ==> a@[j] == b@[j],
        decreases a.len() - i,
    {
        if a[i] != b[i] {
            return false;
        }
        i += 1;
    }
    proof {
        assert(a@ =~= b@);
    }
    true
}

} // verus!

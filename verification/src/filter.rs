use vstd::prelude::*;

use crate::path::ancestor_bytes;
use crate::path::bytes_eq;
use crate::path::bytes_lt;
use crate::path::is_ancestor;
use crate::path::lemma_ancestor_between;
use crate::path::lemma_ancestor_extend;
use crate::path::lemma_ancestor_le;
use crate::path::lemma_ancestor_trans;
use crate::path::lemma_lex_lt_asym;
use crate::path::lemma_lex_lt_connected;
use crate::path::lemma_lex_lt_irrefl;
use crate::path::lemma_lex_lt_trans;
use crate::path::lex_lt;
use crate::path::valid_path;

verus! {

/// The byte sequences held by a vector of paths.
pub open spec fn paths_view(m: Seq<Vec<u8>>) -> Seq<Seq<u8>> {
    Seq::new(m.len(), |i: int| m[i]@)
}

/// Strictly ascending in the lexicographic byte order; entries are unique.
pub open spec fn sorted(s: Seq<Seq<u8>>) -> bool {
    forall|i: int, j: int| 0 <= i < j < s.len() ==> lex_lt(#[trigger] s[i], #[trigger] s[j])
}

/// No entry covers another: each entry names a maximal enabled subtree.
pub open spec fn antichain(s: Seq<Seq<u8>>) -> bool {
    forall|i: int, j: int|
        0 <= i < s.len() && 0 <= j < s.len() && i != j ==> !is_ancestor(
            #[trigger] s[i],
            #[trigger] s[j],
        )
}

/// Every entry is a valid path.
pub open spec fn all_valid(s: Seq<Seq<u8>>) -> bool {
    forall|i: int| 0 <= i < s.len() ==> valid_path(#[trigger] s[i])
}

/// The invariant of the enabled-prefix set.
pub open spec fn filter_inv(s: Seq<Seq<u8>>) -> bool {
    sorted(s) && antichain(s)
}

/// Where `p` would be inserted to keep `s` sorted: the number of leading
/// entries that sort before `p`.
pub open spec fn lower_bound(s: Seq<Seq<u8>>, p: Seq<u8>) -> int
    decreases s.len(),
{
    if s.len() == 0 {
        0
    } else if lex_lt(s[0], p) {
        1 + lower_bound(s.drop_first(), p)
    } else {
        0
    }
}

/// How many consecutive entries from position `i` on are covered by `p`.
pub open spec fn run_len(s: Seq<Seq<u8>>, p: Seq<u8>, i: int) -> int
    decreases s.len() - i,
{
    if i < 0 || i >= s.len() {
        0
    } else if is_ancestor(p, s[i]) {
        1 + run_len(s, p, i + 1)
    } else {
        0
    }
}

/// Does the set cover the queried path? An empty set covers everything;
/// otherwise the query is covered exactly when an ordered search finds it,
/// or finds a covering entry immediately before its insertion position.
pub open spec fn spec_includes(s: Seq<Seq<u8>>, q: Seq<u8>) -> bool {
    let i = lower_bound(s, q);
    if s.len() == 0 {
        true
    } else if i < s.len() && s[i] == q {
        true
    } else if i == 0 {
        false
    } else {
        is_ancestor(s[i - 1], q)
    }
}

/// The set after inserting `p`: unchanged when an ordered search finds `p`
/// itself or a covering entry immediately before its insertion position;
/// otherwise `p` goes in at that position and the consecutive run of
/// entries it covers comes out.
pub open spec fn spec_insert(s: Seq<Seq<u8>>, p: Seq<u8>) -> Seq<Seq<u8>> {
    let i = lower_bound(s, p);
    if i < s.len() && s[i] == p {
        s
    } else if i > 0 && is_ancestor(s[i - 1], p) {
        s
    } else {
        s.subrange(0, i) + seq![p] + s.subrange(i + run_len(s, p, i), s.len() as int)
    }
}

/// The set after inserting each path of `ps` in order.
pub open spec fn spec_insert_all(s: Seq<Seq<u8>>, ps: Seq<Seq<u8>>) -> Seq<Seq<u8>>
    decreases ps.len(),
{
    if ps.len() == 0 {
        s
    } else {
        spec_insert_all(spec_insert(s, ps[0]), ps.drop_first())
    }
}

pub proof fn lemma_sorted_drop(s: Seq<Seq<u8>>)
    requires
        sorted(s),
        s.len() > 0,
    ensures
        sorted(s.drop_first()),
{
    assert forall|i: int, j: int|
        0 <= i < j < s.drop_first().len() implies lex_lt(
        #[trigger] s.drop_first()[i],
        #[trigger] s.drop_first()[j],
    ) by {
        assert(s.drop_first()[i] == s[i + 1] && s.drop_first()[j] == s[j + 1]);
    }
}

/// The insertion position splits a sorted set: strictly smaller entries
/// before it, the rest at or after it.
pub proof fn lemma_lower_bound(s: Seq<Seq<u8>>, p: Seq<u8>)
    requires
        sorted(s),
    ensures
        0 <= lower_bound(s, p) <= s.len(),
        forall|j: int| 0 <= j < lower_bound(s, p) ==> lex_lt(#[trigger] s[j], p),
        forall|j: int| lower_bound(s, p) <= j < s.len() ==> !lex_lt(#[trigger] s[j], p),
    decreases s.len(),
{
    if s.len() == 0 {
    } else if lex_lt(s[0], p) {
        lemma_sorted_drop(s);
        lemma_lower_bound(s.drop_first(), p);
        let lb = lower_bound(s, p);
        assert forall|j: int| 0 <= j < lb implies lex_lt(#[trigger] s[j], p) by {
            if j >= 1 {
                assert(s[j] == s.drop_first()[j - 1]);
            }
        }
        assert forall|j: int| lb <= j < s.len() implies !lex_lt(#[trigger] s[j], p) by {
            assert(s[j] == s.drop_first()[j - 1]);
        }
    } else {
        assert forall|j: int| 0 <= j < s.len() implies !lex_lt(#[trigger] s[j], p) by {
            if j > 0 && lex_lt(s[j], p) {
                lemma_lex_lt_trans(s[0], s[j], p);
            }
        }
    }
}

/// The insertion position is pinned by its characterization.
pub proof fn lemma_lower_bound_unique(s: Seq<Seq<u8>>, p: Seq<u8>, i: int)
    requires
        sorted(s),
        0 <= i <= s.len(),
        forall|j: int| 0 <= j < i ==> lex_lt(#[trigger] s[j], p),
        forall|j: int| i <= j < s.len() ==> !lex_lt(#[trigger] s[j], p),
    ensures
        lower_bound(s, p) == i,
{
    lemma_lower_bound(s, p);
    let lb = lower_bound(s, p);
    if lb < i {
        assert(lex_lt(s[lb], p));
        assert(!lex_lt(s[lb], p));
    } else if lb > i {
        assert(lex_lt(s[i], p));
        assert(!lex_lt(s[i], p));
    }
}

/// The covered run from position `i`: covered entries up to its end, then
/// either the set's end or an entry that is not covered.
pub proof fn lemma_run_len(s: Seq<Seq<u8>>, p: Seq<u8>, i: int)
    requires
        0 <= i <= s.len(),
    ensures
        i <= i + run_len(s, p, i) <= s.len(),
        forall|j: int| i <= j < i + run_len(s, p, i) ==> is_ancestor(p, #[trigger] s[j]),
        i + run_len(s, p, i) == s.len() || !is_ancestor(p, s[i + run_len(s, p, i)]),
    decreases s.len() - i,
{
    if i < s.len() && is_ancestor(p, s[i]) {
        lemma_run_len(s, p, i + 1);
    }
}

/// Ordered search for the insertion position of `p`.
fn find_index(modules: &Vec<Vec<u8>>, p: &[u8]) -> (r: usize)
    requires
        sorted(paths_view(modules@)),
    ensures
        r <= modules@.len(),
        r == lower_bound(paths_view(modules@), p@),
{
    let ghost s = paths_view(modules@);
    let mut lo: usize = 0;
    let mut hi: usize = modules.len();
    while lo < hi
        invariant
            lo <= hi <= modules@.len(),
            s == paths_view(modules@),
            sorted(s),
            forall|j: int| 0 <= j < lo ==> lex_lt(#[trigger] s[j], p@),
            forall|j: int| hi <= j < modules@.len() ==> !lex_lt(#[trigger] s[j], p@),
        decreases hi - lo,
    {
        let mid = lo + (hi - lo) / 2;
        if bytes_lt(modules[mid].as_slice(), p) {
            proof {
                assert(s[mid as int] == modules@[mid as int]@);
                assert forall|j: int| 0 <= j < mid + 1 implies lex_lt(#[trigger] s[j], p@) by {
                    if j < mid {
                        assert(lex_lt(s[j], s[mid as int]));
                        lemma_lex_lt_trans(s[j], s[mid as int], p@);
                    }
                }
            }
            lo = mid + 1;
        } else {
            proof {
                assert(s[mid as int] == modules@[mid as int]@);
                assert forall|j: int| mid <= j < modules@.len() implies !lex_lt(
                    #[trigger] s[j],
                    p@,
                ) by {
                    if j > mid && lex_lt(s[j], p@) {
                        assert(lex_lt(s[mid as int], s[j]));
                        lemma_lex_lt_trans(s[mid as int], s[j], p@);
                    }
                }
            }
            hi = mid;
        }
    }
    proof {
        lemma_lower_bound_unique(s, p@, lo as int);
    }
    lo
}

/// Is the queried path covered by the set? An empty set covers everything.
pub fn includes_path(modules: &Vec<Vec<u8>>, query: &[u8]) -> (r: bool)
    requires
        sorted(paths_view(modules@)),
    ensures
        r == spec_includes(paths_view(modules@), query@),
{
    let ghost s = paths_view(modules@);
    if modules.len() == 0 {
        return true;
    }
    let i = find_index(modules, query);
    if i < modules.len() {
        if bytes_eq(modules[i].as_slice(), query) {
            proof {
                assert(s[i as int] == modules@[i as int]@);
            }
            return true;
        }
    }
    proof {
        assert(i < s.len() ==> s[i as int] != query@);
    }
    if i == 0 {
        return false;
    }
    let r = ancestor_bytes(modules[i - 1].as_slice(), query);
    proof {
        assert(s[i - 1] == modules@[i - 1]@);
    }
    r
}

/// Insert `p`, keeping the set sorted and minimal: a no-op when the path
/// itself or a covering entry is found; otherwise the consecutive run of
/// entries the path covers comes out and the path goes in at its position.
pub fn insert_path(modules: &mut Vec<Vec<u8>>, path: Vec<u8>)
    requires
        sorted(paths_view(old(modules)@)),
    ensures
        paths_view(final(modules)@) == spec_insert(paths_view(old(modules)@), path@),
        sorted(paths_view(final(modules)@)),
{
    let ghost s0 = paths_view(old(modules)@);
    proof {
        lemma_lower_bound(s0, path@);
        lemma_insert_sorted(s0, path@);
    }
    let i = find_index(modules, path.as_slice());
    if i < modules.len() {
        if bytes_eq(modules[i].as_slice(), path.as_slice()) {
            proof {
                assert(s0[i as int] == modules@[i as int]@);
            }
            return;
        }
    }
    proof {
        assert(i < s0.len() ==> s0[i as int] != path@);
    }
    if i > 0 {
        if ancestor_bytes(modules[i - 1].as_slice(), path.as_slice()) {
            proof {
                assert(s0[i - 1] == modules@[i - 1]@);
            }
            return;
        }
        proof {
            assert(s0[i - 1] == modules@[i - 1]@);
        }
    }
    proof {
        lemma_run_len(s0, path@, i as int);
        assert(paths_view(modules@) =~= s0.subrange(0, i as int) + s0.subrange(
            i as int,
            s0.len() as int,
        ));
    }
    let ghost mut k: int = 0;
    loop
        invariant
            0 <= k,
            i + k <= s0.len(),
            sorted(s0),
            i as int == lower_bound(s0, path@),
            paths_view(modules@) == s0.subrange(0, i as int) + s0.subrange(
                i + k,
                s0.len() as int,
            ),
            forall|j: int| i <= j < i + k ==> is_ancestor(path@, #[trigger] s0[j]),
        ensures
            0 <= k,
            i + k <= s0.len(),
            paths_view(modules@) == s0.subrange(0, i as int) + s0.subrange(
                i + k,
                s0.len() as int,
            ),
            forall|j: int| i <= j < i + k ==> is_ancestor(path@, #[trigger] s0[j]),
            i + k == s0.len() || !is_ancestor(path@, s0[i + k]),
        decreases s0.len() - i - k,
    {
        proof {
            assert(paths_view(modules@).len() == s0.len() - k);
        }
        if i >= modules.len() {
            break ;
        }
        proof {
            assert(paths_view(modules@)[i as int] == modules@[i as int]@);
            assert(paths_view(modules@)[i as int] == s0[i + k]);
        }
        if !ancestor_bytes(path.as_slice(), modules[i].as_slice()) {
            break ;
        }
        let ghost m_old = modules@;
        modules.remove(i);
        proof {
            assert(modules@ == m_old.remove(i as int));
            m_old.remove_ensures(i as int);
            k = k + 1;
            assert forall|j: int|
                0 <= j < paths_view(modules@).len() implies paths_view(modules@)[j] == (
            s0.subrange(0, i as int) + s0.subrange(i + k, s0.len() as int))[j] by {
                if j < i {
                    assert(modules@[j] == m_old[j]);
                    assert(paths_view(m_old)[j] == m_old[j]@);
                } else {
                    assert(modules@[j] == m_old[j + 1]);
                    assert(paths_view(m_old)[j + 1] == m_old[j + 1]@);
                }
            }
            assert(paths_view(modules@) =~= s0.subrange(0, i as int) + s0.subrange(
                i + k,
                s0.len() as int,
            ));
        }
    }
    proof {
        let run = run_len(s0, path@, i as int);
        if k < run {
            assert(is_ancestor(path@, s0[i + k]));
            assert(i + k < s0.len());
            assert(false);
        }
        if k > run {
            assert(i + run < i + k);
            assert(is_ancestor(path@, s0[i + run]));
            assert(false);
        }
        assert(k == run);
    }
    let ghost m_before = modules@;
    modules.insert(i, path);
    proof {
        assert(modules@ == m_before.insert(i as int, path));
        m_before.insert_ensures(i as int, path);
        let target = s0.subrange(0, i as int) + seq![path@] + s0.subrange(
            i + run_len(s0, path@, i as int),
            s0.len() as int,
        );
        assert forall|j: int|
            0 <= j < paths_view(modules@).len() implies paths_view(modules@)[j] == target[j] by {
            if j < i {
                assert(modules@[j] == m_before[j]);
                assert(paths_view(m_before)[j] == m_before[j]@);
            } else if j == i {
                assert(modules@[j] == path);
            } else {
                assert(modules@[j] == m_before[j - 1]);
                assert(paths_view(m_before)[j - 1] == m_before[j - 1]@);
            }
        }
        assert(paths_view(modules@).len() == target.len());
        assert(paths_view(modules@) =~= target);
    }
}

/// Entries at or after the insertion position sort strictly after a path
/// that is not itself in the set.
proof fn lemma_after_insertion_point(s: Seq<Seq<u8>>, p: Seq<u8>)
    requires
        sorted(s),
        !(lower_bound(s, p) < s.len() && s[lower_bound(s, p)] == p),
    ensures
        forall|j: int| lower_bound(s, p) <= j < s.len() ==> lex_lt(p, #[trigger] s[j]),
{
    lemma_lower_bound(s, p);
    let i = lower_bound(s, p);
    assert forall|j: int| i <= j < s.len() implies lex_lt(p, #[trigger] s[j]) by {
        lemma_lex_lt_connected(p, s[j]);
        if p == s[j] {
            if j == i {
                assert(false);
            } else {
                assert(lex_lt(s[i], s[j]));
                assert(!lex_lt(s[i], p));
                assert(false);
            }
        } else if lex_lt(s[j], p) {
            assert(false);
        }
    }
}

/// Inserting keeps the set sorted.
pub proof fn lemma_insert_sorted(s: Seq<Seq<u8>>, p: Seq<u8>)
    requires
        sorted(s),
    ensures
        sorted(spec_insert(s, p)),
{
    lemma_lower_bound(s, p);
    let i = lower_bound(s, p);
    lemma_run_len(s, p, i);
    let r = run_len(s, p, i);
    let t = spec_insert(s, p);
    if i < s.len() && s[i] == p {
    } else if i > 0 && is_ancestor(s[i - 1], p) {
    } else {
        lemma_after_insertion_point(s, p);
        assert forall|a: int, b: int| 0 <= a < b < t.len() implies lex_lt(
            #[trigger] t[a],
            #[trigger] t[b],
        ) by {
            assert(t.len() == i + 1 + (s.len() - (i + r)));
            if a < i {
                assert(t[a] == s[a]);
            } else if a == i {
                assert(t[a] == p);
            } else {
                assert(t[a] == s[a - 1 + r]);
            }
            if b < i {
                assert(t[b] == s[b]);
            } else if b == i {
                assert(t[b] == p);
            } else {
                assert(t[b] == s[b - 1 + r]);
            }
        }
    }
}

/// What inserting does to the contents, on a well-formed set of valid
/// paths: a covered path changes nothing, and otherwise the new set holds
/// the inserted path and exactly the old entries it does not cover. The
/// well-formedness and validity of the set are kept either way.
pub proof fn lemma_insert_contents(s: Seq<Seq<u8>>, p: Seq<u8>)
    requires
        filter_inv(s),
        all_valid(s),
        valid_path(p),
    ensures
        filter_inv(spec_insert(s, p)),
        all_valid(spec_insert(s, p)),
        (spec_insert(s, p) == s) <==> (exists|j: int|
            0 <= j < s.len() && is_ancestor(#[trigger] s[j], p)),
        !(exists|j: int| 0 <= j < s.len() && is_ancestor(#[trigger] s[j], p)) ==> (forall|
            x: Seq<u8>,
        |
            #[trigger] spec_insert(s, p).contains(x) <==> (x == p || (s.contains(x)
                && !is_ancestor(p, x)))),
{
    lemma_insert_sorted(s, p);
    lemma_lower_bound(s, p);
    let i = lower_bound(s, p);
    lemma_run_len(s, p, i);
    let r = run_len(s, p, i);
    let t = spec_insert(s, p);
    lemma_ancestor_extend(p, Seq::empty());
    if i < s.len() && s[i] == p {
        assert(is_ancestor(s[i], p));
    } else if i > 0 && is_ancestor(s[i - 1], p) {
    } else {
        // No entry covers p.
        assert forall|j: int| 0 <= j < s.len() implies !is_ancestor(#[trigger] s[j], p) by {
            if is_ancestor(s[j], p) {
                lemma_ancestor_le(s[j], p);
                if s[j] == p {
                    lemma_lex_lt_irrefl(p);
                    if j > i {
                        assert(lex_lt(s[i], s[j]));
                        assert(!lex_lt(s[i], p));
                    }
                    assert(false);
                } else {
                    assert(lex_lt(s[j], p));
                    assert(j < i);
                    if j < i - 1 {
                        assert(lex_lt(s[j], s[i - 1]));
                        assert(lex_lt(s[i - 1], p));
                        lemma_ancestor_between(s[j], s[i - 1], p);
                    }
                    assert(false);
                }
            }
        }
        // The result differs from s.
        if i < s.len() {
            assert(t[i] == p);
            assert(s[i] != p);
        } else {
            assert(r == 0);
            assert(t.len() == s.len() + 1);
        }
        assert(t != s);
        lemma_after_insertion_point(s, p);
        // No kept entry is covered by p.
        assert forall|j: int|
            (0 <= j < i || i + r <= j < s.len()) implies !is_ancestor(
            p,
            #[trigger] s[j],
        ) by {
            if is_ancestor(p, s[j]) {
                lemma_ancestor_le(p, s[j]);
                if j < i {
                    assert(lex_lt(s[j], p));
                    if p == s[j] {
                        lemma_lex_lt_irrefl(p);
                    } else {
                        lemma_lex_lt_asym(p, s[j]);
                    }
                    assert(false);
                } else {
                    if j == i + r {
                        assert(!is_ancestor(p, s[i + r]));
                    } else {
                        assert(lex_lt(p, s[i + r]));
                        assert(lex_lt(s[i + r], s[j]));
                        lemma_ancestor_between(p, s[i + r], s[j]);
                    }
                    assert(false);
                }
            }
        }
        // Index mapping of the result.
        assert(t.len() == i + 1 + (s.len() - (i + r)));
        assert forall|j: int| 0 <= j < t.len() implies #[trigger] t[j] == (if j < i {
            s[j]
        } else if j == i {
            p
        } else {
            s[j - 1 + r]
        }) by {}
        // Contents.
        assert forall|x: Seq<u8>|
            #[trigger] t.contains(x) <==> (x == p || (s.contains(x) && !is_ancestor(p, x))) by {
            if t.contains(x) {
                let idx = choose|idx: int| 0 <= idx < t.len() && t[idx] == x;
                if idx < i {
                    assert(s[idx] == x);
                    assert(s.contains(x));
                } else if idx > i {
                    assert(s[idx - 1 + r] == x);
                    assert(s.contains(x));
                }
            }
            if x == p {
                assert(t[i] == x);
                assert(t.contains(x));
            } else if s.contains(x) && !is_ancestor(p, x) {
                let idx = choose|idx: int| 0 <= idx < s.len() && s[idx] == x;
                if idx < i {
                    assert(t[idx] == x);
                    assert(t.contains(x));
                } else if idx < i + r {
                    assert(is_ancestor(p, s[idx]));
                    assert(false);
                } else {
                    assert(t[idx + 1 - r] == x);
                    assert(t.contains(x));
                }
            }
        }
        // The result is still an antichain of valid paths.
        assert forall|a: int, b: int|
            0 <= a < t.len() && 0 <= b < t.len() && a != b implies !is_ancestor(
            #[trigger] t[a],
            #[trigger] t[b],
        ) by {
            if a != i && b != i {
                let ja: int = if a < i {
                    a
                } else {
                    a - 1 + r
                };
                let jb: int = if b < i {
                    b
                } else {
                    b - 1 + r
                };
                assert(t[a] == s[ja] && t[b] == s[jb]);
                assert(ja != jb);
            } else if a == i {
                let jb: int = if b < i {
                    b
                } else {
                    b - 1 + r
                };
                assert(t[b] == s[jb]);
                assert(!is_ancestor(p, s[jb]));
            } else {
                let ja: int = if a < i {
                    a
                } else {
                    a - 1 + r
                };
                assert(t[a] == s[ja]);
                assert(!is_ancestor(s[ja], p));
            }
        }
        assert(all_valid(t)) by {
            assert forall|j: int| 0 <= j < t.len() implies valid_path(#[trigger] t[j]) by {
                if j != i {
                    let jj: int = if j < i {
                        j
                    } else {
                        j - 1 + r
                    };
                    assert(t[j] == s[jj]);
                }
            }
        }
    }
}

/// The answer of `spec_includes` on a well-formed set of valid paths is
/// exactly "some entry covers the query". Together with the empty-set
/// default this pins the inclusion test down.
pub proof fn lemma_includes_exact(s: Seq<Seq<u8>>, q: Seq<u8>)
    requires
        filter_inv(s),
        all_valid(s),
        s.len() > 0,
    ensures
        spec_includes(s, q) <==> (exists|j: int|
            0 <= j < s.len() && is_ancestor(#[trigger] s[j], q)),
{
    lemma_lower_bound(s, q);
    let i = lower_bound(s, q);
    lemma_ancestor_extend(q, Seq::empty());
    if spec_includes(s, q) {
        if i < s.len() && s[i] == q {
            assert(is_ancestor(s[i], q));
        } else {
            assert(is_ancestor(s[i - 1], q));
        }
    }
    if exists|j: int| 0 <= j < s.len() && is_ancestor(#[trigger] s[j], q) {
        let j = choose|j: int| 0 <= j < s.len() && is_ancestor(#[trigger] s[j], q);
        lemma_ancestor_le(s[j], q);
        if !(i < s.len() && s[i] == q) {
            if s[j] == q {
                lemma_lex_lt_irrefl(q);
                assert(j >= i);
                if j > i {
                    assert(lex_lt(s[i], s[j]));
                    assert(!lex_lt(s[i], q));
                    assert(false);
                }
                assert(false);
            } else {
                assert(lex_lt(s[j], q));
                assert(j < i);
                if j < i - 1 {
                    assert(lex_lt(s[j], s[i - 1]));
                    assert(lex_lt(s[i - 1], q));
                    lemma_ancestor_between(s[j], s[i - 1], q);
                    assert(false);
                }
                assert(is_ancestor(s[i - 1], q));
            }
        }
    }
}

/// Inserting a path twice leaves the same set as inserting it once.
pub proof fn lemma_insert_idempotent(s: Seq<Seq<u8>>, p: Seq<u8>)
    requires
        sorted(s),
    ensures
        spec_insert(spec_insert(s, p), p) == spec_insert(s, p),
{
    lemma_lower_bound(s, p);
    let i = lower_bound(s, p);
    lemma_run_len(s, p, i);
    let r = run_len(s, p, i);
    let t = spec_insert(s, p);
    lemma_insert_sorted(s, p);
    if i < s.len() && s[i] == p {
    } else if i > 0 && is_ancestor(s[i - 1], p) {
    } else {
        lemma_lex_lt_irrefl(p);
        assert forall|j: int| 0 <= j < i implies lex_lt(#[trigger] t[j], p) by {
            assert(t[j] == s[j]);
        }
        assert forall|j: int| i <= j < t.len() implies !lex_lt(#[trigger] t[j], p) by {
            if j == i {
                assert(t[j] == p);
            } else {
                assert(t[j] == s[j - 1 + r]);
            }
        }
        lemma_lower_bound_unique(t, p, i);
        assert(t[i] == p);
    }
}

/// Inserting any sequence of valid paths into a well-formed set of valid
/// paths leaves a well-formed set of valid paths: in particular no entry
/// of the result covers another.
pub proof fn lemma_insert_all_inv(s: Seq<Seq<u8>>, ps: Seq<Seq<u8>>)
    requires
        filter_inv(s),
        all_valid(s),
        forall|j: int| 0 <= j < ps.len() ==> valid_path(#[trigger] ps[j]),
    ensures
        filter_inv(spec_insert_all(s, ps)),
        all_valid(spec_insert_all(s, ps)),
    decreases ps.len(),
{
    if ps.len() > 0 {
        lemma_insert_contents(s, ps[0]);
        assert(forall|j: int|
            0 <= j < ps.drop_first().len() ==> valid_path(#[trigger] ps.drop_first()[j]));
        lemma_insert_all_inv(spec_insert(s, ps[0]), ps.drop_first());
    }
}

/// After inserting a valid path into a well-formed set of valid paths,
/// the path itself and each of its descendants is included.
pub proof fn lemma_insert_then_includes(s: Seq<Seq<u8>>, p: Seq<u8>, q: Seq<u8>)
    requires
        filter_inv(s),
        all_valid(s),
        valid_path(p),
        is_ancestor(p, q),
    ensures
        spec_includes(spec_insert(s, p), q),
{
    lemma_insert_contents(s, p);
    let t = spec_insert(s, p);
    if exists|j: int| 0 <= j < s.len() && is_ancestor(#[trigger] s[j], p) {
        let j = choose|j: int| 0 <= j < s.len() && is_ancestor(#[trigger] s[j], p);
        lemma_ancestor_trans(s[j], p, q);
        lemma_includes_exact(s, q);
        assert(t == s);
    } else {
        assert(t.contains(p));
        let j = choose|j: int| 0 <= j < t.len() && t[j] == p;
        lemma_includes_exact(t, q);
        assert(is_ancestor(t[j], q));
    }
}

/// Inserting a valid path never removes coverage from a nonempty
/// well-formed set: whatever it covered, it covers afterwards. (The empty
/// set is the "everything enabled" sentinel, and the first insertion
/// deliberately leaves that state, so it is excluded here.)
pub proof fn lemma_insert_keeps_coverage(s: Seq<Seq<u8>>, p: Seq<u8>, q: Seq<u8>)
    requires
        filter_inv(s),
        all_valid(s),
        valid_path(p),
        s.len() > 0,
        spec_includes(s, q),
    ensures
        spec_includes(spec_insert(s, p), q),
{
    lemma_includes_exact(s, q);
    lemma_insert_contents(s, p);
    let t = spec_insert(s, p);
    let j = choose|j: int| 0 <= j < s.len() && is_ancestor(#[trigger] s[j], q);
    if t == s {
    } else {
        assert(t.contains(p));
        assert(t.len() > 0);
        lemma_includes_exact(t, q);
        if is_ancestor(p, s[j]) {
            lemma_ancestor_trans(p, s[j], q);
            let w = choose|w: int| 0 <= w < t.len() && t[w] == p;
            assert(is_ancestor(t[w], q));
        } else {
            assert(s.contains(s[j]));
            assert(t.contains(s[j]));
            let w = choose|w: int| 0 <= w < t.len() && t[w] == s[j];
            assert(is_ancestor(t[w], q));
        }
    }
}

/// The result of an insertion is never empty.
pub proof fn lemma_insert_nonempty(s: Seq<Seq<u8>>, p: Seq<u8>)
    requires
        sorted(s),
    ensures
        spec_insert(s, p).len() > 0,
{
    lemma_lower_bound(s, p);
    lemma_run_len(s, p, lower_bound(s, p));
}

/// A whole sequence of valid insertions never removes coverage from a
/// nonempty well-formed set.
pub proof fn lemma_insert_all_keeps(s: Seq<Seq<u8>>, ps: Seq<Seq<u8>>, q: Seq<u8>)
    requires
        filter_inv(s),
        all_valid(s),
        forall|j: int| 0 <= j < ps.len() ==> valid_path(#[trigger] ps[j]),
        s.len() > 0,
        spec_includes(s, q),
    ensures
        spec_includes(spec_insert_all(s, ps), q),
    decreases ps.len(),
{
    if ps.len() > 0 {
        lemma_insert_keeps_coverage(s, ps[0], q);
        lemma_insert_contents(s, ps[0]);
        lemma_insert_nonempty(s, ps[0]);
        assert(forall|j: int|
            0 <= j < ps.drop_first().len() ==> valid_path(#[trigger] ps.drop_first()[j]));
        lemma_insert_all_keeps(spec_insert(s, ps[0]), ps.drop_first(), q);
    }
}

/// After any sequence of valid insertions, each inserted path and each of
/// its descendants is included.
pub proof fn lemma_insert_all_covers(s: Seq<Seq<u8>>, ps: Seq<Seq<u8>>, idx: int, q: Seq<u8>)
    requires
        filter_inv(s),
        all_valid(s),
        forall|j: int| 0 <= j < ps.len() ==> valid_path(#[trigger] ps[j]),
        0 <= idx < ps.len(),
        is_ancestor(ps[idx], q),
    ensures
        spec_includes(spec_insert_all(s, ps), q),
    decreases ps.len(),
{
    lemma_insert_contents(s, ps[0]);
    assert(forall|j: int|
        0 <= j < ps.drop_first().len() ==> valid_path(#[trigger] ps.drop_first()[j]));
    if idx == 0 {
        lemma_insert_then_includes(s, ps[0], q);
        lemma_insert_nonempty(s, ps[0]);
        lemma_insert_all_keeps(spec_insert(s, ps[0]), ps.drop_first(), q);
    } else {
        assert(ps.drop_first()[idx - 1] == ps[idx]);
        lemma_insert_all_covers(spec_insert(s, ps[0]), ps.drop_first(), idx - 1, q);
    }
}

/// Every entry of the grown set was already there or is one of the
/// inserted paths.
pub proof fn lemma_insert_all_entries(s: Seq<Seq<u8>>, ps: Seq<Seq<u8>>)
    requires
        filter_inv(s),
        all_valid(s),
        forall|j: int| 0 <= j < ps.len() ==> valid_path(#[trigger] ps[j]),
    ensures
        forall|x: Seq<u8>|
            #[trigger] spec_insert_all(s, ps).contains(x) ==> s.contains(x) || ps.contains(x),
    decreases ps.len(),
{
    if ps.len() > 0 {
        lemma_insert_contents(s, ps[0]);
        assert(forall|j: int|
            0 <= j < ps.drop_first().len() ==> valid_path(#[trigger] ps.drop_first()[j]));
        lemma_insert_all_entries(spec_insert(s, ps[0]), ps.drop_first());
        assert(spec_insert_all(s, ps) == spec_insert_all(spec_insert(s, ps[0]), ps.drop_first()));
        assert forall|x: Seq<u8>|
            #[trigger] spec_insert_all(s, ps).contains(x) implies s.contains(x) || ps.contains(
            x,
        ) by {
            assert(spec_insert_all(spec_insert(s, ps[0]), ps.drop_first()).contains(x));
            assert(spec_insert(s, ps[0]).contains(x) || ps.drop_first().contains(x));
            if spec_insert(s, ps[0]).contains(x) {
                if spec_insert(s, ps[0]) == s {
                    assert(s.contains(x));
                } else if x == ps[0] {
                    assert(ps.contains(x));
                } else {
                    assert(s.contains(x));
                }
            } else {
                let w = choose|w: int| 0 <= w < ps.drop_first().len() && ps.drop_first()[w] == x;
                assert(ps[w + 1] == x);
                assert(ps.contains(x));
            }
        }
    }
}

/// On a set grown from the empty sentinel by valid insertions, a query
/// that none of the inserted paths covers is not included.
pub proof fn lemma_insert_all_unrelated(ps: Seq<Seq<u8>>, q: Seq<u8>)
    requires
        ps.len() > 0,
        forall|j: int| 0 <= j < ps.len() ==> valid_path(#[trigger] ps[j]),
        forall|j: int| 0 <= j < ps.len() ==> !is_ancestor(#[trigger] ps[j], q),
    ensures
        !spec_includes(spec_insert_all(Seq::<Seq<u8>>::empty(), ps), q),
{
    let s0 = Seq::<Seq<u8>>::empty();
    let t = spec_insert_all(s0, ps);
    lemma_insert_all_inv(s0, ps);
    lemma_insert_all_entries(s0, ps);
    lemma_insert_contents(s0, ps[0]);
    lemma_insert_nonempty(s0, ps[0]);
    assert(forall|j: int|
        0 <= j < ps.drop_first().len() ==> valid_path(#[trigger] ps.drop_first()[j]));
    lemma_insert_all_keeps_nonempty(spec_insert(s0, ps[0]), ps.drop_first());
    assert(spec_insert_all(s0, ps) == spec_insert_all(spec_insert(s0, ps[0]), ps.drop_first()));
    lemma_includes_exact(t, q);
    if spec_includes(t, q) {
        let j = choose|j: int| 0 <= j < t.len() && is_ancestor(#[trigger] t[j], q);
        assert(t.contains(t[j]));
        assert(ps.contains(t[j]));
        let w = choose|w: int| 0 <= w < ps.len() && ps[w] == t[j];
        assert(!is_ancestor(ps[w], q));
        assert(false);
    }
}

/// A nonempty well-formed set stays nonempty under any insertions.
proof fn lemma_insert_all_keeps_nonempty(s: Seq<Seq<u8>>, ps: Seq<Seq<u8>>)
    requires
        filter_inv(s),
        all_valid(s),
        forall|j: int| 0 <= j < ps.len() ==> valid_path(#[trigger] ps[j]),
        s.len() > 0,
    ensures
        spec_insert_all(s, ps).len() > 0,
    decreases ps.len(),
{
    if ps.len() > 0 {
        lemma_insert_contents(s, ps[0]);
        lemma_insert_nonempty(s, ps[0]);
        assert(forall|j: int|
            0 <= j < ps.drop_first().len() ==> valid_path(#[trigger] ps.drop_first()[j]));
        lemma_insert_all_keeps_nonempty(spec_insert(s, ps[0]), ps.drop_first());
    }
}

/// Folding one more path onto a sequence of insertions.
pub proof fn lemma_insert_all_push(s: Seq<Seq<u8>>, ps: Seq<Seq<u8>>, p: Seq<u8>)
    ensures
        spec_insert_all(s, ps.push(p)) == spec_insert(spec_insert_all(s, ps), p),
    decreases ps.len(),
{
    if ps.len() == 0 {
        assert(ps.push(p)[0] == p);
        assert(ps.push(p).drop_first() =~= Seq::<Seq<u8>>::empty());
        assert(spec_insert_all(s, ps.push(p)) == spec_insert_all(
            spec_insert(s, p),
            ps.push(p).drop_first(),
        ));
        assert(spec_insert_all(spec_insert(s, p), ps.push(p).drop_first()) == spec_insert(s, p));
        assert(spec_insert_all(s, ps) == s);
    } else {
        assert(ps.push(p)[0] == ps[0]);
        assert(ps.push(p).drop_first() =~= ps.drop_first().push(p));
        lemma_insert_all_push(spec_insert(s, ps[0]), ps.drop_first(), p);
        assert(spec_insert_all(s, ps.push(p)) == spec_insert_all(
            spec_insert(s, ps[0]),
            ps.drop_first().push(p),
        ));
        assert(spec_insert_all(s, ps) == spec_insert_all(spec_insert(s, ps[0]), ps.drop_first()));
    }
}

} // verus!

//! Ordering of labelled totals: larger totals first, ties by label in
//! ascending character order (the order in which `String`s compare).
use vstd::prelude::*;

verus! {

/// `a` comes strictly before `b` in lexicographic order of code points.
pub open spec fn chars_less(a: Seq<char>, b: Seq<char>) -> bool
    decreases a.len(),
{
    if a.len() == 0 {
        b.len() > 0
    } else if b.len() == 0 {
        false
    } else if a[0] != b[0] {
        a[0] < b[0]
    } else {
        chars_less(a.drop_first(), b.drop_first())
    }
}

/// Nothing comes before itself.
pub proof fn lemma_chars_less_irreflexive(a: Seq<char>)
    ensures
        !chars_less(a, a),
    decreases a.len(),
{
    if a.len() > 0 {
        lemma_chars_less_irreflexive(a.drop_first());
    }
}

/// Of two different strings, one comes before the other, and not both ways.
pub proof fn lemma_chars_less_total(a: Seq<char>, b: Seq<char>)
    ensures
        a != b ==> (chars_less(a, b) || chars_less(b, a)),
        !(chars_less(a, b) && chars_less(b, a)),
    decreases a.len(),
{
    if a.len() > 0 && b.len() > 0 {
        if a[0] == b[0] {
            lemma_chars_less_total(a.drop_first(), b.drop_first());
            if a != b {
                assert(a.drop_first() != b.drop_first()) by {
                    if a.drop_first() == b.drop_first() {
                        assert forall|i: int| 0 <= i < a.len() implies a[i] == b[i] by {
                            if i > 0 {
                                assert(a[i] == a.drop_first()[i - 1]);
                                assert(b[i] == b.drop_first()[i - 1]);
                            }
                        }
                        assert(a =~= b);
                    }
                }
            }
        }
    } else if a.len() == 0 && b.len() == 0 {
        assert(a =~= b);
    }
}

/// The order is transitive.
pub proof fn lemma_chars_less_transitive(a: Seq<char>, b: Seq<char>, c: Seq<char>)
    requires
        chars_less(a, b),
        chars_less(b, c),
    ensures
        chars_less(a, c),
    decreases a.len(),
{
    if a.len() > 0 && b.len() > 0 && c.len() > 0 {
        if a[0] == b[0] && b[0] == c[0] {
            lemma_chars_less_transitive(a.drop_first(), b.drop_first(), c.drop_first());
        }
    }
}

/// Compares two strings, given by their characters.
pub fn chars_less_exec(a: &Vec<char>, b: &Vec<char>) -> (r: bool)
    ensures
        r == chars_less(a@, b@),
{
    let mut i: usize = 0;
    proof {
        assert(a@.skip(0) =~= a@);
        assert(b@.skip(0) =~= b@);
    }
    while i < a.len() && i < b.len() && a[i] == b[i]
        invariant
            i <= a@.len(),
            i <= b@.len(),
            a@.take(i as int) == b@.take(i as int),
            chars_less(a@, b@) == chars_less(a@.skip(i as int), b@.skip(i as int)),
        decreases a@.len() - i,
    {
        proof {
            let sa = a@.skip(i as int);
            let sb = b@.skip(i as int);
            assert(sa.drop_first() =~= a@.skip(i + 1));
            assert(sb.drop_first() =~= b@.skip(i + 1));
            assert(a@.take(i + 1) =~= a@.take(i as int).push(a@[i as int]));
            assert(b@.take(i + 1) =~= b@.take(i as int).push(b@[i as int]));
        }
        i = i + 1;
    }
    if i == a.len() {
        i < b.len()
    } else if i == b.len() {
        false
    } else {
        a[i] < b[i]
    }
}

/// Entry `i` ranks before entry `j`: a larger total, or an equal total and
/// a label that comes first.
pub open spec fn ranks_before(totals: Seq<u64>, labels: Seq<Seq<char>>, i: int, j: int) -> bool {
    totals[i] > totals[j] || (totals[i] == totals[j] && chars_less(labels[i], labels[j]))
}

proof fn lemma_ranks_before_order(totals: Seq<u64>, labels: Seq<Seq<char>>, i: int, j: int, k: int)
    ensures
        ranks_before(totals, labels, i, j) && ranks_before(totals, labels, j, k) ==> ranks_before(
            totals,
            labels,
            i,
            k,
        ),
        labels[i] != labels[j] ==> (ranks_before(totals, labels, i, j) || ranks_before(
            totals,
            labels,
            j,
            i,
        )),
        !ranks_before(totals, labels, i, i),
{
    lemma_chars_less_total(labels[i], labels[j]);
    lemma_chars_less_irreflexive(labels[i]);
    if chars_less(labels[i], labels[j]) && chars_less(labels[j], labels[k]) {
        lemma_chars_less_transitive(labels[i], labels[j], labels[k]);
    }
}

/// The order in which to list entries: every index once, each ranking
/// before all that follow it.
pub fn rank_order(totals: &Vec<u64>, labels: &Vec<Vec<char>>) -> (order: Vec<usize>)
    requires
        totals@.len() == labels@.len(),
        forall|i: int, j: int|
            0 <= i < j < labels@.len() ==> #[trigger] labels@[i]@ != #[trigger] labels@[j]@,
    ensures
        order@.len() == totals@.len(),
        order@.no_duplicates(),
        forall|k: int| 0 <= k < order@.len() ==> order@[k] < totals@.len(),
        forall|a: int, b: int|
            0 <= a < b < order@.len() ==> ranks_before(
                totals@,
                labels@.map_values(|l: Vec<char>| l@),
                order@[a] as int,
                order@[b] as int,
            ),
        forall|j: usize| j < totals@.len() ==> order@.contains(j),
{
    let n = totals.len();
    let ghost ls = labels@.map_values(|l: Vec<char>| l@);
    let mut used: Vec<bool> = Vec::new();
    let mut i: usize = 0;
    while i < n
        invariant
            n == totals@.len(),
            i <= n,
            used@.len() == i,
            forall|k: int| 0 <= k < i ==> !used@[k],
        decreases n - i,
    {
        used.push(false);
        i = i + 1;
    }
    let mut order: Vec<usize> = Vec::new();
    while order.len() < n
        invariant
            n == totals@.len(),
            n == labels@.len(),
            ls == labels@.map_values(|l: Vec<char>| l@),
            forall|i: int, j: int| 0 <= i < j < n ==> #[trigger] ls[i] != #[trigger] ls[j],
            used@.len() == n,
            order@.len() <= n,
            order@.no_duplicates(),
            forall|k: int| 0 <= k < order@.len() ==> order@[k] < n,
            forall|u: int| 0 <= u < n ==> (used@[u] <==> order@.contains(u as usize)),
            forall|a: int, b: int|
                0 <= a < b < order@.len() ==> ranks_before(totals@, ls, order@[a] as int, order@[b] as int),
            forall|a: int, u: int|
                0 <= a < order@.len() && 0 <= u < n && !used@[u] ==> ranks_before(
                    totals@,
                    ls,
                    order@[a] as int,
                    u,
                ),
        decreases n - order@.len(),
    {
        // some index is still unused
        proof {
            if forall|u: int| 0 <= u < n ==> used@[u] {
                // all n indices appear among fewer than n distinct entries
                let s = order@.to_set();
                order@.unique_seq_to_set();
                assert(Set::new(|u: usize| u < n).subset_of(s)) by {
                    assert forall|u: usize| u < n implies s.contains(u) by {
                        assert(used@[u as int]);
                    }
                }
                assert(Set::new(|u: usize| u < n).len() == n) by {
                    lemma_usize_range_len(n);
                }
                vstd::set_lib::lemma_len_subset(Set::new(|u: usize| u < n), s);
                assert(false);
            }
        }
        let mut best: usize = 0;
        while used[best]
            invariant
                used@.len() == n,
                best < n,
                exists|u: int| best <= u < n && !used@[u],
                forall|u: int| 0 <= u < best ==> used@[u],
            decreases n - best,
        {
            best = best + 1;
        }
        let mut c: usize = best + 1;
        while c < n
            invariant
                n == totals@.len(),
                n == labels@.len(),
                ls == labels@.map_values(|l: Vec<char>| l@),
                forall|i: int, j: int| 0 <= i < j < n ==> #[trigger] ls[i] != #[trigger] ls[j],
                used@.len() == n,
                best < n,
                !used@[best as int],
                best < c <= n,
                forall|u: int|
                    0 <= u < c && !used@[u] && u != best ==> ranks_before(totals@, ls, best as int, u),
            decreases n - c,
        {
            if !used[c] {
                let better = totals[c] > totals[best] || (totals[c] == totals[best] && chars_less_exec(
                    &labels[c],
                    &labels[best],
                ));
                proof {
                    assert(ls[c as int] == labels@[c as int]@);
                    assert(ls[best as int] == labels@[best as int]@);
                    assert(better == ranks_before(totals@, ls, c as int, best as int));
                }
                if better {
                    proof {
                        assert forall|u: int|
                            0 <= u < c + 1 && !used@[u] && u != c implies ranks_before(
                                totals@,
                                ls,
                                c as int,
                                u,
                            ) by {
                            lemma_ranks_before_order(totals@, ls, c as int, best as int, u);
                        }
                    }
                    best = c;
                } else {
                    proof {
                        assert(ls[best as int] != ls[c as int]);
                        lemma_ranks_before_order(totals@, ls, best as int, c as int, c as int);
                    }
                }
            }
            c = c + 1;
        }
        proof {
            assert forall|a: int, u: int|
                0 <= a < order@.len() + 1 && 0 <= u < n && !used@.update(best as int, true)[u]
                    implies ranks_before(totals@, ls, order@.push(best)[a] as int, u) by {
                if a < order@.len() {
                } else {
                    if u < best {
                    } else {
                    }
                }
            }
        }
        let ghost old_order = order@;
        assert(!old_order.contains(best));
        used.set(best, true);
        order.push(best);
        proof {
            assert forall|u: int| 0 <= u < n implies (used@[u] <==> order@.contains(u as usize)) by {
                if order@.contains(u as usize) {
                    let k = choose|k: int| 0 <= k < order@.len() && order@[k] == u as usize;
                    if k < old_order.len() {
                        assert(old_order.contains(u as usize));
                    }
                }
                if u != best && old_order.contains(u as usize) {
                    let k = choose|k: int| 0 <= k < old_order.len() && old_order[k] == u as usize;
                    assert(order@[k] == u as usize);
                }
                if u == best {
                    assert(order@[order@.len() - 1] == best);
                }
            }
        }
    }
    proof {
        lemma_permutation_covers(order@, n);
    }
    order
}

/// A list of `n` distinct indices below `n` holds each of them.
pub proof fn lemma_permutation_covers(order: Seq<usize>, n: usize)
    requires
        order.len() == n,
        order.no_duplicates(),
        forall|k: int| 0 <= k < order.len() ==> order[k] < n,
    ensures
        forall|j: usize| j < n ==> order.contains(j),
{
    let s = order.to_set();
    order.unique_seq_to_set();
    let r = Set::new(|u: usize| u < n);
    lemma_usize_range_len(n);
    assert(s.subset_of(r));
    assert(s.finite()) by {
        vstd::seq_lib::seq_to_set_is_finite(order);
    }
    vstd::set_lib::lemma_subset_equality(s, r);
    assert forall|j: usize| j < n implies order.contains(j) by {
        assert(r.contains(j));
    }
}

proof fn lemma_usize_range_len(n: usize)
    ensures
        Set::new(|u: usize| u < n).len() == n,
        Set::new(|u: usize| u < n).finite(),
    decreases n,
{
    if n == 0 {
        assert(Set::new(|u: usize| u < n) =~= Set::<usize>::empty());
    } else {
        let m = (n - 1) as usize;
        lemma_usize_range_len(m);
        assert(Set::new(|u: usize| u < n) =~= Set::new(|u: usize| u < m).insert(m));
    }
}

} // verus!

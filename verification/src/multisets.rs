use vstd::prelude::*;

verus! {

/// The sequence of a finite set holds each element of the set once, and
/// nothing else.
pub proof fn lemma_to_seq_distinct<A>(s: Set<A>)
    requires
        s.finite(),
    ensures
        s.to_seq().no_duplicates(),
        forall|x: A| s.to_seq().contains(x) <==> s.contains(x),
    decreases s.len(),
{
    broadcast use vstd::set::group_set_axioms;

    s.lemma_to_seq_to_set_id();
    assert forall|x: A| s.to_seq().contains(x) <==> s.contains(x) by {
        assert(s.to_seq().to_set().contains(x) <==> s.to_seq().contains(x));
    }
    if s.len() != 0 {
        let x = s.choose();
        let rest = s.remove(x);
        lemma_to_seq_distinct(rest);
        let head = Seq::<A>::empty().push(x);
        assert(s.to_seq() == head + rest.to_seq());
        assert(!rest.to_seq().contains(x));
        let all = s.to_seq();
        assert forall|i: int, j: int| 0 <= i < all.len() && 0 <= j < all.len() && i != j implies all[i]
            != all[j] by {
            if i == 0 {
                assert(all[j] == rest.to_seq()[j - 1]);
                assert(rest.to_seq().contains(all[j]));
            } else if j == 0 {
                assert(all[i] == rest.to_seq()[i - 1]);
                assert(rest.to_seq().contains(all[i]));
            } else {
                assert(all[i] == rest.to_seq()[i - 1]);
                assert(all[j] == rest.to_seq()[j - 1]);
            }
        }
    }
}

/// Two sequences without repetitions that hold the same elements are
/// permutations of each other.
pub proof fn lemma_distinct_same_elements<A>(a: Seq<A>, b: Seq<A>)
    requires
        a.no_duplicates(),
        b.no_duplicates(),
        forall|x: A| a.contains(x) <==> b.contains(x),
    ensures
        a.to_multiset() == b.to_multiset(),
{
    broadcast use vstd::multiset::group_multiset_axioms;

    a.lemma_multiset_has_no_duplicates();
    b.lemma_multiset_has_no_duplicates();
    assert forall|x: A| a.to_multiset().count(x) == b.to_multiset().count(x) by {
        vstd::seq_lib::to_multiset_contains(a, x);
        vstd::seq_lib::to_multiset_contains(b, x);
    }
    assert(a.to_multiset() =~= b.to_multiset());
}

/// Applying one function to every element of two permutations of each other
/// gives two permutations of each other.
pub proof fn lemma_permutation_mapped<A, B>(a: Seq<A>, b: Seq<A>, f: spec_fn(A) -> B)
    requires
        a.to_multiset() == b.to_multiset(),
    ensures
        a.map_values(f).to_multiset() == b.map_values(f).to_multiset(),
    decreases a.len(),
{
    broadcast use vstd::multiset::group_multiset_axioms;

    vstd::seq_lib::to_multiset_len(a);
    vstd::seq_lib::to_multiset_len(b);
    if a.len() == 0 {
        assert(a.map_values(f) =~= b.map_values(f));
    } else {
        let x = a.last();
        let front = a.drop_last();
        assert(a =~= front.push(x));
        vstd::seq_lib::to_multiset_build(front, x);
        vstd::seq_lib::to_multiset_contains(b, x);
        assert(a.to_multiset().count(x) > 0);
        assert(b.contains(x));
        let j = choose|j: int| 0 <= j < b.len() && b[j] == x;
        let rest = b.remove(j);
        vstd::seq_lib::to_multiset_remove(b, j);
        assert(front.to_multiset() =~= a.to_multiset().remove(x));
        assert(rest.to_multiset() =~= b.to_multiset().remove(x));
        lemma_permutation_mapped(front, rest, f);
        assert(a.map_values(f) =~= front.map_values(f).push(f(x)));
        vstd::seq_lib::to_multiset_build(front.map_values(f), f(x));
        assert(b.map_values(f) =~= rest.map_values(f).insert(j, f(x)));
        vstd::seq_lib::to_multiset_insert(rest.map_values(f), j, f(x));
    }
}

} // verus!

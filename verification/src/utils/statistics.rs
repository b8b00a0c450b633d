//! Random selection without replacement.
//!
//! A selection is steered by a sequence of choices: the first choice is a
//! position among all items, the second a position among those that are left,
//! and so on. The random source gives the choices; what is selected for given
//! choices is fixed.
use rand::Rng;
use vstd::prelude::*;
use vstd::seq_lib::{to_multiset_build, to_multiset_remove, to_multiset_update};

verus! {

/// Hands out a number below `bound`, drawn by `rand::Rng::gen_range` over the
/// range `0..bound` from the generator of the running thread. `gen_range`
/// panics on an empty range, which `bound > 0` rules out, and returns a member
/// of the range; which one is not stated. The generator is seeded from the
/// system when a thread first asks for it, and cannot be had where the system
/// gives no seed.
#[verifier::external_body]
fn random_below(bound: usize) -> (r: usize)
    requires
        bound > 0,
    ensures
        r < bound,
{
    rand::thread_rng().gen_range(0..bound)
}

/// Each choice is a position among the items that are left when it is made:
/// choice `j` is below `len - j`.
pub open spec fn valid_choices(choices: Seq<usize>, len: nat) -> bool {
    &&& choices.len() <= len
    &&& forall|j: int| 0 <= j < choices.len() ==> (#[trigger] choices[j]) < len - j
}

/// `s` without the item at `i`, the last item having taken its place.
pub open spec fn swap_removed<T>(s: Seq<T>, i: int) -> Seq<T>
    recommends
        0 <= i < s.len(),
{
    s.update(i, s.last()).drop_last()
}

/// The items that are left of `pool` after the given choices.
pub open spec fn left_over<T>(pool: Seq<T>, choices: Seq<usize>) -> Seq<T>
    decreases choices.len(),
{
    if choices.len() == 0 {
        pool
    } else {
        swap_removed(left_over(pool, choices.drop_last()), choices.last() as int)
    }
}

/// The items that the given choices select from `pool`, in the order in which
/// they are selected.
pub open spec fn picked<T>(pool: Seq<T>, choices: Seq<usize>) -> Seq<T>
    decreases choices.len(),
{
    if choices.len() == 0 {
        Seq::empty()
    } else {
        picked(pool, choices.drop_last()).push(
            left_over(pool, choices.drop_last())[choices.last() as int],
        )
    }
}

/// The numbers from `low` to `high`, in ascending order.
pub open spec fn span(low: nat, high: nat) -> Seq<usize>
    recommends
        low <= high,
{
    Seq::new((high - low + 1) as nat, |j: int| (low + j) as usize)
}

/// Taking an item out of a sequence takes it out of the sequence's multiset.
proof fn lemma_swap_removed<T>(s: Seq<T>, i: int)
    requires
        0 <= i < s.len(),
    ensures
        swap_removed(s, i).len() == s.len() - 1,
        swap_removed(s, i).to_multiset() == s.to_multiset().remove(s[i]),
{
    broadcast use vstd::multiset::group_multiset_axioms;

    let last = s.len() - 1;
    let moved = s.update(i, s.last());
    to_multiset_update(s, i, s.last());
    to_multiset_remove(moved, last);
    assert(moved.remove(last) =~= moved.drop_last());
    s.to_multiset_ensures();
    assert(s.to_multiset().count(s[i]) > 0) by {
        assert(s.contains(s[i]));
    }
    assert(s.to_multiset().count(s.last()) > 0) by {
        assert(s.contains(s.last()));
    }
    assert(swap_removed(s, i).to_multiset() =~= s.to_multiset().remove(s[i]));
}

/// A selection splits the pool: what is selected and what is left are, taken
/// together, the items of the pool, each as often as the pool holds it.
pub proof fn lemma_selection_splits_pool<T>(pool: Seq<T>, choices: Seq<usize>)
    requires
        valid_choices(choices, pool.len()),
    ensures
        picked(pool, choices).len() == choices.len(),
        left_over(pool, choices).len() == pool.len() - choices.len(),
        picked(pool, choices).to_multiset().add(left_over(pool, choices).to_multiset())
            == pool.to_multiset(),
    decreases choices.len(),
{
    broadcast use vstd::multiset::group_multiset_axioms;

    if choices.len() == 0 {
        Seq::<T>::empty().to_multiset_ensures();
        assert(picked(pool, choices).to_multiset() =~= vstd::multiset::Multiset::<T>::empty());
        assert(picked(pool, choices).to_multiset().add(left_over(pool, choices).to_multiset())
            =~= pool.to_multiset());
    } else {
        let before = choices.drop_last();
        let i = choices.last() as int;
        assert(choices[choices.len() - 1] < pool.len() - (choices.len() - 1));
        assert(valid_choices(before, pool.len())) by {
            assert forall|j: int| 0 <= j < before.len() implies (#[trigger] before[j]) < pool.len()
                - j by {
                assert(before[j] == choices[j]);
            }
        }
        lemma_selection_splits_pool(pool, before);
        let rest = left_over(pool, before);
        lemma_swap_removed(rest, i);
        to_multiset_build(picked(pool, before), rest[i]);
        rest.to_multiset_ensures();
        assert(rest.to_multiset().count(rest[i]) > 0) by {
            assert(rest.contains(rest[i]));
        }
        assert(picked(pool, choices).to_multiset().add(left_over(pool, choices).to_multiset())
            =~= pool.to_multiset());
    }
}

/// A selection takes every item at most as often as the pool holds it; and it
/// takes all of the pool where there are as many choices as items.
pub proof fn lemma_selection_within_pool<T>(pool: Seq<T>, choices: Seq<usize>)
    requires
        valid_choices(choices, pool.len()),
    ensures
        picked(pool, choices).to_multiset().subset_of(pool.to_multiset()),
        choices.len() == pool.len() ==> picked(pool, choices).to_multiset() == pool.to_multiset(),
        pool.no_duplicates() ==> picked(pool, choices).no_duplicates(),
        forall|j: int|
            0 <= j < picked(pool, choices).len() ==> pool.contains(
                #[trigger] picked(pool, choices)[j],
            ),
{
    broadcast use vstd::multiset::group_multiset_axioms;

    lemma_selection_splits_pool(pool, choices);
    let taken = picked(pool, choices);
    let rest = left_over(pool, choices);
    assert(taken.to_multiset().subset_of(pool.to_multiset()));
    if choices.len() == pool.len() {
        rest.to_multiset_ensures();
        assert(rest =~= Seq::<T>::empty());
        assert(rest.to_multiset() =~= vstd::multiset::Multiset::<T>::empty());
        assert(taken.to_multiset() =~= pool.to_multiset());
    }
    taken.to_multiset_ensures();
    pool.to_multiset_ensures();
    assert forall|j: int| 0 <= j < taken.len() implies pool.contains(#[trigger] taken[j]) by {
        assert(taken.contains(taken[j]));
        assert(taken.to_multiset().count(taken[j]) > 0);
    }
    if pool.no_duplicates() {
        pool.lemma_multiset_has_no_duplicates();
        assert forall|x: T| taken.to_multiset().contains(x) implies taken.to_multiset().count(x)
            == 1 by {
            assert(pool.to_multiset().count(x) >= taken.to_multiset().count(x));
        }
        taken.lemma_multiset_has_no_duplicates_conv();
    }
}

/// Draws `n` choices for a selection among `len` items: choice `j` is drawn
/// among the `len - j` positions that are left.
pub fn random_choices(len: usize, n: usize) -> (choices: Vec<usize>)
    requires
        n <= len,
    ensures
        choices@.len() == n,
        valid_choices(choices@, len as nat),
{
    let mut choices: Vec<usize> = Vec::with_capacity(n);
    let mut j: usize = 0;
    while j < n
        invariant
            j <= n <= len,
            choices@.len() == j,
            valid_choices(choices@, len as nat),
        decreases n - j,
    {
        let range = len - j;
        let index = random_below(range);
        choices.push(index);
        j += 1;
    }
    choices
}

/// Selects from `pool` by the given choices: each choice takes the item at
/// its position out of the pool and puts the pool's last item in its place.
pub fn pick_without_replacement<T: Copy>(pool: Vec<T>, choices: &Vec<usize>) -> (taken: Vec<T>)
    requires
        valid_choices(choices@, pool@.len()),
    ensures
        taken@ == picked(pool@, choices@),
{
    let ghost all = pool@;
    let mut pool = pool;
    let mut taken: Vec<T> = Vec::with_capacity(choices.len());
    let mut j: usize = 0;
    assert(choices@.take(0) =~= Seq::<usize>::empty());
    while j < choices.len()
        invariant
            j <= choices.len(),
            valid_choices(choices@, all.len()),
            taken@ == picked(all, choices@.take(j as int)),
            pool@ == left_over(all, choices@.take(j as int)),
            pool@.len() == all.len() - j,
        decreases choices.len() - j,
    {
        let index = choices[j];
        assert(choices@.take(j + 1).drop_last() =~= choices@.take(j as int));
        taken.push(pool[index]);
        pool.swap_remove(index);
        j += 1;
    }
    assert(choices@.take(j as int) =~= choices@);
    taken
}

/// Selects `n` different numbers from `i` to `k` at random, in the order in
/// which they are drawn.
pub fn generate_random_numbers(i: u8, k: u8, n: u8) -> (numbers: Vec<usize>)
    requires
        i <= k,
        n <= k - i + 1,
    ensures
        numbers@.len() == n,
        numbers@.no_duplicates(),
        forall|j: int| 0 <= j < numbers@.len() ==> i <= #[trigger] numbers@[j] <= k,
        exists|choices: Seq<usize>|
            valid_choices(choices, (k - i + 1) as nat) && choices.len() == n && numbers@ == picked(
                span(i as nat, k as nat),
                choices,
            ),
{
    let low: usize = i as usize;
    let high: usize = k as usize;
    let mut pool: Vec<usize> = Vec::with_capacity(high - low + 1);
    let mut x: usize = low;
    while x <= high
        invariant
            low <= x <= high + 1,
            high <= 255,
            pool@.len() == x - low,
            forall|j: int| 0 <= j < pool@.len() ==> pool@[j] == low + j,
        decreases high + 1 - x,
    {
        pool.push(x);
        x += 1;
    }
    assert(pool@ =~= span(i as nat, k as nat));
    let choices = random_choices(pool.len(), n as usize);
    proof {
        lemma_selection_splits_pool(pool@, choices@);
        lemma_selection_within_pool(pool@, choices@);
        let taken = picked(pool@, choices@);
        assert forall|j: int| 0 <= j < taken.len() implies i <= #[trigger] taken[j] <= k by {
            assert(pool@.contains(taken[j]));
        }
    }
    pick_without_replacement(pool, &choices)
}

} // verus!

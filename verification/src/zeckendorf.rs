//! Zeckendorf lists: what they are, which number one stands for, and why a
//! number has only one.
//!
//! A Zeckendorf list holds Fibonacci indices, each at least 2, in descending
//! order, no two of them neighbours. It stands for the sum of the Fibonacci
//! numbers at its indices. An effective list holds the same indices lowered
//! by 2, so that its smallest possible entry is 0.

use vstd::prelude::*;
use crate::fibonacci::fib;
use crate::fibonacci::lemma_fib_monotonic;
use crate::fibonacci::lemma_fib_positive;
use crate::fibonacci::lemma_fib_small_values;
use crate::natural::Natural;

verus! {

/// The sum of the Fibonacci numbers at the indices in `list`. The order of
/// the indices does not matter, and an index may occur more than once.
pub open spec fn zl_value(list: Seq<u64>) -> nat
    decreases list.len(),
{
    if list.len() == 0 {
        0
    } else {
        zl_value(list.drop_last()) + fib(list.last() as nat)
    }
}

/// The indices are all at least 2, and each is at least 2 more than every
/// index after it: the list descends, and no two of its indices are equal
/// or neighbours.
pub open spec fn is_zeckendorf_descending(list: Seq<u64>) -> bool {
    &&& forall|i: int| 0 <= i < list.len() ==> #[trigger] list[i] >= 2
    &&& forall|i: int, j: int|
        0 <= i < j < list.len() ==> #[trigger] list[i] >= #[trigger] list[j] + 2
}

/// Every index in `list` is below `bound`.
pub open spec fn indices_below(list: Seq<u64>, bound: nat) -> bool {
    forall|i: int| 0 <= i < list.len() ==> #[trigger] list[i] < bound
}

/// `list` is a Zeckendorf list, and it stands for `n`.
pub open spec fn is_zeckendorf_list(list: Seq<u64>, n: nat) -> bool {
    is_zeckendorf_descending(list) && zl_value(list) == n
}

/// The Zeckendorf list of `n`. By `lemma_zeckendorf_unique` any list that
/// satisfies `is_zeckendorf_list(_, n)` is this one.
pub open spec fn zeckendorf_list_of(n: nat) -> Seq<u64> {
    choose|list: Seq<u64>| is_zeckendorf_list(list, n)
}

/// Every entry lowered by 2.
pub open spec fn lowered(list: Seq<u64>) -> Seq<u64> {
    Seq::new(list.len(), |i: int| (list[i] - 2) as u64)
}

/// Every entry raised by 2.
pub open spec fn raised(list: Seq<u64>) -> Seq<u64> {
    Seq::new(list.len(), |i: int| (list[i] + 2) as u64)
}

/// An effective list descends, and no two of its entries are equal or
/// neighbours.
pub open spec fn is_effective_zeckendorf_descending(list: Seq<u64>) -> bool {
    forall|i: int, j: int| 0 <= i < j < list.len() ==> #[trigger] list[i] >= #[trigger] list[j] + 2
}

/// The effective index of a Fibonacci index at or above 2.
pub fn fi_to_efi(fi: u64) -> (efi: u64)
    requires
        fi >= 2,
    ensures
        efi == fi - 2,
{
    fi - 2
}

/// The effective index of a Fibonacci index at or above 2.
pub fn fi_to_efi_ref(fi: &u64) -> (efi: u64)
    requires
        *fi >= 2,
    ensures
        efi == *fi - 2,
{
    *fi - 2
}

/// The effective index of a Fibonacci index at or above 2.
pub fn fi_to_efi_bigint(fi: Natural) -> (efi: Natural)
    requires
        fi@ >= 2,
    ensures
        efi@ == fi@ - 2,
{
    fi.sub(&Natural::from_u64(2))
}

/// The Fibonacci index of an effective index.
pub fn efi_to_fi(efi: u64) -> (fi: u64)
    requires
        efi <= u64::MAX - 2,
    ensures
        fi == efi + 2,
{
    efi + 2
}

/// The Fibonacci index of an effective index.
pub fn efi_to_fi_ref(efi: &u64) -> (fi: u64)
    requires
        *efi <= u64::MAX - 2,
    ensures
        fi == *efi + 2,
{
    *efi + 2
}

/// The Fibonacci index of an effective index.
pub fn efi_to_fi_bigint(efi: Natural) -> (fi: Natural)
    ensures
        fi@ == efi@ + 2,
{
    efi.add(&Natural::from_u64(2))
}

/// The effective list of a list of Fibonacci indices, in the same order.
pub fn zl_to_ezl(zl: &[u64]) -> (ezl: Vec<u64>)
    requires
        forall|i: int| 0 <= i < zl@.len() ==> zl@[i] >= 2,
    ensures
        ezl@ == lowered(zl@),
{
    let mut ezl: Vec<u64> = Vec::new();
    let mut place: usize = 0;
    while place < zl.len()
        invariant
            place <= zl@.len(),
            forall|i: int| 0 <= i < zl@.len() ==> zl@[i] >= 2,
            ezl@ == lowered(zl@.take(place as int)),
        decreases zl@.len() - place,
    {
        ezl.push(fi_to_efi_ref(&zl[place]));
        place = place + 1;
    }
    ezl
}

/// The list of Fibonacci indices of an effective list, in the same order.
pub fn ezl_to_zl(ezl: &[u64]) -> (zl: Vec<u64>)
    requires
        forall|i: int| 0 <= i < ezl@.len() ==> ezl@[i] <= u64::MAX - 2,
    ensures
        zl@ == raised(ezl@),
{
    let mut zl: Vec<u64> = Vec::new();
    let mut place: usize = 0;
    while place < ezl.len()
        invariant
            place <= ezl@.len(),
            forall|i: int| 0 <= i < ezl@.len() ==> ezl@[i] <= u64::MAX - 2,
            zl@ == raised(ezl@.take(place as int)),
        decreases ezl@.len() - place,
    {
        zl.push(efi_to_fi_ref(&ezl[place]));
        place = place + 1;
    }
    zl
}

/// Lowering a Zeckendorf list gives an effective list that descends with
/// the same gaps, and raising that gives the list back.
pub proof fn lemma_lowered_raised(list: Seq<u64>)
    requires
        is_zeckendorf_descending(list),
    ensures
        is_effective_zeckendorf_descending(lowered(list)),
        raised(lowered(list)) == list,
        raised(lowered(list).reverse()) == list.reverse(),
{
}

/// Adding an index to a list adds its Fibonacci number to the value.
pub proof fn lemma_zl_value_push(list: Seq<u64>, index: u64)
    ensures
        zl_value(list.push(index)) == zl_value(list) + fib(index as nat),
{
    assert(list.push(index).drop_last() =~= list);
}

/// The value of two lists put together is the sum of their values.
pub proof fn lemma_zl_value_concat(a: Seq<u64>, b: Seq<u64>)
    ensures
        zl_value(a + b) == zl_value(a) + zl_value(b),
    decreases b.len(),
{
    if b.len() > 0 {
        lemma_zl_value_concat(a, b.drop_last());
        assert((a + b).drop_last() =~= a + b.drop_last());
    }
}

/// The value of a list is its first index's Fibonacci number plus the value
/// of the rest.
pub proof fn lemma_zl_value_first(list: Seq<u64>)
    requires
        list.len() > 0,
    ensures
        zl_value(list) == fib(list.first() as nat) + zl_value(list.drop_first()),
{
    let head = seq![list.first()];
    assert(list =~= head + list.drop_first());
    lemma_zl_value_concat(head, list.drop_first());
    assert(zl_value(head) == zl_value(head.drop_last()) + fib(head.last() as nat));
}

/// Reading a list backwards does not change its value.
pub proof fn lemma_zl_value_reverse(list: Seq<u64>)
    ensures
        zl_value(list.reverse()) == zl_value(list),
    decreases list.len(),
{
    if list.len() > 0 {
        let rev = list.reverse();
        lemma_zl_value_first(rev);
        assert(rev.drop_first() =~= list.drop_last().reverse());
        lemma_zl_value_reverse(list.drop_last());
    }
}

/// The value of a non-empty Zeckendorf list lies between the Fibonacci
/// number at its first index and the next Fibonacci number.
pub proof fn lemma_zeckendorf_value_bounds(list: Seq<u64>)
    requires
        is_zeckendorf_descending(list),
        list.len() > 0,
    ensures
        fib(list.first() as nat) <= zl_value(list) < fib(list.first() as nat + 1),
    decreases list.len(),
{
    let head = list.first();
    let tail = list.drop_first();
    lemma_zl_value_first(list);
    if tail.len() == 0 {
        lemma_fib_positive((head - 1) as nat);
    } else {
        lemma_zeckendorf_value_bounds(tail);
        lemma_fib_monotonic(tail.first() as nat + 1, (head - 1) as nat);
    }
}

/// Zeckendorf's theorem, the half on uniqueness: two Zeckendorf lists with
/// the same value are the same list.
pub proof fn lemma_zeckendorf_unique(a: Seq<u64>, b: Seq<u64>)
    requires
        is_zeckendorf_descending(a),
        is_zeckendorf_descending(b),
        zl_value(a) == zl_value(b),
    ensures
        a == b,
    decreases a.len(),
{
    if a.len() == 0 {
        if b.len() > 0 {
            lemma_zeckendorf_value_bounds(b);
        }
    } else if b.len() == 0 {
        lemma_zeckendorf_value_bounds(a);
    } else {
        lemma_zeckendorf_value_bounds(a);
        lemma_zeckendorf_value_bounds(b);
        if a.first() < b.first() {
            lemma_fib_monotonic(a.first() as nat + 1, b.first() as nat);
        }
        if b.first() < a.first() {
            lemma_fib_monotonic(b.first() as nat + 1, a.first() as nat);
        }
        lemma_zl_value_first(a);
        lemma_zl_value_first(b);
        lemma_zeckendorf_unique(a.drop_first(), b.drop_first());
        assert(a =~= seq![a.first()] + a.drop_first());
    }
}

/// A list that satisfies `is_zeckendorf_list(_, n)` is `zeckendorf_list_of(n)`.
pub proof fn lemma_zeckendorf_list_of(list: Seq<u64>, n: nat)
    requires
        is_zeckendorf_list(list, n),
    ensures
        list == zeckendorf_list_of(n),
{
    lemma_zeckendorf_unique(list, zeckendorf_list_of(n));
}

/// For every positive number there is an index, 2 or more, whose Fibonacci
/// number is the largest that is not above it.
pub proof fn lemma_largest_index(n: nat) -> (index: nat)
    requires
        n >= 1,
    ensures
        index >= 2,
        fib(index) <= n < fib(index + 1),
    decreases n,
{
    lemma_fib_small_values();
    if n == 1 {
        2
    } else {
        let below = lemma_largest_index((n - 1) as nat);
        if fib(below + 1) <= n {
            below + 1
        } else {
            below
        }
    }
}

/// Zeckendorf's theorem, the half on existence: every number below
/// `F(2^64 - 1)` has a Zeckendorf list whose indices are machine words.
pub proof fn lemma_zeckendorf_exists(n: nat) -> (list: Seq<u64>)
    requires
        n < fib(u64::MAX as nat),
    ensures
        is_zeckendorf_list(list, n),
        list == zeckendorf_list_of(n),
    decreases n,
{
    if n == 0 {
        let list = Seq::<u64>::empty();
        lemma_zeckendorf_list_of(list, n);
        list
    } else {
        let index = lemma_largest_index(n);
        if index >= u64::MAX {
            lemma_fib_monotonic(u64::MAX as nat, index);
        }
        let rest = lemma_zeckendorf_exists((n - fib(index)) as nat);
        let list = seq![index as u64] + rest;
        lemma_zl_value_concat(seq![index as u64], rest);
        lemma_zl_value_push(Seq::<u64>::empty(), index as u64);
        if rest.len() > 0 {
            lemma_zeckendorf_value_bounds(rest);
            if rest.first() + 2 > index {
                lemma_fib_monotonic((index - 1) as nat, rest.first() as nat);
            }
        }
        lemma_zeckendorf_list_of(list, n);
        list
    }
}

} // verus!

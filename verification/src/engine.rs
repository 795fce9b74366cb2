//! The engine: Fibonacci numbers and Zeckendorf lists, computed once and
//! kept.
//!
//! An [`Engine`] owns five caches. Two are dense tables of Fibonacci numbers,
//! one of machine words and one of [`Natural`]s, which only ever grow at
//! their end. One is a sparse map of Fibonacci numbers, filled by the
//! fast-doubling walk. Two remember the Zeckendorf lists of the numbers that
//! were asked for. Nothing is ever taken out of a cache, and whatever is in
//! one is correct: that is the engine's invariant, [`Engine::wf`].
//!
//! The free functions at the end of this file compute the same results with
//! an engine of their own that lives for one call.

use std::collections::HashMap;
use vstd::prelude::*;
use vstd::arithmetic::power::pow;
use vstd::std_specs::hash::group_hash_axioms;
use crate::bits::bit_length;
use crate::bits::highest_one_bit;
use crate::bits::lemma_bit_length_bounds;
use crate::bits::lemma_bit_length_u64;
use crate::bits::lemma_shift_is_pow2;
use crate::bits::pow2;
use crate::byte_order::byte_length;
use crate::fibonacci::fib;
use crate::fibonacci::lemma_fib_at_least_index;
use crate::fibonacci::lemma_fib_doubling;
use crate::fibonacci::lemma_fib_exceeds_bytes;
use crate::fibonacci::lemma_fib_fits_u64;
use crate::fibonacci::lemma_fib_monotonic;
use crate::fibonacci::lemma_fib_small_values;
use crate::fibonacci::lemma_fib_step;
use crate::fibonacci::lemma_fib_table;
use crate::fibonacci::MAX_U64_FIBONACCI_INDEX;
use crate::natural::Natural;
use crate::zeckendorf::efi_to_fi;
use crate::zeckendorf::indices_below;
use crate::zeckendorf::is_zeckendorf_descending;
use crate::zeckendorf::is_zeckendorf_list;
use crate::zeckendorf::lemma_zl_value_push;
use crate::zeckendorf::zl_value;

verus! {

/// The largest number whose Zeckendorf list the machine-word path finds:
/// `F(64)`. The doubling search for an upper index tries 1, 2, 4, ..., 64,
/// and the next index it would try has no Fibonacci number in 64 bits.
pub const MAX_SMALL_ZECKENDORF_INPUT: u64 = 10610209857723;

/// The largest number of bytes of a natural whose Zeckendorf list is
/// computed. The indices that the search tries stay below 32 times the
/// number of bytes, and they have to fit in a machine word.
pub const MAX_NATURAL_BYTES: usize = usize::MAX / 32;

/// The index at which the doubling search for `n` stops when it is at
/// `high`: the first of `high`, `2 * high`, `4 * high`, ... whose Fibonacci
/// number reaches `n`. From 1 the search tries 1, 2, 4, 8, ...
pub open spec fn doubling_search_top(n: nat, high: nat) -> nat
    decreases 2 * n + 2 - high,
{
    if high == 0 || fib(high) >= n {
        high
    } else {
        proof {
            lemma_fib_at_least_index(high);
        }
        doubling_search_top(n, 2 * high)
    }
}

/// The larger of two numbers.
pub open spec fn larger(a: nat, b: nat) -> nat {
    if a >= b {
        a
    } else {
        b
    }
}

/// How many Fibonacci numbers a dense table holds after every index in
/// `indices` has been looked up in it, if it held `start` before: enough
/// to hold the largest index looked up, and never fewer than before.
pub open spec fn dense_reach(indices: Seq<u64>, start: nat) -> nat
    decreases indices.len(),
{
    if indices.len() == 0 {
        start
    } else {
        larger(dense_reach(indices.drop_last(), start), indices.last() as nat + 1)
    }
}

/// The caches of Fibonacci numbers and of Zeckendorf lists.
pub struct Engine {
    /// `F(0), F(1), ...` as machine words, without gaps.
    small_fibonacci: Vec<u64>,
    /// `F(0), F(1), ...` as naturals, without gaps.
    big_fibonacci: Vec<Natural>,
    /// Some `F(k)`, each under its index `k`.
    sparse_fibonacci: HashMap<u64, Natural>,
    /// Zeckendorf lists of machine words, each under its number.
    small_lists: HashMap<u64, Vec<u64>>,
    /// Zeckendorf lists of naturals, each beside its number, in buckets
    /// under the number's lowest machine word.
    big_lists: HashMap<u64, Vec<(Natural, Vec<u64>)>>,
}

/// The bucket that the list of `n` is kept in: `n` modulo `2^64`.
spec fn bucket_of(n: nat) -> u64 {
    (n % 0x1_0000_0000_0000_0000) as u64
}

/// Whether a bucket has an entry for `n`.
spec fn bucket_holds(bucket: Seq<(Natural, Vec<u64>)>, n: nat) -> bool {
    exists|i: int| 0 <= i < bucket.len() && (#[trigger] bucket[i]).0@ == n
}

/// Every entry of the bucket belongs in it and has the Zeckendorf list of
/// its number, and no number has two entries.
spec fn bucket_wf(bucket: Seq<(Natural, Vec<u64>)>, key: u64) -> bool {
    &&& forall|i: int|
        0 <= i < bucket.len() ==> bucket_of((#[trigger] bucket[i]).0@) == key
            && is_zeckendorf_list(bucket[i].1@, bucket[i].0@) && indices_below(
            bucket[i].1@,
            usize::MAX as nat,
        )
    &&& forall|i: int, j: int|
        0 <= i < j < bucket.len() ==> (#[trigger] bucket[i]).0@ != (#[trigger] bucket[j]).0@
}

/// What an engine has in its caches. With [`Engine::wf`] this says all there
/// is to say: what is kept under an index or beside a number is that index's
/// Fibonacci number or that number's Zeckendorf list.
pub struct EngineView {
    /// The dense table of machine words holds `F(0)` to `F(small_fibonacci_count - 1)`.
    pub small_fibonacci_count: nat,
    /// The dense table of naturals holds `F(0)` to `F(big_fibonacci_count - 1)`.
    pub big_fibonacci_count: nat,
    /// The indices whose Fibonacci number the sparse map holds.
    pub sparse_fibonacci_indices: Set<u64>,
    /// The machine words whose Zeckendorf list is remembered.
    pub small_list_numbers: Set<u64>,
    /// The naturals whose Zeckendorf list is remembered.
    pub big_list_numbers: Set<nat>,
}

impl View for Engine {
    type V = EngineView;

    closed spec fn view(&self) -> EngineView {
        EngineView {
            small_fibonacci_count: self.small_fibonacci.len() as nat,
            big_fibonacci_count: self.big_fibonacci.len() as nat,
            sparse_fibonacci_indices: self.sparse_fibonacci@.dom(),
            small_list_numbers: self.small_lists@.dom(),
            big_list_numbers: Set::new(
                |n: nat|
                    self.big_lists@.contains_key(bucket_of(n)) && bucket_holds(
                        self.big_lists@[bucket_of(n)]@,
                        n,
                    ),
            ),
        }
    }
}

impl Engine {
    /// Everything in the caches is correct: the dense tables hold
    /// `F(0), F(1), ...` in order, from `F(0)` and `F(1)` on; the sparse map
    /// holds `F(k)` under `k`; each remembered list is the Zeckendorf list
    /// of its number, and no natural is remembered twice.
    pub closed spec fn wf(&self) -> bool {
        &&& 2 <= self.small_fibonacci.len() <= MAX_U64_FIBONACCI_INDEX + 1
        &&& forall|i: int|
            0 <= i < self.small_fibonacci.len() ==> #[trigger] self.small_fibonacci[i] == fib(
                i as nat,
            )
        &&& 2 <= self.big_fibonacci.len()
        &&& forall|i: int|
            0 <= i < self.big_fibonacci.len() ==> (#[trigger] self.big_fibonacci[i])@ == fib(
                i as nat,
            )
        &&& forall|k: u64| #[trigger]
            self.sparse_fibonacci@.contains_key(k) ==> self.sparse_fibonacci@[k]@ == fib(k as nat)
        &&& forall|n: u64| #[trigger]
            self.small_lists@.contains_key(n) ==> is_zeckendorf_list(
                self.small_lists@[n]@,
                n as nat,
            ) && indices_below(self.small_lists@[n]@, MAX_U64_FIBONACCI_INDEX as nat + 1)
        &&& forall|k: u64| #[trigger]
            self.big_lists@.contains_key(k) ==> bucket_wf(self.big_lists@[k]@, k)
    }

    /// An engine whose dense tables and sparse map hold `F(0)` and `F(1)`,
    /// and which remembers no list.
    pub fn new() -> (engine: Engine)
        ensures
            engine.wf(),
            engine@ == (EngineView {
                small_fibonacci_count: 2,
                big_fibonacci_count: 2,
                sparse_fibonacci_indices: set![0u64, 1u64],
                small_list_numbers: Set::empty(),
                big_list_numbers: Set::empty(),
            }),
    {
        broadcast use group_hash_axioms;

        let mut small_fibonacci: Vec<u64> = Vec::new();
        small_fibonacci.push(0);
        small_fibonacci.push(1);
        let mut big_fibonacci: Vec<Natural> = Vec::new();
        big_fibonacci.push(Natural::zero());
        big_fibonacci.push(Natural::one());
        let mut sparse_fibonacci: HashMap<u64, Natural> = HashMap::new();
        sparse_fibonacci.insert(0, Natural::zero());
        sparse_fibonacci.insert(1, Natural::one());
        let small_lists: HashMap<u64, Vec<u64>> = HashMap::new();
        let big_lists: HashMap<u64, Vec<(Natural, Vec<u64>)>> = HashMap::new();
        let engine = Engine {
            small_fibonacci,
            big_fibonacci,
            sparse_fibonacci,
            small_lists,
            big_lists,
        };
        assert(engine@.big_list_numbers =~= Set::<nat>::empty());
        engine
    }

    /// `F(fi)` as a machine word, for the indices whose Fibonacci number
    /// fits in one. The dense table is extended up to `fi` if it ends
    /// before it.
    pub fn fibonacci_u64(&mut self, fi: u64) -> (value: u64)
        requires
            old(self).wf(),
            fi <= MAX_U64_FIBONACCI_INDEX,
        ensures
            final(self).wf(),
            value == fib(fi as nat),
            final(self)@ == (EngineView {
                small_fibonacci_count: if fi < old(self)@.small_fibonacci_count {
                    old(self)@.small_fibonacci_count
                } else {
                    (fi + 1) as nat
                },
                ..old(self)@
            }),
    {
        let index = fi as usize;
        while self.small_fibonacci.len() <= index
            invariant
                self.wf(),
                index == fi,
                fi <= MAX_U64_FIBONACCI_INDEX,
                self.small_fibonacci.len() == old(self).small_fibonacci.len()
                    || self.small_fibonacci.len() <= index + 1,
                old(self).small_fibonacci.len() <= self.small_fibonacci.len(),
                self.big_fibonacci == old(self).big_fibonacci,
                self.sparse_fibonacci == old(self).sparse_fibonacci,
                self.small_lists == old(self).small_lists,
                self.big_lists == old(self).big_lists,
            decreases index + 1 - self.small_fibonacci.len(),
        {
            let length = self.small_fibonacci.len();
            proof {
                lemma_fib_fits_u64(length as nat);
            }
            let next = self.small_fibonacci[length - 1] + self.small_fibonacci[length - 2];
            self.small_fibonacci.push(next);
        }
        self.small_fibonacci[index]
    }

    /// Extends the dense table of naturals so that it holds `F(fi)`.
    fn grow_big_fibonacci(&mut self, fi: u64)
        requires
            old(self).wf(),
            fi < usize::MAX,
        ensures
            final(self).wf(),
            fi < final(self).big_fibonacci.len(),
            final(self).big_lists == old(self).big_lists,
            final(self)@ == (EngineView {
                big_fibonacci_count: if fi < old(self)@.big_fibonacci_count {
                    old(self)@.big_fibonacci_count
                } else {
                    (fi + 1) as nat
                },
                ..old(self)@
            }),
    {
        let index = fi as usize;
        while self.big_fibonacci.len() <= index
            invariant
                self.wf(),
                index == fi,
                fi < usize::MAX,
                self.big_fibonacci.len() == old(self).big_fibonacci.len()
                    || self.big_fibonacci.len() <= index + 1,
                old(self).big_fibonacci.len() <= self.big_fibonacci.len(),
                self.small_fibonacci == old(self).small_fibonacci,
                self.sparse_fibonacci == old(self).sparse_fibonacci,
                self.small_lists == old(self).small_lists,
                self.big_lists == old(self).big_lists,
            decreases index + 1 - self.big_fibonacci.len(),
        {
            let length = self.big_fibonacci.len();
            let next = self.big_fibonacci[length - 1].add(&self.big_fibonacci[length - 2]);
            self.big_fibonacci.push(next);
        }
    }

    /// `F(fi)`. The dense table of naturals is extended up to `fi` if it
    /// ends before it.
    pub fn fibonacci(&mut self, fi: u64) -> (value: Natural)
        requires
            old(self).wf(),
            fi < usize::MAX,
        ensures
            final(self).wf(),
            value@ == fib(fi as nat),
            final(self)@ == (EngineView {
                big_fibonacci_count: if fi < old(self)@.big_fibonacci_count {
                    old(self)@.big_fibonacci_count
                } else {
                    (fi + 1) as nat
                },
                ..old(self)@
            }),
    {
        self.grow_big_fibonacci(fi);
        self.big_fibonacci[fi as usize].duplicate()
    }

    /// How many Fibonacci numbers the dense table of machine words holds.
    pub fn small_fibonacci_count(&self) -> (count: usize)
        ensures
            count == self@.small_fibonacci_count,
    {
        self.small_fibonacci.len()
    }

    /// How many Fibonacci numbers the dense table of naturals holds.
    pub fn big_fibonacci_count(&self) -> (count: usize)
        ensures
            count == self@.big_fibonacci_count,
    {
        self.big_fibonacci.len()
    }

    /// Whether the Zeckendorf list of the machine word `n` is remembered.
    pub fn remembers_list_u64(&self, n: u64) -> (remembered: bool)
        ensures
            remembered == self@.small_list_numbers.contains(n),
    {
        broadcast use group_hash_axioms;

        self.small_lists.contains_key(&n)
    }

    /// Whether the Zeckendorf list of the natural `n` is remembered.
    pub fn remembers_list(&self, n: &Natural) -> (remembered: bool)
        ensures
            remembered == self@.big_list_numbers.contains(n@),
    {
        broadcast use group_hash_axioms;

        let key = n.low_u64();
        match self.big_lists.get(&key) {
            Some(bucket) => {
                let mut place: usize = 0;
                while place < bucket.len()
                    invariant
                        key == bucket_of(n@),
                        self.big_lists@.contains_key(key),
                        *bucket == self.big_lists@[key],
                        place <= bucket.len(),
                        forall|i: int| 0 <= i < place ==> (#[trigger] bucket[i]).0@ != n@,
                    decreases bucket.len() - place,
                {
                    if bucket[place].0.equals(n) {
                        assert(bucket_holds(bucket@, n@));
                        return true;
                    }
                    place = place + 1;
                }
                false
            },
            None => false,
        }
    }

    /// How many Fibonacci numbers the sparse map holds.
    pub fn sparse_fibonacci_count(&self) -> (count: usize)
        ensures
            count == self@.sparse_fibonacci_indices.len(),
    {
        broadcast use group_hash_axioms;

        self.sparse_fibonacci.len()
    }

    /// `F(fi)` if the sparse map holds it. Nothing is computed.
    pub fn cached_fast_doubling_fibonacci(&self, fi: u64) -> (cached: Option<Natural>)
        requires
            self.wf(),
        ensures
            match cached {
                Some(value) => self@.sparse_fibonacci_indices.contains(fi) && value@ == fib(
                    fi as nat,
                ),
                None => !self@.sparse_fibonacci_indices.contains(fi),
            },
    {
        broadcast use group_hash_axioms;

        match self.sparse_fibonacci.get(&fi) {
            Some(value) => Some(value.duplicate()),
            None => None,
        }
    }

    /// `F(fi)` by fast doubling, with the sparse map. A number that the map
    /// holds is handed out as it is. Otherwise the walk over the bits of
    /// `fi` is made; the Fibonacci numbers it passes are collected with
    /// their indices and go into the map together at the end, each unless
    /// the map has one under that index already.
    pub fn fibonacci_fast_doubling(&mut self, fi: u64) -> (value: Natural)
        requires
            old(self).wf(),
        ensures
            final(self).wf(),
            value@ == fib(fi as nat),
            final(self)@ == (EngineView {
                sparse_fibonacci_indices: if old(self)@.sparse_fibonacci_indices.contains(fi) {
                    old(self)@.sparse_fibonacci_indices
                } else {
                    old(self)@.sparse_fibonacci_indices.union(doubling_walk_indices(fi))
                },
                ..old(self)@
            }),
    {
        broadcast use group_hash_axioms;

        match self.sparse_fibonacci.get(&fi) {
            Some(cached) => {
                return cached.duplicate();
            },
            None => {},
        }

        let mut a = Natural::zero();
        let mut b = Natural::one();
        let mut m: u64 = 0;
        let mut fi_msb = highest_one_bit(fi);
        let mut values_to_cache: Vec<(u64, Natural)> = Vec::new();
        let ghost mut pending: nat = bit_length(fi as nat);
        proof {
            lemma_walk_start(fi);
        }
        while fi_msb != 0
            invariant
                pending <= 64,
                is_walk_state(fi, fi_msb, m, pending),
                a@ == fib(m as nat),
                b@ == fib(m as nat + 1),
                forall|i: int|
                    0 <= i < values_to_cache.len() ==> (#[trigger] values_to_cache[i]).1@ == fib(
                        values_to_cache[i].0 as nat,
                    ),
                indices_of(values_to_cache@).insert(0) == doubling_walk_indices(m),
                m > 0 ==> indices_of(values_to_cache@).contains(0),
            decreases pending,
        {
            proof {
                lemma_walk_step(fi, fi_msb, m, pending);
                lemma_fib_doubling(m as nat);
            }
            let ghost collected_values = values_to_cache@;
            let d = a.mul(&b.double().sub(&a));
            let e = b.pow(2).add(&a.pow(2));
            proof {
                lemma_square(a@);
                lemma_square(b@);
            }
            a = d;
            b = e;
            m = m * 2;
            values_to_cache.push((m, a.duplicate()));
            let ghost doubled = values_to_cache@;
            proof {
                lemma_indices_of_push(collected_values, doubled.last());
            }
            if fi & fi_msb != 0 {
                let sum = a.add(&b);
                a = b;
                b = sum;
                m = m + 1;
                values_to_cache.push((m, a.duplicate()));
                proof {
                    lemma_indices_of_push(doubled, values_to_cache@.last());
                }
            }
            fi_msb = fi_msb >> 1;
            proof {
                pending = (pending - 1) as nat;
            }
        }
        proof {
            lemma_walk_step(fi, fi_msb, m, pending);
        }
        let result = a;
        let ghost walked = values_to_cache@;
        values_to_cache.push((fi, result.duplicate()));
        proof {
            lemma_indices_of_push(walked, values_to_cache@.last());
        }

        while values_to_cache.len() > 0
            invariant
                self.wf(),
                forall|i: int|
                    0 <= i < values_to_cache.len() ==> (#[trigger] values_to_cache[i]).1@ == fib(
                        values_to_cache[i].0 as nat,
                    ),
                self.sparse_fibonacci@.dom().union(indices_of(values_to_cache@)) == old(
                    self,
                ).sparse_fibonacci@.dom().union(doubling_walk_indices(fi)),
                self.small_fibonacci == old(self).small_fibonacci,
                self.big_fibonacci == old(self).big_fibonacci,
                self.small_lists == old(self).small_lists,
                self.big_lists == old(self).big_lists,
            decreases values_to_cache.len(),
        {
            let (index, number) = values_to_cache.pop().unwrap();
            if !self.sparse_fibonacci.contains_key(&index) {
                self.sparse_fibonacci.insert(index, number);
            }
        }
        proof {
            assert(self.sparse_fibonacci@.dom() =~= old(self).sparse_fibonacci@.dom().union(
                doubling_walk_indices(fi),
            ));
        }
        result
    }

    /// The Zeckendorf list of `n`, largest index first, for `n` up to
    /// `F(64)`. A list that is already remembered is handed out again; one
    /// that is not is computed and remembered, except for those of 0, 1 and
    /// 2, which are never remembered.
    ///
    /// The largest index is found in two steps: an index is doubled until
    /// its Fibonacci number reaches `n`, then a binary search between the
    /// last two indices tried finds the first index whose Fibonacci number
    /// reaches `n`. From there the indices are taken greedily, and after
    /// each one taken the next candidate is 2 lower.
    pub fn zeckendorf_list_u64(&mut self, n: u64) -> (list: Vec<u64>)
        requires
            old(self).wf(),
            n <= MAX_SMALL_ZECKENDORF_INPUT,
        ensures
            final(self).wf(),
            is_zeckendorf_list(list@, n as nat),
            indices_below(list@, MAX_U64_FIBONACCI_INDEX as nat + 1),
            final(self)@ == (EngineView {
                small_fibonacci_count: if n <= 2 || old(self)@.small_list_numbers.contains(n) {
                    old(self)@.small_fibonacci_count
                } else {
                    larger(
                        old(self)@.small_fibonacci_count,
                        doubling_search_top(n as nat, 1) + 1,
                    )
                },
                small_list_numbers: if n <= 2 {
                    old(self)@.small_list_numbers
                } else {
                    old(self)@.small_list_numbers.insert(n)
                },
                ..old(self)@
            }),
    {
        broadcast use group_hash_axioms;

        proof {
            lemma_fib_small_values();
        }
        if n == 0 {
            return Vec::new();
        }
        if n == 1 {
            let mut list: Vec<u64> = Vec::new();
            list.push(2);
            proof {
                lemma_zl_value_push(Seq::<u64>::empty(), 2);
            }
            return list;
        }
        if n == 2 {
            let mut list: Vec<u64> = Vec::new();
            list.push(3);
            proof {
                lemma_zl_value_push(Seq::<u64>::empty(), 3);
            }
            return list;
        }
        match self.small_lists.get(&n) {
            Some(cached) => {
                let list = copy_of_list(cached);
                proof {
                    assert(self@.small_list_numbers =~= self@.small_list_numbers.insert(n));
                }
                return list;
            },
            None => {},
        }
        let ghost top = doubling_search_top(n as nat, 1);
        let ghost reach = larger(old(self)@.small_fibonacci_count, top + 1);

        let mut low: u64 = 1;
        let mut high: u64 = 1;
        loop
            invariant_except_break
                self@ == (EngineView {
                    small_fibonacci_count: larger(old(self)@.small_fibonacci_count, low as nat + 1),
                    ..old(self)@
                }),
            invariant
                self.wf(),
                3 <= n <= MAX_SMALL_ZECKENDORF_INPUT,
                high == 1 || high == 2 || high == 4 || high == 8 || high == 16 || high == 32
                    || high == 64,
                1 <= low <= high,
                fib(low as nat) < n,
                top == doubling_search_top(n as nat, high as nat),
                reach == larger(old(self)@.small_fibonacci_count, top + 1),
            ensures
                fib(high as nat) >= n,
                high == top,
                high <= 64,
                self@ == (EngineView { small_fibonacci_count: reach, ..old(self)@ }),
            decreases 64 - high,
        {
            if self.fibonacci_u64(high) >= n {
                break ;
            }
            proof {
                lemma_fib_table();
            }
            low = high;
            high = high * 2;
        }

        while low <= high
            invariant
                self.wf(),
                1 <= low <= high + 1 <= 65,
                low <= top,
                high <= top,
                fib(top) >= n,
                fib((low - 1) as nat) < n,
                fib((high + 1) as nat) >= n,
                top < reach,
                self@ == (EngineView { small_fibonacci_count: reach, ..old(self)@ }),
            decreases high + 1 - low,
        {
            let mid = low + (high - low) / 2;
            if self.fibonacci_u64(mid) < n {
                proof {
                    if mid >= top {
                        lemma_fib_monotonic(top, mid as nat);
                    }
                }
                low = mid + 1;
            } else {
                high = mid - 1;
            }
        }

        let mut index = low;
        let mut remainder = n;
        let mut list: Vec<u64> = Vec::new();
        while remainder > 0
            invariant
                self.wf(),
                index <= top <= 64,
                top < reach,
                indices_below(list@, 66),
                remainder < fib(index as nat + 1),
                zl_value(list@) + remainder == n,
                is_zeckendorf_descending(list@),
                forall|i: int| 0 <= i < list.len() ==> #[trigger] list[i] >= index + 2,
                self@ == (EngineView { small_fibonacci_count: reach, ..old(self)@ }),
            decreases index,
        {
            let value = self.fibonacci_u64(index);
            if value > remainder {
                index = index - 1;
            } else {
                proof {
                    lemma_fib_step((index - 1) as nat);
                    lemma_zl_value_push(list@, index);
                }
                remainder = remainder - value;
                list.push(index);
                index = index - 2;
            }
        }

        let remembered = copy_of_list(&list);
        self.small_lists.insert(n, remembered);
        proof {
            assert(self@.small_list_numbers =~= old(self)@.small_list_numbers.insert(n));
        }
        list
    }

    /// The Zeckendorf list of `n`, largest index first, for a natural of
    /// any size that the index search can serve (see
    /// [`MAX_NATURAL_BYTES`]). A list that is already remembered is handed
    /// out again; one that is not is computed and remembered, except for
    /// those of 0, 1 and 2, which are never remembered.
    ///
    /// The search is that of [`Engine::zeckendorf_list_u64`], on the dense
    /// table of naturals.
    pub fn zeckendorf_list(&mut self, n: &Natural) -> (list: Vec<u64>)
        requires
            old(self).wf(),
            byte_length(n@) <= MAX_NATURAL_BYTES,
        ensures
            final(self).wf(),
            is_zeckendorf_list(list@, n@),
            indices_below(list@, usize::MAX as nat),
            final(self)@ == (EngineView {
                big_fibonacci_count: if n@ <= 2 || old(self)@.big_list_numbers.contains(n@) {
                    old(self)@.big_fibonacci_count
                } else {
                    larger(old(self)@.big_fibonacci_count, doubling_search_top(n@, 1) + 1)
                },
                big_list_numbers: if n@ <= 2 {
                    old(self)@.big_list_numbers
                } else {
                    old(self)@.big_list_numbers.insert(n@)
                },
                ..old(self)@
            }),
    {
        broadcast use group_hash_axioms;

        proof {
            lemma_fib_small_values();
        }
        if n.is_zero() {
            return Vec::new();
        }
        if n.equals(&Natural::one()) {
            let mut list: Vec<u64> = Vec::new();
            list.push(2);
            proof {
                lemma_zl_value_push(Seq::<u64>::empty(), 2);
            }
            return list;
        }
        if n.equals(&Natural::from_u64(2)) {
            let mut list: Vec<u64> = Vec::new();
            list.push(3);
            proof {
                lemma_zl_value_push(Seq::<u64>::empty(), 3);
            }
            return list;
        }
        let key = n.low_u64();
        match self.big_lists.get(&key) {
            Some(bucket) => {
                let mut place: usize = 0;
                while place < bucket.len()
                    invariant
                        self.wf(),
                        *self == *old(self),
                        n@ > 2,
                        key == bucket_of(n@),
                        self.big_lists@.contains_key(key),
                        *bucket == self.big_lists@[key],
                        place <= bucket.len(),
                        forall|i: int| 0 <= i < place ==> (#[trigger] bucket[i]).0@ != n@,
                    decreases bucket.len() - place,
                {
                    if bucket[place].0.equals(n) {
                        let list = copy_of_list(&bucket[place].1);
                        proof {
                            assert(bucket_holds(bucket@, n@));
                            assert(self@.big_list_numbers =~= self@.big_list_numbers.insert(n@));
                        }
                        return list;
                    }
                    place = place + 1;
                }
            },
            None => {},
        }
        proof {
            assert(!old(self)@.big_list_numbers.contains(n@));
            lemma_fib_exceeds_bytes(n@);
        }

        let ghost limit: nat = 16 * byte_length(n@) + 1;
        let ghost top = doubling_search_top(n@, 1);
        let ghost reach = larger(old(self)@.big_fibonacci_count, top + 1);
        let mut low: u64 = 1;
        let mut high: u64 = 1;
        loop
            invariant_except_break
                self@ == (EngineView {
                    big_fibonacci_count: larger(old(self)@.big_fibonacci_count, low as nat + 1),
                    ..old(self)@
                }),
            invariant
                self.wf(),
                3 <= n@ < fib(limit),
                limit == 16 * byte_length(n@) + 1,
                byte_length(n@) <= MAX_NATURAL_BYTES,
                1 <= low <= high <= 2 * limit - 2,
                fib(low as nat) < n@,
                top == doubling_search_top(n@, high as nat),
                reach == larger(old(self)@.big_fibonacci_count, top + 1),
                self.big_lists == old(self).big_lists,
            ensures
                fib(high as nat) >= n@,
                high == top,
                self@ == (EngineView { big_fibonacci_count: reach, ..old(self)@ }),
            decreases 2 * limit - high,
        {
            self.grow_big_fibonacci(high);
            if !self.big_fibonacci[high as usize].lt(n) {
                break ;
            }
            proof {
                if high >= limit {
                    lemma_fib_monotonic(limit, high as nat);
                }
            }
            low = high;
            high = high * 2;
        }

        while low <= high
            invariant
                self.wf(),
                byte_length(n@) <= MAX_NATURAL_BYTES,
                1 <= low <= high + 1 <= 32 * byte_length(n@) + 1,
                low <= top,
                high <= top,
                fib(top) >= n@,
                fib((low - 1) as nat) < n@,
                fib((high + 1) as nat) >= n@,
                top < reach,
                self@ == (EngineView { big_fibonacci_count: reach, ..old(self)@ }),
                self.big_lists == old(self).big_lists,
            decreases high + 1 - low,
        {
            let mid = low + (high - low) / 2;
            self.grow_big_fibonacci(mid);
            if self.big_fibonacci[mid as usize].lt(n) {
                proof {
                    if mid >= top {
                        lemma_fib_monotonic(top, mid as nat);
                    }
                }
                low = mid + 1;
            } else {
                high = mid - 1;
            }
        }

        let mut index = low;
        let mut remainder = n.duplicate();
        let mut list: Vec<u64> = Vec::new();
        while !remainder.is_zero()
            invariant
                self.wf(),
                byte_length(n@) <= MAX_NATURAL_BYTES,
                index <= top <= 32 * byte_length(n@),
                top < reach,
                indices_below(list@, usize::MAX as nat),
                remainder@ < fib(index as nat + 1),
                zl_value(list@) + remainder@ == n@,
                is_zeckendorf_descending(list@),
                forall|i: int| 0 <= i < list.len() ==> #[trigger] list[i] >= index + 2,
                self@ == (EngineView { big_fibonacci_count: reach, ..old(self)@ }),
                self.big_lists == old(self).big_lists,
            decreases index,
        {
            self.grow_big_fibonacci(index);
            if remainder.lt(&self.big_fibonacci[index as usize]) {
                index = index - 1;
            } else {
                proof {
                    lemma_fib_step((index - 1) as nat);
                    lemma_zl_value_push(list@, index);
                }
                remainder = remainder.sub(&self.big_fibonacci[index as usize]);
                list.push(index);
                index = index - 2;
            }
        }

        let remembered = copy_of_list(&list);
        let mut bucket = match self.big_lists.remove(&key) {
            Some(bucket) => bucket,
            None => Vec::new(),
        };
        let ghost before = bucket@;
        bucket.push((n.duplicate(), remembered));
        let ghost after = bucket@;
        self.big_lists.insert(key, bucket);
        proof {
            let wanted = old(self)@.big_list_numbers.insert(n@);
            assert forall|m: nat| self@.big_list_numbers.contains(m) <==> wanted.contains(m) by {
                if bucket_of(m) == key {
                    if bucket_holds(before, m) {
                        let i = choose|i: int|
                            0 <= i < before.len() && (#[trigger] before[i]).0@ == m;
                        assert(after[i].0@ == m);
                    }
                    if m == n@ {
                        assert(after[before.len() as int].0@ == m);
                    }
                }
            }
            assert(self@.big_list_numbers =~= wanted);
        }
        list
    }

    /// The number that a list of Fibonacci indices stands for: the sum of
    /// the Fibonacci numbers at its indices, whatever their order. The dense
    /// table of naturals is extended up to the largest index in the list.
    pub fn list_value(&mut self, zl: &[u64]) -> (value: Natural)
        requires
            old(self).wf(),
            indices_below(zl@, usize::MAX as nat),
        ensures
            final(self).wf(),
            value@ == zl_value(zl@),
            final(self)@ == (EngineView {
                big_fibonacci_count: dense_reach(zl@, old(self)@.big_fibonacci_count),
                ..old(self)@
            }),
    {
        let mut sum = Natural::zero();
        let mut place: usize = 0;
        while place < zl.len()
            invariant
                self.wf(),
                place <= zl@.len(),
                indices_below(zl@, usize::MAX as nat),
                sum@ == zl_value(zl@.take(place as int)),
                self@ == (EngineView {
                    big_fibonacci_count: dense_reach(
                        zl@.take(place as int),
                        old(self)@.big_fibonacci_count,
                    ),
                    ..old(self)@
                }),
            decreases zl@.len() - place,
        {
            let fi = zl[place];
            self.grow_big_fibonacci(fi);
            sum = sum.add(&self.big_fibonacci[fi as usize]);
            proof {
                assert(zl@.take(place + 1).drop_last() =~= zl@.take(place as int));
            }
            place = place + 1;
        }
        proof {
            assert(zl@.take(place as int) =~= zl@);
        }
        sum
    }
}

/// A second copy of a list of indices.
fn copy_of_list(list: &Vec<u64>) -> (copy: Vec<u64>)
    ensures
        copy@ == list@,
{
    let copy = list.clone();
    copy
}

/// `F(fi)` as a machine word, for the indices whose Fibonacci number fits in
/// one: those up to 93.
pub fn memoized_slow_fibonacci_recursive(fi: u64) -> (value: u64)
    requires
        fi <= MAX_U64_FIBONACCI_INDEX,
    ensures
        value == fib(fi as nat),
{
    let mut engine = Engine::new();
    engine.fibonacci_u64(fi)
}

/// The Fibonacci number at an effective index: `F(efi + 2)`, for the
/// effective indices whose Fibonacci number fits in a machine word.
pub fn memoized_effective_fibonacci(efi: u64) -> (value: u64)
    requires
        efi + 2 <= MAX_U64_FIBONACCI_INDEX,
    ensures
        value == fib(efi as nat + 2),
{
    memoized_slow_fibonacci_recursive(efi_to_fi(efi))
}

/// `F(fi)`, looked up in a dense table that is built up to `fi`.
pub fn memoized_slow_fibonacci_bigint_iterative(fi: u64) -> (value: Natural)
    requires
        fi < usize::MAX,
    ensures
        value@ == fib(fi as nat),
{
    let mut engine = Engine::new();
    engine.fibonacci(fi)
}

/// `F(fi)`, by `fi` additions and with no table.
pub fn slow_fibonacci_bigint_iterative(fi: u64) -> (value: Natural)
    ensures
        value@ == fib(fi as nat),
{
    let mut f0 = Natural::zero();
    let mut f1 = Natural::one();
    let mut i: u64 = 0;
    while i < fi
        invariant
            i <= fi,
            f0@ == fib(i as nat),
            f1@ == fib(i as nat + 1),
        decreases fi - i,
    {
        let f2 = f0.add(&f1);
        f0 = f1;
        f1 = f2;
        i = i + 1;
    }
    f0
}

/// `F(fi)` by fast doubling: the bits of `fi` are read from the most
/// significant down, and the pair `(F(m), F(m+1))` is kept for the number `m`
/// that the bits read so far write. Each bit takes a fixed number of
/// multiplications.
pub fn fast_doubling_fibonacci_bigint(fi: u64) -> (value: Natural)
    ensures
        value@ == fib(fi as nat),
{
    let mut a = Natural::zero();
    let mut b = Natural::one();
    let mut m: u64 = 0;
    let mut fi_msb = highest_one_bit(fi);
    let ghost mut pending: nat = bit_length(fi as nat);
    proof {
        lemma_walk_start(fi);
    }
    while fi_msb != 0
        invariant
            pending <= 64,
            is_walk_state(fi, fi_msb, m, pending),
            a@ == fib(m as nat),
            b@ == fib(m as nat + 1),
        decreases pending,
    {
        proof {
            lemma_walk_step(fi, fi_msb, m, pending);
            lemma_fib_doubling(m as nat);
        }
        let d = a.mul(&b.double().sub(&a));
        let e = a.pow(2).add(&b.pow(2));
        proof {
            lemma_square(a@);
            lemma_square(b@);
        }
        a = d;
        b = e;
        m = m * 2;
        if fi & fi_msb != 0 {
            let sum = a.add(&b);
            a = b;
            b = sum;
            m = m + 1;
        }
        fi_msb = fi_msb >> 1;
        proof {
            pending = (pending - 1) as nat;
        }
    }
    proof {
        lemma_walk_step(fi, fi_msb, m, pending);
    }
    a
}

/// `F(fi)` by fast doubling, with a sparse map of the numbers that the walk
/// passes.
pub fn memoized_fast_doubling_fibonacci_bigint(fi: u64) -> (value: Natural)
    ensures
        value@ == fib(fi as nat),
{
    let mut engine = Engine::new();
    engine.fibonacci_fast_doubling(fi)
}

/// The indices whose Fibonacci numbers the fast-doubling walk to `fi`
/// passes: those of the walk to `fi / 2`, then twice `fi / 2`, then `fi`.
pub open spec fn doubling_walk_indices(fi: u64) -> Set<u64>
    decreases fi,
{
    if fi == 0 {
        set![0u64]
    } else {
        doubling_walk_indices(fi / 2).insert((2 * (fi / 2)) as u64).insert(fi)
    }
}

/// The indices in a list of indexed numbers.
pub open spec fn indices_of(values: Seq<(u64, Natural)>) -> Set<u64>
    decreases values.len(),
{
    if values.len() == 0 {
        Set::empty()
    } else {
        indices_of(values.drop_last()).insert(values.last().0)
    }
}

/// One more indexed number is one more index.
proof fn lemma_indices_of_push(values: Seq<(u64, Natural)>, value: (u64, Natural))
    ensures
        indices_of(values.push(value)) == indices_of(values).insert(value.0),
{
    assert(values.push(value).drop_last() =~= values);
}

/// The Zeckendorf list of `n`, largest index first.
pub fn memoized_zeckendorf_list_descending_for_bigint(n: &Natural) -> (list: Vec<u64>)
    requires
        byte_length(n@) <= MAX_NATURAL_BYTES,
    ensures
        is_zeckendorf_list(list@, n@),
        indices_below(list@, usize::MAX as nat),
{
    let mut engine = Engine::new();
    engine.zeckendorf_list(n)
}

/// The number that a list of Fibonacci indices stands for: the sum of the
/// Fibonacci numbers at its indices, whatever their order.
pub fn zl_to_bigint(zl: &[u64]) -> (value: Natural)
    requires
        indices_below(zl@, usize::MAX as nat),
    ensures
        value@ == zl_value(zl@),
{
    let mut engine = Engine::new();
    engine.list_value(zl)
}

/// Where the walk over the bits of `fi` stands when `pending` of them are
/// still to be read: `msb` is the mask of the next bit, or 0 when none is
/// left, and `m` is what the bits read so far write.
spec fn is_walk_state(fi: u64, msb: u64, m: u64, pending: nat) -> bool {
    &&& pending <= 64
    &&& if pending == 0 {
        msb == 0
    } else {
        msb == 1u64 << ((pending - 1) as u64)
    }
    &&& if pending == 64 {
        m == 0
    } else {
        m == fi >> (pending as u64)
    }
}

/// The walk starts with all the digits of `fi` pending and nothing read.
proof fn lemma_walk_start(fi: u64)
    ensures
        is_walk_state(
            fi,
            if fi == 0 {
                0
            } else {
                pow2((bit_length(fi as nat) - 1) as nat) as u64
            },
            0,
            bit_length(fi as nat),
        ),
{
    let pending = bit_length(fi as nat);
    lemma_bit_length_u64(fi);
    lemma_bit_length_bounds(fi as nat);
    if fi != 0 {
        lemma_shift_is_pow2((pending - 1) as nat);
    }
    if pending < 64 {
        let p = pending as u64;
        lemma_shift_is_pow2(pending);
        assert(p < 64 && fi < (1u64 << p) ==> fi >> p == 0) by (bit_vector);
    }
}

/// Reading the next bit: `m` becomes `2m`, or `2m + 1` if the bit is set,
/// neither of which overflows, and the mask moves one place down. When no
/// bit is pending, `m` is `fi`.
proof fn lemma_walk_step(fi: u64, msb: u64, m: u64, pending: nat)
    requires
        is_walk_state(fi, msb, m, pending),
    ensures
        pending == 0 ==> m == fi,
        pending > 0 ==> 2 * m + 1 <= u64::MAX && msb != 0 && is_walk_state(
            fi,
            msb >> 1,
            if fi & msb != 0 {
                (2 * m + 1) as u64
            } else {
                (2 * m) as u64
            },
            (pending - 1) as nat,
        ),
{
    if pending == 0 {
        assert(fi >> 0u64 == fi) by (bit_vector);
    } else {
        let j = (pending - 1) as u64;
        assert(j < 64 ==> (1u64 << j) != 0) by (bit_vector);
        assert(0 < j < 64 ==> (1u64 << j) >> 1 == 1u64 << ((j - 1) as u64)) by (bit_vector);
        assert((1u64 << 0u64) >> 1 == 0) by (bit_vector);
        if pending == 64 {
            assert(fi & (1u64 << 63u64) != 0 ==> fi >> 63u64 == 1) by (bit_vector);
            assert(fi & (1u64 << 63u64) == 0 ==> fi >> 63u64 == 0) by (bit_vector);
        } else {
            let k = pending as u64;
            assert(0 < k < 64 && fi & (1u64 << ((k - 1) as u64)) != 0 ==> fi >> ((k - 1) as u64)
                == 2 * (fi >> k) + 1) by (bit_vector);
            assert(0 < k < 64 && fi & (1u64 << ((k - 1) as u64)) == 0 ==> fi >> ((k - 1) as u64)
                == 2 * (fi >> k)) by (bit_vector);
        }
    }
}

/// The second power is the square.
proof fn lemma_square(x: nat)
    ensures
        pow(x as int, 2) == x * x,
{
    reveal_with_fuel(pow, 3);
}

/// The Zeckendorf list of `n`, largest index first, for `n` up to `F(64)`.
pub fn memoized_zeckendorf_list_descending_for_integer(n: u64) -> (list: Vec<u64>)
    requires
        n <= MAX_SMALL_ZECKENDORF_INPUT,
    ensures
        is_zeckendorf_list(list@, n as nat),
        indices_below(list@, MAX_U64_FIBONACCI_INDEX as nat + 1),
{
    let mut engine = Engine::new();
    engine.zeckendorf_list_u64(n)
}

} // verus!

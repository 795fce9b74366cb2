//! The Fibonacci sequence as a mathematical function, with the facts about
//! it that the engine and the codec are proved from.

use vstd::prelude::*;
use crate::bits::pow2;
use crate::byte_order::byte_length;
use crate::byte_order::lemma_byte_length_bound;
use crate::byte_order::pow256;

verus! {

/// The Fibonacci number with index `n`: 0, 1, 1, 2, 3, 5, 8, ...
pub open spec fn fib(n: nat) -> nat
    decreases n,
{
    if n == 0 {
        0
    } else if n == 1 {
        1
    } else {
        fib((n - 1) as nat) + fib((n - 2) as nat)
    }
}

/// The largest index whose Fibonacci number fits in 64 bits.
pub const MAX_U64_FIBONACCI_INDEX: u64 = 93;

/// The first few values.
pub proof fn lemma_fib_small_values()
    ensures
        fib(0) == 0,
        fib(1) == 1,
        fib(2) == 1,
        fib(3) == 2,
        fib(4) == 3,
        fib(5) == 5,
{
}

/// The recurrence, read upwards.
pub proof fn lemma_fib_step(n: nat)
    ensures
        fib(n + 2) == fib(n + 1) + fib(n),
{
}

/// The sequence never decreases.
pub proof fn lemma_fib_monotonic(i: nat, j: nat)
    requires
        i <= j,
    ensures
        fib(i) <= fib(j),
    decreases j - i,
{
    if i < j {
        lemma_fib_monotonic(i, (j - 1) as nat);
    }
}

/// Every Fibonacci number but the first is positive.
pub proof fn lemma_fib_positive(n: nat)
    requires
        n >= 1,
    ensures
        fib(n) >= 1,
{
    lemma_fib_monotonic(1, n);
}

/// Two steps up the sequence at least double a value, so the numbers at odd
/// indices outgrow the powers of two.
pub proof fn lemma_fib_outgrows_pow2(j: nat)
    ensures
        fib(2 * j + 1) >= pow2(j),
    decreases j,
{
    if j > 0 {
        lemma_fib_outgrows_pow2((j - 1) as nat);
        lemma_fib_step((2 * j - 1) as nat);
    }
}

/// A natural is below the Fibonacci number whose index is one more than 16
/// times the number of its bytes.
pub proof fn lemma_fib_exceeds_bytes(value: nat)
    ensures
        value < fib(16 * byte_length(value) + 1),
{
    let length = byte_length(value);
    lemma_byte_length_bound(value);
    lemma_pow256_is_pow2(length);
    lemma_fib_outgrows_pow2(8 * length);
}

/// `256^e` is `2^(8e)`.
proof fn lemma_pow256_is_pow2(e: nat)
    ensures
        pow256(e) == pow2(8 * e),
    decreases e,
{
    if e > 0 {
        lemma_pow256_is_pow2((e - 1) as nat);
        reveal_with_fuel(pow2, 9);
    }
}

/// The addition formula: `F(m+n+1) = F(m+1) F(n+1) + F(m) F(n)`.
pub proof fn lemma_fib_addition(m: nat, n: nat)
    ensures
        fib(m + n + 1) == fib(m + 1) * fib(n + 1) + fib(m) * fib(n),
    decreases n,
{
    if n == 0 {
        assert(fib(m + 1) * 1 + fib(m) * 0 == fib(m + 1)) by (nonlinear_arith);
    } else if n == 1 {
        assert(fib(0) == 0 && fib(1) == 1);
    } else {
        lemma_fib_addition(m, (n - 1) as nat);
        lemma_fib_addition(m, (n - 2) as nat);
        let a = fib(m + 1);
        let b = fib(m);
        let x = fib(n);
        let y = fib((n - 1) as nat);
        let z = fib((n - 2) as nat);
        assert(a * (x + y) + b * (y + z) == (a * x + b * y) + (a * y + b * z))
            by (nonlinear_arith);
    }
}

/// The doubling identities: `F(2k) = F(k) (2 F(k+1) - F(k))` and
/// `F(2k+1) = F(k+1)^2 + F(k)^2`.
pub proof fn lemma_fib_doubling(k: nat)
    ensures
        fib(k) <= fib(k + 1),
        fib(2 * k) == fib(k) * (2 * fib(k + 1) - fib(k)),
        fib(2 * k + 1) == fib(k + 1) * fib(k + 1) + fib(k) * fib(k),
{
    lemma_fib_addition(k, k);
    if k > 0 {
        lemma_fib_addition((k - 1) as nat, k);
        let a = fib(k);
        let b = fib(k + 1);
        assert(a * b + (b - a) * a == a * (2 * b - a)) by (nonlinear_arith);
    }
}

/// The Fibonacci numbers that fit in 64 bits, and the first that does not.
pub proof fn lemma_fib_table()
    ensures
        fib(64) == 10610209857723,
        fib(93) == 12200160415121876738,
        fib(93) <= u64::MAX,
        fib(94) > u64::MAX,
{
    assert(fib(0) == 0);
    assert(fib(1) == 1);
    assert(fib(2) == 1);
    assert(fib(3) == 2);
    assert(fib(4) == 3);
    assert(fib(5) == 5);
    assert(fib(6) == 8);
    assert(fib(7) == 13);
    assert(fib(8) == 21);
    assert(fib(9) == 34);
    assert(fib(10) == 55);
    assert(fib(11) == 89);
    assert(fib(12) == 144);
    assert(fib(13) == 233);
    assert(fib(14) == 377);
    assert(fib(15) == 610);
    assert(fib(16) == 987);
    assert(fib(17) == 1597);
    assert(fib(18) == 2584);
    assert(fib(19) == 4181);
    assert(fib(20) == 6765);
    assert(fib(21) == 10946);
    assert(fib(22) == 17711);
    assert(fib(23) == 28657);
    assert(fib(24) == 46368);
    assert(fib(25) == 75025);
    assert(fib(26) == 121393);
    assert(fib(27) == 196418);
    assert(fib(28) == 317811);
    assert(fib(29) == 514229);
    assert(fib(30) == 832040);
    assert(fib(31) == 1346269);
    assert(fib(32) == 2178309);
    assert(fib(33) == 3524578);
    assert(fib(34) == 5702887);
    assert(fib(35) == 9227465);
    assert(fib(36) == 14930352);
    assert(fib(37) == 24157817);
    assert(fib(38) == 39088169);
    assert(fib(39) == 63245986);
    assert(fib(40) == 102334155);
    assert(fib(41) == 165580141);
    assert(fib(42) == 267914296);
    assert(fib(43) == 433494437);
    assert(fib(44) == 701408733);
    assert(fib(45) == 1134903170);
    assert(fib(46) == 1836311903);
    assert(fib(47) == 2971215073);
    assert(fib(48) == 4807526976);
    assert(fib(49) == 7778742049);
    assert(fib(50) == 12586269025);
    assert(fib(51) == 20365011074);
    assert(fib(52) == 32951280099);
    assert(fib(53) == 53316291173);
    assert(fib(54) == 86267571272);
    assert(fib(55) == 139583862445);
    assert(fib(56) == 225851433717);
    assert(fib(57) == 365435296162);
    assert(fib(58) == 591286729879);
    assert(fib(59) == 956722026041);
    assert(fib(60) == 1548008755920);
    assert(fib(61) == 2504730781961);
    assert(fib(62) == 4052739537881);
    assert(fib(63) == 6557470319842);
    assert(fib(64) == 10610209857723);
    assert(fib(65) == 17167680177565);
    assert(fib(66) == 27777890035288);
    assert(fib(67) == 44945570212853);
    assert(fib(68) == 72723460248141);
    assert(fib(69) == 117669030460994);
    assert(fib(70) == 190392490709135);
    assert(fib(71) == 308061521170129);
    assert(fib(72) == 498454011879264);
    assert(fib(73) == 806515533049393);
    assert(fib(74) == 1304969544928657);
    assert(fib(75) == 2111485077978050);
    assert(fib(76) == 3416454622906707);
    assert(fib(77) == 5527939700884757);
    assert(fib(78) == 8944394323791464);
    assert(fib(79) == 14472334024676221);
    assert(fib(80) == 23416728348467685);
    assert(fib(81) == 37889062373143906);
    assert(fib(82) == 61305790721611591);
    assert(fib(83) == 99194853094755497);
    assert(fib(84) == 160500643816367088);
    assert(fib(85) == 259695496911122585);
    assert(fib(86) == 420196140727489673);
    assert(fib(87) == 679891637638612258);
    assert(fib(88) == 1100087778366101931);
    assert(fib(89) == 1779979416004714189);
    assert(fib(90) == 2880067194370816120);
    assert(fib(91) == 4660046610375530309);
    assert(fib(92) == 7540113804746346429);
}

/// `F(i)` fits in 64 bits for every index up to 93.
pub proof fn lemma_fib_fits_u64(i: nat)
    requires
        i <= MAX_U64_FIBONACCI_INDEX,
    ensures
        fib(i) <= u64::MAX,
{
    lemma_fib_table();
    lemma_fib_monotonic(i, 93);
}

/// The pair `(F(n), F(n+1))` as fast doubling finds it: from the pair for
/// `n / 2` by the doubling identities, and one step further if `n` is odd.
pub open spec fn fib_pair_by_doubling(n: nat) -> (nat, nat)
    decreases n,
{
    if n == 0 {
        (0, 1)
    } else {
        let half = fib_pair_by_doubling(n / 2);
        let doubled = (half.0 * (2 * half.1 - half.0)) as nat;
        let next = half.0 * half.0 + half.1 * half.1;
        if n % 2 == 0 {
            (doubled, next)
        } else {
            (next, doubled + next)
        }
    }
}

/// Fast doubling and the recurrence give the same numbers at every index.
pub proof fn lemma_fast_doubling_agrees(n: nat)
    ensures
        fib_pair_by_doubling(n) == (fib(n), fib(n + 1)),
    decreases n,
{
    if n > 0 {
        let k = n / 2;
        lemma_fast_doubling_agrees(k);
        lemma_fib_doubling(k);
    }
}

/// A Fibonacci number is at most 1 below its index.
pub proof fn lemma_fib_at_least_index(n: nat)
    ensures
        fib(n) + 1 >= n,
    decreases n,
{
    if n >= 2 {
        lemma_fib_at_least_index((n - 1) as nat);
        lemma_fib_at_least_index((n - 2) as nat);
        lemma_fib_small_values();
        if n >= 4 {
            lemma_fib_monotonic(2, (n - 2) as nat);
        }
    }
}

} // verus!

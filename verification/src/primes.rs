//! The moduli are the first 192 primes, and so coprime in pairs.
//!
//! Every entry of the table lies below 37 squared, so an entry is prime as
//! soon as none of the eleven primes below 37 divides it; and a number
//! between two entries is not prime as soon as one of them does.
use vstd::prelude::*;
use vstd::arithmetic::div_mod::{lemma_fundamental_div_mod, lemma_mod_multiples_basic};
use crate::embedding::{coprime_moduli, COPRIME_MODULI};

verus! {

/// `n` is a prime number.
pub open spec fn is_prime(n: int) -> bool {
    n >= 2 && forall|d: int| 2 <= d < n ==> #[trigger] (n % d) != 0
}

/// `table` lists the first primes: it starts with 2, each entry is prime,
/// each is followed by a greater one, and no prime lies between an entry
/// and the next.
pub open spec fn lists_first_primes(table: Seq<u64>) -> bool {
    &&& table.len() > 0
    &&& table[0] == 2
    &&& forall|i: int| 0 <= i < table.len() ==> is_prime(#[trigger] table[i] as int)
    &&& forall|i: int, n: int|
        0 <= i < table.len() - 1 && table[i] < n < table[i + 1] ==> !#[trigger] in_gap_prime(table, i, n)
    &&& forall|i: int| 0 <= i < table.len() - 1 ==> #[trigger] table[i] < table[i + 1]
}

/// `n` lies after entry `i` of `table` and is prime.
pub open spec fn in_gap_prime(table: Seq<u64>, i: int, n: int) -> bool {
    table[i] < n && is_prime(n)
}

/// No number but 1 divides both `a` and `b`.
pub open spec fn coprime(a: int, b: int) -> bool {
    forall|d: int| 2 <= d ==> !(#[trigger] (a % d) == 0 && b % d == 0)
}

/// None of the primes below 37 divides `n`, unless it is `n` itself.
pub open spec fn no_small_factor(n: int) -> bool {
    &&& (n == 2 || n % 2 != 0)
    &&& (n == 3 || n % 3 != 0)
    &&& (n == 5 || n % 5 != 0)
    &&& (n == 7 || n % 7 != 0)
    &&& (n == 11 || n % 11 != 0)
    &&& (n == 13 || n % 13 != 0)
    &&& (n == 17 || n % 17 != 0)
    &&& (n == 19 || n % 19 != 0)
    &&& (n == 23 || n % 23 != 0)
    &&& (n == 29 || n % 29 != 0)
    &&& (n == 31 || n % 31 != 0)
}

/// One of the primes below 37 divides `n` and is not `n` itself.
pub open spec fn has_small_factor(n: int) -> bool {
    ||| (n > 2 && n % 2 == 0)
    ||| (n > 3 && n % 3 == 0)
    ||| (n > 5 && n % 5 == 0)
    ||| (n > 7 && n % 7 == 0)
    ||| (n > 11 && n % 11 == 0)
    ||| (n > 13 && n % 13 == 0)
    ||| (n > 17 && n % 17 == 0)
    ||| (n > 19 && n % 19 == 0)
    ||| (n > 23 && n % 23 == 0)
    ||| (n > 29 && n % 29 == 0)
    ||| (n > 31 && n % 31 == 0)
}

/// Every number from 2 to 36 has a prime factor below 37.
proof fn lemma_small_numbers(s: int)
    requires
        2 <= s <= 36,
    ensures
        s % 2 == 0 || s % 3 == 0 || s % 5 == 0 || s % 7 == 0 || s % 11 == 0 || s % 13 == 0 || s % 17 == 0 || s % 19 == 0 || s % 23 == 0 || s % 29 == 0 || s % 31 == 0,
{
}

/// What divides a divisor of `n` divides `n`.
proof fn lemma_divides_transitive(q: int, s: int, n: int)
    requires
        q > 0,
        s > 0,
        n >= 0,
        s % q == 0,
        n % s == 0,
    ensures
        n % q == 0,
{
    lemma_fundamental_div_mod(s, q);
    lemma_fundamental_div_mod(n, s);
    let u = s / q;
    let t = n / s;
    assert(n == (u * t) * q) by (nonlinear_arith)
        requires
            n == s * t,
            s == q * u,
    ;
    lemma_mod_multiples_basic(u * t, q);
}

/// A number below 37 squared that no prime below 37 divides is prime.
proof fn lemma_no_small_factor_is_prime(n: int)
    requires
        2 <= n < 1369,
        no_small_factor(n),
    ensures
        is_prime(n),
{
    assert forall|d: int| 2 <= d < n implies #[trigger] (n % d) != 0 by {
        if n % d == 0 {
            lemma_fundamental_div_mod(n, d);
            let e = n / d;
            assert(n == d * e);
            assert(e >= 2 && e < n) by (nonlinear_arith)
                requires
                    n == d * e,
                    2 <= d < n,
            ;
            assert(n % e == 0) by {
                lemma_mod_multiples_basic(d, e);
            }
            let s = if d <= e {
                d
            } else {
                e
            };
            assert(s * s <= n) by (nonlinear_arith)
                requires
                    n == d * e,
                    d >= 2,
                    e >= 2,
                    s == if d <= e {
                        d
                    } else {
                        e
                    },
            ;
            assert(s <= 36) by (nonlinear_arith)
                requires
                    s * s <= n,
                    n < 1369,
                    s >= 0,
            ;
            assert(n % s == 0);
            lemma_small_numbers(s);
            if s % 2 == 0 {
                lemma_divides_transitive(2, s, n);
            }
            if s % 3 == 0 {
                lemma_divides_transitive(3, s, n);
            }
            if s % 5 == 0 {
                lemma_divides_transitive(5, s, n);
            }
            if s % 7 == 0 {
                lemma_divides_transitive(7, s, n);
            }
            if s % 11 == 0 {
                lemma_divides_transitive(11, s, n);
            }
            if s % 13 == 0 {
                lemma_divides_transitive(13, s, n);
            }
            if s % 17 == 0 {
                lemma_divides_transitive(17, s, n);
            }
            if s % 19 == 0 {
                lemma_divides_transitive(19, s, n);
            }
            if s % 23 == 0 {
                lemma_divides_transitive(23, s, n);
            }
            if s % 29 == 0 {
                lemma_divides_transitive(29, s, n);
            }
            if s % 31 == 0 {
                lemma_divides_transitive(31, s, n);
            }
        }
    }
}

/// A number that a smaller prime divides is not prime.
proof fn lemma_small_factor_not_prime(n: int)
    requires
        has_small_factor(n),
    ensures
        !is_prime(n),
{
    if n > 2 && n % 2 == 0 {
        assert((n % 2int) == 0);
    }
    if n > 3 && n % 3 == 0 {
        assert((n % 3int) == 0);
    }
    if n > 5 && n % 5 == 0 {
        assert((n % 5int) == 0);
    }
    if n > 7 && n % 7 == 0 {
        assert((n % 7int) == 0);
    }
    if n > 11 && n % 11 == 0 {
        assert((n % 11int) == 0);
    }
    if n > 13 && n % 13 == 0 {
        assert((n % 13int) == 0);
    }
    if n > 17 && n % 17 == 0 {
        assert((n % 17int) == 0);
    }
    if n > 19 && n % 19 == 0 {
        assert((n % 19int) == 0);
    }
    if n > 23 && n % 23 == 0 {
        assert((n % 23int) == 0);
    }
    if n > 29 && n % 29 == 0 {
        assert((n % 29int) == 0);
    }
    if n > 31 && n % 31 == 0 {
        assert((n % 31int) == 0);
    }
}

/// Entry `i` of the table is prime; if it is not the last, the next entry
/// is greater and no prime lies between the two.
pub open spec fn entry_in_order(i: int) -> bool {
    let t = coprime_moduli();
    &&& is_prime(t[i] as int)
    &&& i + 1 < t.len() ==> t[i] < t[i + 1] && forall|n: int|
        t[i] < n < t[i + 1] ==> !#[trigger] is_prime(n)
}

/// Entry `i` of the table is `p` and the next is `next`; `p` has no small
/// factor and every number between the two has one.
proof fn lemma_entry(i: int, p: int, next: int)
    requires
        0 <= i < 191,
        coprime_moduli()[i] == p,
        coprime_moduli()[i + 1] == next,
        2 <= p < next < 1369,
        no_small_factor(p),
        forall|n: int| p < n < next ==> has_small_factor(n),
    ensures
        entry_in_order(i),
{
    lemma_no_small_factor_is_prime(p);
    assert forall|n: int| p < n < next implies !#[trigger] is_prime(n) by {
        lemma_small_factor_not_prime(n);
    }
}

/// The last entry of the table is prime.
proof fn lemma_last_entry()
    ensures
        entry_in_order(191),
{
    assert(coprime_moduli()[191] == COPRIME_MODULI[191]);
    lemma_no_small_factor_is_prime(1163);
}

#[verifier::rlimit(60)]
proof fn lemma_entries_0_to_7()
    ensures
        forall|i: int| 0 <= i < 8 ==> entry_in_order(i),
{
    assert(entry_in_order(0)) by { lemma_entry(0, 2, 3); }
    assert(entry_in_order(1)) by { lemma_entry(1, 3, 5); }
    assert(entry_in_order(2)) by { lemma_entry(2, 5, 7); }
    assert(entry_in_order(3)) by { lemma_entry(3, 7, 11); }
    assert(entry_in_order(4)) by { lemma_entry(4, 11, 13); }
    assert(entry_in_order(5)) by { lemma_entry(5, 13, 17); }
    assert(entry_in_order(6)) by { lemma_entry(6, 17, 19); }
    assert(entry_in_order(7)) by { lemma_entry(7, 19, 23); }
    assert forall|i: int| 0 <= i < 8 implies entry_in_order(i) by {
        if i == 0 { assert(entry_in_order(0)); }
        if i == 1 { assert(entry_in_order(1)); }
        if i == 2 { assert(entry_in_order(2)); }
        if i == 3 { assert(entry_in_order(3)); }
        if i == 4 { assert(entry_in_order(4)); }
        if i == 5 { assert(entry_in_order(5)); }
        if i == 6 { assert(entry_in_order(6)); }
        if i == 7 { assert(entry_in_order(7)); }
    }
}

#[verifier::rlimit(60)]
proof fn lemma_entries_8_to_15()
    ensures
        forall|i: int| 8 <= i < 16 ==> entry_in_order(i),
{
    assert(entry_in_order(8)) by { lemma_entry(8, 23, 29); }
    assert(entry_in_order(9)) by { lemma_entry(9, 29, 31); }
    assert(entry_in_order(10)) by { lemma_entry(10, 31, 37); }
    assert(entry_in_order(11)) by { lemma_entry(11, 37, 41); }
    assert(entry_in_order(12)) by { lemma_entry(12, 41, 43); }
    assert(entry_in_order(13)) by { lemma_entry(13, 43, 47); }
    assert(entry_in_order(14)) by { lemma_entry(14, 47, 53); }
    assert(entry_in_order(15)) by { lemma_entry(15, 53, 59); }
    assert forall|i: int| 8 <= i < 16 implies entry_in_order(i) by {
        if i == 8 { assert(entry_in_order(8)); }
        if i == 9 { assert(entry_in_order(9)); }
        if i == 10 { assert(entry_in_order(10)); }
        if i == 11 { assert(entry_in_order(11)); }
        if i == 12 { assert(entry_in_order(12)); }
        if i == 13 { assert(entry_in_order(13)); }
        if i == 14 { assert(entry_in_order(14)); }
        if i == 15 { assert(entry_in_order(15)); }
    }
}

#[verifier::rlimit(60)]
proof fn lemma_entries_16_to_23()
    ensures
        forall|i: int| 16 <= i < 24 ==> entry_in_order(i),
{
    assert(entry_in_order(16)) by { lemma_entry(16, 59, 61); }
    assert(entry_in_order(17)) by { lemma_entry(17, 61, 67); }
    assert(entry_in_order(18)) by { lemma_entry(18, 67, 71); }
    assert(entry_in_order(19)) by { lemma_entry(19, 71, 73); }
    assert(entry_in_order(20)) by { lemma_entry(20, 73, 79); }
    assert(entry_in_order(21)) by { lemma_entry(21, 79, 83); }
    assert(entry_in_order(22)) by { lemma_entry(22, 83, 89); }
    assert(entry_in_order(23)) by { lemma_entry(23, 89, 97); }
    assert forall|i: int| 16 <= i < 24 implies entry_in_order(i) by {
        if i == 16 { assert(entry_in_order(16)); }
        if i == 17 { assert(entry_in_order(17)); }
        if i == 18 { assert(entry_in_order(18)); }
        if i == 19 { assert(entry_in_order(19)); }
        if i == 20 { assert(entry_in_order(20)); }
        if i == 21 { assert(entry_in_order(21)); }
        if i == 22 { assert(entry_in_order(22)); }
        if i == 23 { assert(entry_in_order(23)); }
    }
}

#[verifier::rlimit(60)]
proof fn lemma_entries_24_to_31()
    ensures
        forall|i: int| 24 <= i < 32 ==> entry_in_order(i),
{
    assert(entry_in_order(24)) by { lemma_entry(24, 97, 101); }
    assert(entry_in_order(25)) by { lemma_entry(25, 101, 103); }
    assert(entry_in_order(26)) by { lemma_entry(26, 103, 107); }
    assert(entry_in_order(27)) by { lemma_entry(27, 107, 109); }
    assert(entry_in_order(28)) by { lemma_entry(28, 109, 113); }
    assert(entry_in_order(29)) by { lemma_entry(29, 113, 127); }
    assert(entry_in_order(30)) by { lemma_entry(30, 127, 131); }
    assert(entry_in_order(31)) by { lemma_entry(31, 131, 137); }
    assert forall|i: int| 24 <= i < 32 implies entry_in_order(i) by {
        if i == 24 { assert(entry_in_order(24)); }
        if i == 25 { assert(entry_in_order(25)); }
        if i == 26 { assert(entry_in_order(26)); }
        if i == 27 { assert(entry_in_order(27)); }
        if i == 28 { assert(entry_in_order(28)); }
        if i == 29 { assert(entry_in_order(29)); }
        if i == 30 { assert(entry_in_order(30)); }
        if i == 31 { assert(entry_in_order(31)); }
    }
}

#[verifier::rlimit(60)]
proof fn lemma_entries_32_to_39()
    ensures
        forall|i: int| 32 <= i < 40 ==> entry_in_order(i),
{
    assert(entry_in_order(32)) by { lemma_entry(32, 137, 139); }
    assert(entry_in_order(33)) by { lemma_entry(33, 139, 149); }
    assert(entry_in_order(34)) by { lemma_entry(34, 149, 151); }
    assert(entry_in_order(35)) by { lemma_entry(35, 151, 157); }
    assert(entry_in_order(36)) by { lemma_entry(36, 157, 163); }
    assert(entry_in_order(37)) by { lemma_entry(37, 163, 167); }
    assert(entry_in_order(38)) by { lemma_entry(38, 167, 173); }
    assert(entry_in_order(39)) by { lemma_entry(39, 173, 179); }
    assert forall|i: int| 32 <= i < 40 implies entry_in_order(i) by {
        if i == 32 { assert(entry_in_order(32)); }
        if i == 33 { assert(entry_in_order(33)); }
        if i == 34 { assert(entry_in_order(34)); }
        if i == 35 { assert(entry_in_order(35)); }
        if i == 36 { assert(entry_in_order(36)); }
        if i == 37 { assert(entry_in_order(37)); }
        if i == 38 { assert(entry_in_order(38)); }
        if i == 39 { assert(entry_in_order(39)); }
    }
}

#[verifier::rlimit(60)]
proof fn lemma_entries_40_to_47()
    ensures
        forall|i: int| 40 <= i < 48 ==> entry_in_order(i),
{
    assert(entry_in_order(40)) by { lemma_entry(40, 179, 181); }
    assert(entry_in_order(41)) by { lemma_entry(41, 181, 191); }
    assert(entry_in_order(42)) by { lemma_entry(42, 191, 193); }
    assert(entry_in_order(43)) by { lemma_entry(43, 193, 197); }
    assert(entry_in_order(44)) by { lemma_entry(44, 197, 199); }
    assert(entry_in_order(45)) by { lemma_entry(45, 199, 211); }
    assert(entry_in_order(46)) by { lemma_entry(46, 211, 223); }
    assert(entry_in_order(47)) by { lemma_entry(47, 223, 227); }
    assert forall|i: int| 40 <= i < 48 implies entry_in_order(i) by {
        if i == 40 { assert(entry_in_order(40)); }
        if i == 41 { assert(entry_in_order(41)); }
        if i == 42 { assert(entry_in_order(42)); }
        if i == 43 { assert(entry_in_order(43)); }
        if i == 44 { assert(entry_in_order(44)); }
        if i == 45 { assert(entry_in_order(45)); }
        if i == 46 { assert(entry_in_order(46)); }
        if i == 47 { assert(entry_in_order(47)); }
    }
}

#[verifier::rlimit(60)]
proof fn lemma_entries_48_to_55()
    ensures
        forall|i: int| 48 <= i < 56 ==> entry_in_order(i),
{
    assert(entry_in_order(48)) by { lemma_entry(48, 227, 229); }
    assert(entry_in_order(49)) by { lemma_entry(49, 229, 233); }
    assert(entry_in_order(50)) by { lemma_entry(50, 233, 239); }
    assert(entry_in_order(51)) by { lemma_entry(51, 239, 241); }
    assert(entry_in_order(52)) by { lemma_entry(52, 241, 251); }
    assert(entry_in_order(53)) by { lemma_entry(53, 251, 257); }
    assert(entry_in_order(54)) by { lemma_entry(54, 257, 263); }
    assert(entry_in_order(55)) by { lemma_entry(55, 263, 269); }
    assert forall|i: int| 48 <= i < 56 implies entry_in_order(i) by {
        if i == 48 { assert(entry_in_order(48)); }
        if i == 49 { assert(entry_in_order(49)); }
        if i == 50 { assert(entry_in_order(50)); }
        if i == 51 { assert(entry_in_order(51)); }
        if i == 52 { assert(entry_in_order(52)); }
        if i == 53 { assert(entry_in_order(53)); }
        if i == 54 { assert(entry_in_order(54)); }
        if i == 55 { assert(entry_in_order(55)); }
    }
}

#[verifier::rlimit(60)]
proof fn lemma_entries_56_to_63()
    ensures
        forall|i: int| 56 <= i < 64 ==> entry_in_order(i),
{
    assert(entry_in_order(56)) by { lemma_entry(56, 269, 271); }
    assert(entry_in_order(57)) by { lemma_entry(57, 271, 277); }
    assert(entry_in_order(58)) by { lemma_entry(58, 277, 281); }
    assert(entry_in_order(59)) by { lemma_entry(59, 281, 283); }
    assert(entry_in_order(60)) by { lemma_entry(60, 283, 293); }
    assert(entry_in_order(61)) by { lemma_entry(61, 293, 307); }
    assert(entry_in_order(62)) by { lemma_entry(62, 307, 311); }
    assert(entry_in_order(63)) by { lemma_entry(63, 311, 313); }
    assert forall|i: int| 56 <= i < 64 implies entry_in_order(i) by {
        if i == 56 { assert(entry_in_order(56)); }
        if i == 57 { assert(entry_in_order(57)); }
        if i == 58 { assert(entry_in_order(58)); }
        if i == 59 { assert(entry_in_order(59)); }
        if i == 60 { assert(entry_in_order(60)); }
        if i == 61 { assert(entry_in_order(61)); }
        if i == 62 { assert(entry_in_order(62)); }
        if i == 63 { assert(entry_in_order(63)); }
    }
}

#[verifier::rlimit(60)]
proof fn lemma_entries_64_to_71()
    ensures
        forall|i: int| 64 <= i < 72 ==> entry_in_order(i),
{
    assert(entry_in_order(64)) by { lemma_entry(64, 313, 317); }
    assert(entry_in_order(65)) by { lemma_entry(65, 317, 331); }
    assert(entry_in_order(66)) by { lemma_entry(66, 331, 337); }
    assert(entry_in_order(67)) by { lemma_entry(67, 337, 347); }
    assert(entry_in_order(68)) by { lemma_entry(68, 347, 349); }
    assert(entry_in_order(69)) by { lemma_entry(69, 349, 353); }
    assert(entry_in_order(70)) by { lemma_entry(70, 353, 359); }
    assert(entry_in_order(71)) by { lemma_entry(71, 359, 367); }
    assert forall|i: int| 64 <= i < 72 implies entry_in_order(i) by {
        if i == 64 { assert(entry_in_order(64)); }
        if i == 65 { assert(entry_in_order(65)); }
        if i == 66 { assert(entry_in_order(66)); }
        if i == 67 { assert(entry_in_order(67)); }
        if i == 68 { assert(entry_in_order(68)); }
        if i == 69 { assert(entry_in_order(69)); }
        if i == 70 { assert(entry_in_order(70)); }
        if i == 71 { assert(entry_in_order(71)); }
    }
}

#[verifier::rlimit(60)]
proof fn lemma_entries_72_to_79()
    ensures
        forall|i: int| 72 <= i < 80 ==> entry_in_order(i),
{
    assert(entry_in_order(72)) by { lemma_entry(72, 367, 373); }
    assert(entry_in_order(73)) by { lemma_entry(73, 373, 379); }
    assert(entry_in_order(74)) by { lemma_entry(74, 379, 383); }
    assert(entry_in_order(75)) by { lemma_entry(75, 383, 389); }
    assert(entry_in_order(76)) by { lemma_entry(76, 389, 397); }
    assert(entry_in_order(77)) by { lemma_entry(77, 397, 401); }
    assert(entry_in_order(78)) by { lemma_entry(78, 401, 409); }
    assert(entry_in_order(79)) by { lemma_entry(79, 409, 419); }
    assert forall|i: int| 72 <= i < 80 implies entry_in_order(i) by {
        if i == 72 { assert(entry_in_order(72)); }
        if i == 73 { assert(entry_in_order(73)); }
        if i == 74 { assert(entry_in_order(74)); }
        if i == 75 { assert(entry_in_order(75)); }
        if i == 76 { assert(entry_in_order(76)); }
        if i == 77 { assert(entry_in_order(77)); }
        if i == 78 { assert(entry_in_order(78)); }
        if i == 79 { assert(entry_in_order(79)); }
    }
}

#[verifier::rlimit(60)]
proof fn lemma_entries_80_to_87()
    ensures
        forall|i: int| 80 <= i < 88 ==> entry_in_order(i),
{
    assert(entry_in_order(80)) by { lemma_entry(80, 419, 421); }
    assert(entry_in_order(81)) by { lemma_entry(81, 421, 431); }
    assert(entry_in_order(82)) by { lemma_entry(82, 431, 433); }
    assert(entry_in_order(83)) by { lemma_entry(83, 433, 439); }
    assert(entry_in_order(84)) by { lemma_entry(84, 439, 443); }
    assert(entry_in_order(85)) by { lemma_entry(85, 443, 449); }
    assert(entry_in_order(86)) by { lemma_entry(86, 449, 457); }
    assert(entry_in_order(87)) by { lemma_entry(87, 457, 461); }
    assert forall|i: int| 80 <= i < 88 implies entry_in_order(i) by {
        if i == 80 { assert(entry_in_order(80)); }
        if i == 81 { assert(entry_in_order(81)); }
        if i == 82 { assert(entry_in_order(82)); }
        if i == 83 { assert(entry_in_order(83)); }
        if i == 84 { assert(entry_in_order(84)); }
        if i == 85 { assert(entry_in_order(85)); }
        if i == 86 { assert(entry_in_order(86)); }
        if i == 87 { assert(entry_in_order(87)); }
    }
}

#[verifier::rlimit(60)]
proof fn lemma_entries_88_to_95()
    ensures
        forall|i: int| 88 <= i < 96 ==> entry_in_order(i),
{
    assert(entry_in_order(88)) by { lemma_entry(88, 461, 463); }
    assert(entry_in_order(89)) by { lemma_entry(89, 463, 467); }
    assert(entry_in_order(90)) by { lemma_entry(90, 467, 479); }
    assert(entry_in_order(91)) by { lemma_entry(91, 479, 487); }
    assert(entry_in_order(92)) by { lemma_entry(92, 487, 491); }
    assert(entry_in_order(93)) by { lemma_entry(93, 491, 499); }
    assert(entry_in_order(94)) by { lemma_entry(94, 499, 503); }
    assert(entry_in_order(95)) by { lemma_entry(95, 503, 509); }
    assert forall|i: int| 88 <= i < 96 implies entry_in_order(i) by {
        if i == 88 { assert(entry_in_order(88)); }
        if i == 89 { assert(entry_in_order(89)); }
        if i == 90 { assert(entry_in_order(90)); }
        if i == 91 { assert(entry_in_order(91)); }
        if i == 92 { assert(entry_in_order(92)); }
        if i == 93 { assert(entry_in_order(93)); }
        if i == 94 { assert(entry_in_order(94)); }
        if i == 95 { assert(entry_in_order(95)); }
    }
}

#[verifier::rlimit(60)]
proof fn lemma_entries_96_to_103()
    ensures
        forall|i: int| 96 <= i < 104 ==> entry_in_order(i),
{
    assert(entry_in_order(96)) by { lemma_entry(96, 509, 521); }
    assert(entry_in_order(97)) by { lemma_entry(97, 521, 523); }
    assert(entry_in_order(98)) by { lemma_entry(98, 523, 541); }
    assert(entry_in_order(99)) by { lemma_entry(99, 541, 547); }
    assert(entry_in_order(100)) by { lemma_entry(100, 547, 557); }
    assert(entry_in_order(101)) by { lemma_entry(101, 557, 563); }
    assert(entry_in_order(102)) by { lemma_entry(102, 563, 569); }
    assert(entry_in_order(103)) by { lemma_entry(103, 569, 571); }
    assert forall|i: int| 96 <= i < 104 implies entry_in_order(i) by {
        if i == 96 { assert(entry_in_order(96)); }
        if i == 97 { assert(entry_in_order(97)); }
        if i == 98 { assert(entry_in_order(98)); }
        if i == 99 { assert(entry_in_order(99)); }
        if i == 100 { assert(entry_in_order(100)); }
        if i == 101 { assert(entry_in_order(101)); }
        if i == 102 { assert(entry_in_order(102)); }
        if i == 103 { assert(entry_in_order(103)); }
    }
}

#[verifier::rlimit(60)]
proof fn lemma_entries_104_to_111()
    ensures
        forall|i: int| 104 <= i < 112 ==> entry_in_order(i),
{
    assert(entry_in_order(104)) by { lemma_entry(104, 571, 577); }
    assert(entry_in_order(105)) by { lemma_entry(105, 577, 587); }
    assert(entry_in_order(106)) by { lemma_entry(106, 587, 593); }
    assert(entry_in_order(107)) by { lemma_entry(107, 593, 599); }
    assert(entry_in_order(108)) by { lemma_entry(108, 599, 601); }
    assert(entry_in_order(109)) by { lemma_entry(109, 601, 607); }
    assert(entry_in_order(110)) by { lemma_entry(110, 607, 613); }
    assert(entry_in_order(111)) by { lemma_entry(111, 613, 617); }
    assert forall|i: int| 104 <= i < 112 implies entry_in_order(i) by {
        if i == 104 { assert(entry_in_order(104)); }
        if i == 105 { assert(entry_in_order(105)); }
        if i == 106 { assert(entry_in_order(106)); }
        if i == 107 { assert(entry_in_order(107)); }
        if i == 108 { assert(entry_in_order(108)); }
        if i == 109 { assert(entry_in_order(109)); }
        if i == 110 { assert(entry_in_order(110)); }
        if i == 111 { assert(entry_in_order(111)); }
    }
}

#[verifier::rlimit(60)]
proof fn lemma_entries_112_to_119()
    ensures
        forall|i: int| 112 <= i < 120 ==> entry_in_order(i),
{
    assert(entry_in_order(112)) by { lemma_entry(112, 617, 619); }
    assert(entry_in_order(113)) by { lemma_entry(113, 619, 631); }
    assert(entry_in_order(114)) by { lemma_entry(114, 631, 641); }
    assert(entry_in_order(115)) by { lemma_entry(115, 641, 643); }
    assert(entry_in_order(116)) by { lemma_entry(116, 643, 647); }
    assert(entry_in_order(117)) by { lemma_entry(117, 647, 653); }
    assert(entry_in_order(118)) by { lemma_entry(118, 653, 659); }
    assert(entry_in_order(119)) by { lemma_entry(119, 659, 661); }
    assert forall|i: int| 112 <= i < 120 implies entry_in_order(i) by {
        if i == 112 { assert(entry_in_order(112)); }
        if i == 113 { assert(entry_in_order(113)); }
        if i == 114 { assert(entry_in_order(114)); }
        if i == 115 { assert(entry_in_order(115)); }
        if i == 116 { assert(entry_in_order(116)); }
        if i == 117 { assert(entry_in_order(117)); }
        if i == 118 { assert(entry_in_order(118)); }
        if i == 119 { assert(entry_in_order(119)); }
    }
}

#[verifier::rlimit(60)]
proof fn lemma_entries_120_to_127()
    ensures
        forall|i: int| 120 <= i < 128 ==> entry_in_order(i),
{
    assert(entry_in_order(120)) by { lemma_entry(120, 661, 673); }
    assert(entry_in_order(121)) by { lemma_entry(121, 673, 677); }
    assert(entry_in_order(122)) by { lemma_entry(122, 677, 683); }
    assert(entry_in_order(123)) by { lemma_entry(123, 683, 691); }
    assert(entry_in_order(124)) by { lemma_entry(124, 691, 701); }
    assert(entry_in_order(125)) by { lemma_entry(125, 701, 709); }
    assert(entry_in_order(126)) by { lemma_entry(126, 709, 719); }
    assert(entry_in_order(127)) by { lemma_entry(127, 719, 727); }
    assert forall|i: int| 120 <= i < 128 implies entry_in_order(i) by {
        if i == 120 { assert(entry_in_order(120)); }
        if i == 121 { assert(entry_in_order(121)); }
        if i == 122 { assert(entry_in_order(122)); }
        if i == 123 { assert(entry_in_order(123)); }
        if i == 124 { assert(entry_in_order(124)); }
        if i == 125 { assert(entry_in_order(125)); }
        if i == 126 { assert(entry_in_order(126)); }
        if i == 127 { assert(entry_in_order(127)); }
    }
}

#[verifier::rlimit(60)]
proof fn lemma_entries_128_to_135()
    ensures
        forall|i: int| 128 <= i < 136 ==> entry_in_order(i),
{
    assert(entry_in_order(128)) by { lemma_entry(128, 727, 733); }
    assert(entry_in_order(129)) by { lemma_entry(129, 733, 739); }
    assert(entry_in_order(130)) by { lemma_entry(130, 739, 743); }
    assert(entry_in_order(131)) by { lemma_entry(131, 743, 751); }
    assert(entry_in_order(132)) by { lemma_entry(132, 751, 757); }
    assert(entry_in_order(133)) by { lemma_entry(133, 757, 761); }
    assert(entry_in_order(134)) by { lemma_entry(134, 761, 769); }
    assert(entry_in_order(135)) by { lemma_entry(135, 769, 773); }
    assert forall|i: int| 128 <= i < 136 implies entry_in_order(i) by {
        if i == 128 { assert(entry_in_order(128)); }
        if i == 129 { assert(entry_in_order(129)); }
        if i == 130 { assert(entry_in_order(130)); }
        if i == 131 { assert(entry_in_order(131)); }
        if i == 132 { assert(entry_in_order(132)); }
        if i == 133 { assert(entry_in_order(133)); }
        if i == 134 { assert(entry_in_order(134)); }
        if i == 135 { assert(entry_in_order(135)); }
    }
}

#[verifier::rlimit(60)]
proof fn lemma_entries_136_to_143()
    ensures
        forall|i: int| 136 <= i < 144 ==> entry_in_order(i),
{
    assert(entry_in_order(136)) by { lemma_entry(136, 773, 787); }
    assert(entry_in_order(137)) by { lemma_entry(137, 787, 797); }
    assert(entry_in_order(138)) by { lemma_entry(138, 797, 809); }
    assert(entry_in_order(139)) by { lemma_entry(139, 809, 811); }
    assert(entry_in_order(140)) by { lemma_entry(140, 811, 821); }
    assert(entry_in_order(141)) by { lemma_entry(141, 821, 823); }
    assert(entry_in_order(142)) by { lemma_entry(142, 823, 827); }
    assert(entry_in_order(143)) by { lemma_entry(143, 827, 829); }
    assert forall|i: int| 136 <= i < 144 implies entry_in_order(i) by {
        if i == 136 { assert(entry_in_order(136)); }
        if i == 137 { assert(entry_in_order(137)); }
        if i == 138 { assert(entry_in_order(138)); }
        if i == 139 { assert(entry_in_order(139)); }
        if i == 140 { assert(entry_in_order(140)); }
        if i == 141 { assert(entry_in_order(141)); }
        if i == 142 { assert(entry_in_order(142)); }
        if i == 143 { assert(entry_in_order(143)); }
    }
}

#[verifier::rlimit(60)]
proof fn lemma_entries_144_to_151()
    ensures
        forall|i: int| 144 <= i < 152 ==> entry_in_order(i),
{
    assert(entry_in_order(144)) by { lemma_entry(144, 829, 839); }
    assert(entry_in_order(145)) by { lemma_entry(145, 839, 853); }
    assert(entry_in_order(146)) by { lemma_entry(146, 853, 857); }
    assert(entry_in_order(147)) by { lemma_entry(147, 857, 859); }
    assert(entry_in_order(148)) by { lemma_entry(148, 859, 863); }
    assert(entry_in_order(149)) by { lemma_entry(149, 863, 877); }
    assert(entry_in_order(150)) by { lemma_entry(150, 877, 881); }
    assert(entry_in_order(151)) by { lemma_entry(151, 881, 883); }
    assert forall|i: int| 144 <= i < 152 implies entry_in_order(i) by {
        if i == 144 { assert(entry_in_order(144)); }
        if i == 145 { assert(entry_in_order(145)); }
        if i == 146 { assert(entry_in_order(146)); }
        if i == 147 { assert(entry_in_order(147)); }
        if i == 148 { assert(entry_in_order(148)); }
        if i == 149 { assert(entry_in_order(149)); }
        if i == 150 { assert(entry_in_order(150)); }
        if i == 151 { assert(entry_in_order(151)); }
    }
}

#[verifier::rlimit(60)]
proof fn lemma_entries_152_to_159()
    ensures
        forall|i: int| 152 <= i < 160 ==> entry_in_order(i),
{
    assert(entry_in_order(152)) by { lemma_entry(152, 883, 887); }
    assert(entry_in_order(153)) by { lemma_entry(153, 887, 907); }
    assert(entry_in_order(154)) by { lemma_entry(154, 907, 911); }
    assert(entry_in_order(155)) by { lemma_entry(155, 911, 919); }
    assert(entry_in_order(156)) by { lemma_entry(156, 919, 929); }
    assert(entry_in_order(157)) by { lemma_entry(157, 929, 937); }
    assert(entry_in_order(158)) by { lemma_entry(158, 937, 941); }
    assert(entry_in_order(159)) by { lemma_entry(159, 941, 947); }
    assert forall|i: int| 152 <= i < 160 implies entry_in_order(i) by {
        if i == 152 { assert(entry_in_order(152)); }
        if i == 153 { assert(entry_in_order(153)); }
        if i == 154 { assert(entry_in_order(154)); }
        if i == 155 { assert(entry_in_order(155)); }
        if i == 156 { assert(entry_in_order(156)); }
        if i == 157 { assert(entry_in_order(157)); }
        if i == 158 { assert(entry_in_order(158)); }
        if i == 159 { assert(entry_in_order(159)); }
    }
}

#[verifier::rlimit(60)]
proof fn lemma_entries_160_to_167()
    ensures
        forall|i: int| 160 <= i < 168 ==> entry_in_order(i),
{
    assert(entry_in_order(160)) by { lemma_entry(160, 947, 953); }
    assert(entry_in_order(161)) by { lemma_entry(161, 953, 967); }
    assert(entry_in_order(162)) by { lemma_entry(162, 967, 971); }
    assert(entry_in_order(163)) by { lemma_entry(163, 971, 977); }
    assert(entry_in_order(164)) by { lemma_entry(164, 977, 983); }
    assert(entry_in_order(165)) by { lemma_entry(165, 983, 991); }
    assert(entry_in_order(166)) by { lemma_entry(166, 991, 997); }
    assert(entry_in_order(167)) by { lemma_entry(167, 997, 1009); }
    assert forall|i: int| 160 <= i < 168 implies entry_in_order(i) by {
        if i == 160 { assert(entry_in_order(160)); }
        if i == 161 { assert(entry_in_order(161)); }
        if i == 162 { assert(entry_in_order(162)); }
        if i == 163 { assert(entry_in_order(163)); }
        if i == 164 { assert(entry_in_order(164)); }
        if i == 165 { assert(entry_in_order(165)); }
        if i == 166 { assert(entry_in_order(166)); }
        if i == 167 { assert(entry_in_order(167)); }
    }
}

#[verifier::rlimit(60)]
proof fn lemma_entries_168_to_175()
    ensures
        forall|i: int| 168 <= i < 176 ==> entry_in_order(i),
{
    assert(entry_in_order(168)) by { lemma_entry(168, 1009, 1013); }
    assert(entry_in_order(169)) by { lemma_entry(169, 1013, 1019); }
    assert(entry_in_order(170)) by { lemma_entry(170, 1019, 1021); }
    assert(entry_in_order(171)) by { lemma_entry(171, 1021, 1031); }
    assert(entry_in_order(172)) by { lemma_entry(172, 1031, 1033); }
    assert(entry_in_order(173)) by { lemma_entry(173, 1033, 1039); }
    assert(entry_in_order(174)) by { lemma_entry(174, 1039, 1049); }
    assert(entry_in_order(175)) by { lemma_entry(175, 1049, 1051); }
    assert forall|i: int| 168 <= i < 176 implies entry_in_order(i) by {
        if i == 168 { assert(entry_in_order(168)); }
        if i == 169 { assert(entry_in_order(169)); }
        if i == 170 { assert(entry_in_order(170)); }
        if i == 171 { assert(entry_in_order(171)); }
        if i == 172 { assert(entry_in_order(172)); }
        if i == 173 { assert(entry_in_order(173)); }
        if i == 174 { assert(entry_in_order(174)); }
        if i == 175 { assert(entry_in_order(175)); }
    }
}

#[verifier::rlimit(60)]
proof fn lemma_entries_176_to_183()
    ensures
        forall|i: int| 176 <= i < 184 ==> entry_in_order(i),
{
    assert(entry_in_order(176)) by { lemma_entry(176, 1051, 1061); }
    assert(entry_in_order(177)) by { lemma_entry(177, 1061, 1063); }
    assert(entry_in_order(178)) by { lemma_entry(178, 1063, 1069); }
    assert(entry_in_order(179)) by { lemma_entry(179, 1069, 1087); }
    assert(entry_in_order(180)) by { lemma_entry(180, 1087, 1091); }
    assert(entry_in_order(181)) by { lemma_entry(181, 1091, 1093); }
    assert(entry_in_order(182)) by { lemma_entry(182, 1093, 1097); }
    assert(entry_in_order(183)) by { lemma_entry(183, 1097, 1103); }
    assert forall|i: int| 176 <= i < 184 implies entry_in_order(i) by {
        if i == 176 { assert(entry_in_order(176)); }
        if i == 177 { assert(entry_in_order(177)); }
        if i == 178 { assert(entry_in_order(178)); }
        if i == 179 { assert(entry_in_order(179)); }
        if i == 180 { assert(entry_in_order(180)); }
        if i == 181 { assert(entry_in_order(181)); }
        if i == 182 { assert(entry_in_order(182)); }
        if i == 183 { assert(entry_in_order(183)); }
    }
}

#[verifier::rlimit(60)]
proof fn lemma_entries_184_to_191()
    ensures
        forall|i: int| 184 <= i < 192 ==> entry_in_order(i),
{
    assert(entry_in_order(184)) by { lemma_entry(184, 1103, 1109); }
    assert(entry_in_order(185)) by { lemma_entry(185, 1109, 1117); }
    assert(entry_in_order(186)) by { lemma_entry(186, 1117, 1123); }
    assert(entry_in_order(187)) by { lemma_entry(187, 1123, 1129); }
    assert(entry_in_order(188)) by { lemma_entry(188, 1129, 1151); }
    assert(entry_in_order(189)) by { lemma_entry(189, 1151, 1153); }
    assert(entry_in_order(190)) by { lemma_entry(190, 1153, 1163); }
    lemma_last_entry();
    assert forall|i: int| 184 <= i < 192 implies entry_in_order(i) by {
        if i == 184 { assert(entry_in_order(184)); }
        if i == 185 { assert(entry_in_order(185)); }
        if i == 186 { assert(entry_in_order(186)); }
        if i == 187 { assert(entry_in_order(187)); }
        if i == 188 { assert(entry_in_order(188)); }
        if i == 189 { assert(entry_in_order(189)); }
        if i == 190 { assert(entry_in_order(190)); }
        if i == 191 { assert(entry_in_order(191)); }
    }
}

/// The table of moduli lists the first 192 primes.
pub proof fn lemma_moduli_are_first_primes()
    ensures
        coprime_moduli().len() == 192,
        lists_first_primes(coprime_moduli()),
{
    let t = coprime_moduli();
    lemma_entries_0_to_7();
    lemma_entries_8_to_15();
    lemma_entries_16_to_23();
    lemma_entries_24_to_31();
    lemma_entries_32_to_39();
    lemma_entries_40_to_47();
    lemma_entries_48_to_55();
    lemma_entries_56_to_63();
    lemma_entries_64_to_71();
    lemma_entries_72_to_79();
    lemma_entries_80_to_87();
    lemma_entries_88_to_95();
    lemma_entries_96_to_103();
    lemma_entries_104_to_111();
    lemma_entries_112_to_119();
    lemma_entries_120_to_127();
    lemma_entries_128_to_135();
    lemma_entries_136_to_143();
    lemma_entries_144_to_151();
    lemma_entries_152_to_159();
    lemma_entries_160_to_167();
    lemma_entries_168_to_175();
    lemma_entries_176_to_183();
    lemma_entries_184_to_191();
    assert(t[0] == COPRIME_MODULI[0]);
    assert forall|i: int| 0 <= i < t.len() implies is_prime(#[trigger] t[i] as int) by {
        assert(entry_in_order(i));
    }
    assert forall|i: int| 0 <= i < t.len() - 1 implies #[trigger] t[i] < t[i + 1] by {
        assert(entry_in_order(i));
    }
    assert forall|i: int, n: int| 0 <= i < t.len() - 1 && t[i] < n < t[i + 1] implies !#[trigger] in_gap_prime(
        t,
        i,
        n,
    ) by {
        assert(entry_in_order(i));
    }
}

/// In a list of first primes, later entries are greater.
pub proof fn lemma_first_primes_increase(table: Seq<u64>, i: int, j: int)
    requires
        lists_first_primes(table),
        0 <= i < j < table.len(),
    ensures
        table[i] < table[j],
    decreases j - i,
{
    if i + 1 < j {
        lemma_first_primes_increase(table, i, j - 1);
    }
    assert(table[j - 1] < table[j - 1 + 1]);
}

/// Two different primes are coprime.
pub proof fn lemma_primes_coprime(p: int, q: int)
    requires
        is_prime(p),
        is_prime(q),
        p != q,
    ensures
        coprime(p, q),
{
    assert forall|d: int| 2 <= d implies !(#[trigger] (p % d) == 0 && q % d == 0) by {
        if p % d == 0 && q % d == 0 {
            if d < p {
                assert((p % d) != 0);
            } else if d > p {
                vstd::arithmetic::div_mod::lemma_small_mod(p as nat, d as nat);
            } else if d < q {
                assert((q % d) != 0);
            } else {
                vstd::arithmetic::div_mod::lemma_small_mod(q as nat, d as nat);
            }
        }
    }
}

/// The moduli are coprime in pairs.
pub proof fn lemma_moduli_pairwise_coprime()
    ensures
        forall|i: int, j: int|
            0 <= i < 192 && 0 <= j < 192 && i != j ==> coprime(
                #[trigger] coprime_moduli()[i] as int,
                #[trigger] coprime_moduli()[j] as int,
            ),
{
    lemma_moduli_are_first_primes();
    let t = coprime_moduli();
    assert forall|i: int, j: int| 0 <= i < 192 && 0 <= j < 192 && i != j implies coprime(
        #[trigger] t[i] as int,
        #[trigger] t[j] as int,
    ) by {
        if i < j {
            lemma_first_primes_increase(t, i, j);
        } else {
            lemma_first_primes_increase(t, j, i);
        }
        lemma_primes_coprime(t[i] as int, t[j] as int);
    }
}

} // verus!

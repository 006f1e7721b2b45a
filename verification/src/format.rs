//! Rendering of byte counts: digit grouping, human-readable units, and
//! both together.

use vstd::prelude::*;
use crate::decimal::{
    decimal, digit_char, digit_value, digits_value, lemma_decimal_nonempty, lemma_decimal_reads_back, lemma_decimal_short,
    lemma_decimal_split_thousands, push_decimal, push_digit,
};

verus! {

/// The characters of `s` with a space inserted between each group of three,
/// counting the groups from the right end.
pub open spec fn group_thousands(s: Seq<char>) -> Seq<char>
    decreases s.len(),
{
    if s.len() <= 3 {
        s
    } else {
        group_thousands(s.subrange(0, s.len() - 3)) + seq![' '] + s.subrange(
            s.len() - 3,
            s.len() as int,
        )
    }
}


/// Whether `c` is not the group separator.
pub open spec fn not_space(c: char) -> bool {
    c != ' '
}

/// Grouping only inserts separators: dropping the spaces from the grouped
/// form of a string without spaces gives the string back.
pub proof fn lemma_grouping_keeps_characters(s: Seq<char>)
    requires
        forall|i: int| 0 <= i < s.len() ==> s[i] != ' ',
    ensures
        group_thousands(s).filter(|c: char| not_space(c)) == s,
    decreases s.len(),
{
    broadcast use Seq::filter_distributes_over_add;

    let p = |c: char| not_space(c);
    if s.len() <= 3 {
        lemma_filter_keeps_all(s, p);
    } else {
        let head = s.subrange(0, s.len() - 3);
        let tail = s.subrange(s.len() - 3, s.len() as int);
        lemma_grouping_keeps_characters(head);
        lemma_filter_keeps_all(tail, p);
        reveal_with_fuel(Seq::filter, 2);
        assert(seq![' '].filter(p) =~= Seq::<char>::empty()) by {
            assert(seq![' '].drop_last() =~= Seq::<char>::empty());
        }
        assert(head + tail =~= s);
    }
}

/// Filtering with a predicate that holds of every element keeps them all.
proof fn lemma_filter_keeps_all(s: Seq<char>, p: spec_fn(char) -> bool)
    requires
        forall|i: int| 0 <= i < s.len() ==> p(s[i]),
    ensures
        s.filter(p) == s,
    decreases s.len(),
{
    reveal_with_fuel(Seq::filter, 1);
    if s.len() > 0 {
        lemma_filter_keeps_all(s.drop_last(), p);
        assert(s.drop_last().push(s.last()) =~= s);
    }
}

/// The digits of a number hold no space.
pub proof fn lemma_decimal_has_no_space(n: nat)
    ensures
        forall|i: int| 0 <= i < decimal(n).len() ==> decimal(n)[i] != ' ',
    decreases n,
{
    if n >= 10 {
        lemma_decimal_has_no_space(n / 10);
        assert(decimal(n) == decimal(n / 10).push(digit_char(n % 10)));
    }
}

/// `format_number` only adds separators: without its spaces, the text is
/// the plain decimal representation.
pub proof fn lemma_format_number_keeps_digits(n: nat)
    ensures
        group_thousands(decimal(n)).filter(|c: char| not_space(c)) == decimal(n),
{
    lemma_decimal_has_no_space(n);
    lemma_grouping_keeps_characters(decimal(n));
}

/// The largest integer that an `f64` holds in its 53-bit significand, plus one.
pub open spec fn f64_exact_limit() -> nat {
    0x20_0000_0000_0000
}

/// The spacing of the `f64` values near `n`: 1 below 2^53, doubling with
/// each further binary digit of `n`.
pub open spec fn f64_spacing(n: nat) -> nat
    decreases n,
{
    if n < f64_exact_limit() {
        1
    } else {
        2 * f64_spacing(n / 2)
    }
}

/// The nearest integer to `n / d`; a tie goes to the even one.
pub open spec fn div_round_half_even(n: nat, d: nat) -> nat {
    let q = n / d;
    let r = n % d;
    if 2 * r > d || (2 * r == d && q % 2 == 1) {
        q + 1
    } else {
        q
    }
}

/// The value of `n as f64`: `n` rounded to the nearest multiple of the
/// `f64` spacing there, a tie going to the even multiple.
pub open spec fn nearest_f64(n: nat) -> nat {
    div_round_half_even(n, f64_spacing(n)) * f64_spacing(n)
}

/// One KB in bytes.
pub open spec fn kib() -> nat {
    1024
}

/// One MB in bytes.
pub open spec fn mib() -> nat {
    1024 * 1024
}

/// One GB in bytes.
pub open spec fn gib() -> nat {
    1024 * 1024 * 1024
}

/// One TB in bytes.
pub open spec fn tib() -> nat {
    1024 * 1024 * 1024 * 1024
}

/// The number of hundredths that `{:.2}` prints for the `f64` quotient of
/// `bytes as f64` by `unit`: that quotient is exact, and printing rounds it
/// to the nearest hundredth, a tie going to the even last digit.
pub open spec fn hundredths(bytes: nat, unit: nat) -> nat {
    div_round_half_even(nearest_f64(bytes) * 100, unit)
}

/// `h` hundredths with two decimals, e.g. 150 as "1.50".
pub open spec fn two_decimals(h: nat) -> Seq<char> {
    decimal(h / 100) + seq!['.', digit_char(h / 10 % 10), digit_char(h % 10)]
}

/// The human-readable size of `bytes`: the exact count below 1 KB, else
/// the count in the largest of KB, MB, GB, TB that it reaches (TB at
/// most), with two decimals.
pub open spec fn human_size(bytes: nat) -> Seq<char> {
    if bytes < kib() {
        decimal(bytes) + seq![' ', 'B']
    } else if bytes < mib() {
        two_decimals(hundredths(bytes, kib())) + seq![' ', 'K', 'B']
    } else if bytes < gib() {
        two_decimals(hundredths(bytes, mib())) + seq![' ', 'M', 'B']
    } else if bytes < tib() {
        two_decimals(hundredths(bytes, gib())) + seq![' ', 'G', 'B']
    } else {
        two_decimals(hundredths(bytes, tib())) + seq![' ', 'T', 'B']
    }
}

/// The size of `bytes` with unit and exact count: the exact count alone
/// below 1 KB, else the human-readable size followed by the grouped exact
/// count in brackets, e.g. "1.24 GB (1 331 439 812 B)".
pub open spec fn full_size(bytes: nat) -> Seq<char> {
    if bytes < kib() {
        decimal(bytes) + seq![' ', 'B']
    } else {
        human_size(bytes) + seq![' ', '('] + group_thousands(decimal(bytes)) + seq![
            ' ',
            'B',
            ')',
        ]
    }
}

/// Below 1 KB the full size is just the human-readable size.
pub proof fn lemma_full_size_small(bytes: nat)
    requires
        bytes < kib(),
    ensures
        full_size(bytes) == human_size(bytes),
{
}

/// The number in digit groups denotes `n`: dropping the separators from
/// the grouped text and reading the digits gives `n` back.
pub proof fn lemma_grouped_number_reads_back(n: nat)
    ensures
        digits_value(group_thousands(decimal(n)).filter(|c: char| not_space(c))) == n,
{
    lemma_format_number_keeps_digits(n);
    lemma_decimal_reads_back(n);
}

/// Digit grouping works in thousands: below 1000 a number is shown plainly,
/// and from 1000 up it is its thousands grouped, a space, and its last
/// three digits (with leading zeros).
pub proof fn lemma_grouping_by_thousands(n: nat)
    ensures
        n < 1000 ==> group_thousands(decimal(n)) == decimal(n),
        n >= 1000 ==> group_thousands(decimal(n)) == group_thousands(decimal(n / 1000)) + seq![
            ' ',
            digit_char(n % 1000 / 100),
            digit_char(n % 100 / 10),
            digit_char(n % 10),
        ],
{
    if n < 1000 {
        lemma_decimal_short(n);
    } else {
        let d = decimal(n);
        lemma_decimal_split_thousands(n);
        lemma_decimal_nonempty(n / 1000);
        assert(d.subrange(0, d.len() - 3) =~= decimal(n / 1000));
        assert(group_thousands(d) =~= group_thousands(decimal(n / 1000)) + seq![
            ' ',
            digit_char(n % 1000 / 100),
            digit_char(n % 100 / 10),
            digit_char(n % 10),
        ]);
    }
}

/// From 1 KB up, the full size is the human-readable size, " (", the exact
/// byte count in digit groups, and " B)": the bracketed part, read without
/// its separators, is the byte count itself.
pub proof fn lemma_full_size_shows_exact_count(bytes: nat)
    requires
        bytes >= kib(),
    ensures
        ({
            let t = full_size(bytes);
            let h = human_size(bytes).len() as int;
            &&& t.len() >= h + 5
            &&& t.subrange(0, h) == human_size(bytes)
            &&& t.subrange(h, h + 2) == seq![' ', '(']
            &&& t.subrange(t.len() - 3, t.len() as int) == seq![' ', 'B', ')']
            &&& digits_value(
                t.subrange(h + 2, t.len() - 3).filter(|c: char| not_space(c)),
            ) == bytes
        }),
{
    let t = full_size(bytes);
    let hs = human_size(bytes);
    let g = group_thousands(decimal(bytes));
    let h = hs.len() as int;
    assert(t == hs + seq![' ', '('] + g + seq![' ', 'B', ')']);
    assert(t.subrange(0, h) =~= hs);
    assert(t.subrange(h, h + 2) =~= seq![' ', '(']);
    assert(t.subrange(t.len() - 3, t.len() as int) =~= seq![' ', 'B', ')']);
    assert(t.subrange(h + 2, t.len() - 3) =~= g);
    lemma_grouped_number_reads_back(bytes);
}

/// Below 1 KB the full size is the byte count followed by " B".
pub proof fn lemma_full_size_small_shows_count(bytes: nat)
    requires
        bytes < kib(),
    ensures
        full_size(bytes).len() >= 3,
        full_size(bytes).subrange(full_size(bytes).len() - 2, full_size(bytes).len() as int)
            == seq![' ', 'B'],
        digits_value(full_size(bytes).subrange(0, full_size(bytes).len() - 2)) == bytes,
{
    let t = full_size(bytes);
    lemma_decimal_nonempty(bytes);
    assert(t == decimal(bytes) + seq![' ', 'B']);
    assert(t.subrange(t.len() - 2, t.len() as int) =~= seq![' ', 'B']);
    assert(t.subrange(0, t.len() - 2) =~= decimal(bytes));
    lemma_decimal_reads_back(bytes);
}

/// Rounding half to even picks a nearest integer: `q` differs from `n / d`
/// by at most one half.
pub proof fn lemma_round_half_even_is_nearest(n: nat, d: nat)
    requires
        d > 0,
    ensures
        -(d as int) <= 2 * (div_round_half_even(n, d) * d - n) <= d,
        2 * (div_round_half_even(n, d) * d - n) == d || 2 * (div_round_half_even(n, d) * d - n)
            == -(d as int) ==> div_round_half_even(n, d) % 2 == 0,
{
    let q = n / d;
    let r = n % d;
    assert(n == q * d + r) by (nonlinear_arith)
        requires q == n / d, r == n % d, d > 0;
    assert((q + 1) * d == q * d + d) by (nonlinear_arith);
}

/// The hundredths printed for a size in some unit are within half a
/// hundredth of the size's exact value in that unit.
pub proof fn lemma_hundredths_within_half(bytes: nat, unit: nat)
    requires
        unit > 0,
    ensures
        -(unit as int) <= 2 * (hundredths(bytes, unit) * unit - nearest_f64(bytes) * 100) <= unit,
        2 * (hundredths(bytes, unit) * unit - nearest_f64(bytes) * 100) == unit || 2 * (
        hundredths(bytes, unit) * unit - nearest_f64(bytes) * 100) == -(unit as int)
            ==> hundredths(bytes, unit) % 2 == 0,
{
    lemma_round_half_even_is_nearest(nearest_f64(bytes) * 100, unit);
}

/// The `f64` spacing at `n` is a power of two, the smallest one for which
/// `n` has fewer than 53 binary digits above it.
pub proof fn lemma_f64_spacing(n: nat)
    ensures
        exists|k: nat| f64_spacing(n) == vstd::arithmetic::power2::pow2(k),
        n < f64_exact_limit() * f64_spacing(n),
        f64_spacing(n) == 1 || (f64_exact_limit() / 2) * f64_spacing(n) <= n,
        n < f64_exact_limit() ==> f64_spacing(n) == 1,
    decreases n,
{
    if n < f64_exact_limit() {
        vstd::arithmetic::power2::lemma2_to64();
        assert(f64_spacing(n) == vstd::arithmetic::power2::pow2(0));
    } else {
        lemma_f64_spacing(n / 2);
        let s = f64_spacing(n / 2);
        let k = choose|k: nat| s == vstd::arithmetic::power2::pow2(k);
        vstd::arithmetic::power2::lemma_pow2_unfold(k + 1);
        assert(f64_spacing(n) == vstd::arithmetic::power2::pow2(k + 1));
        assert(n < f64_exact_limit() * f64_spacing(n)) by (nonlinear_arith)
            requires
                n / 2 < f64_exact_limit() * s,
                f64_spacing(n) == 2 * s;
        assert((f64_exact_limit() / 2) * f64_spacing(n) <= n) by (nonlinear_arith)
            requires
                s == 1 || (f64_exact_limit() / 2) * s <= n / 2,
                n / 2 < f64_exact_limit() ==> s == 1,
                n >= f64_exact_limit(),
                f64_spacing(n) == 2 * s;
    }
}

/// `n as f64` is `n` rounded to the nearest multiple of the `f64` spacing
/// there, a tie going to the even multiple; below 2^53 it is `n` itself.
pub proof fn lemma_nearest_f64(n: nat)
    ensures
        nearest_f64(n) % f64_spacing(n) == 0,
        -(f64_spacing(n) as int) <= 2 * (nearest_f64(n) - n) <= f64_spacing(n),
        2 * (nearest_f64(n) - n) == f64_spacing(n) || 2 * (nearest_f64(n) - n) == -(f64_spacing(
            n,
        ) as int) ==> (nearest_f64(n) / f64_spacing(n)) % 2 == 0,
        n < f64_exact_limit() ==> nearest_f64(n) == n,
{
    lemma_f64_spacing(n);
    let s = f64_spacing(n);
    let q = div_round_half_even(n, s);
    lemma_round_half_even_is_nearest(n, s);
    vstd::arithmetic::div_mod::lemma_mod_multiples_basic(q as int, s as int);
    vstd::arithmetic::div_mod::lemma_div_multiples_vanish(q as int, s as int);
}

/// `two_decimals(h)` reads back as `h / 100`, a point, and the two digits
/// of `h % 100`.
pub proof fn lemma_two_decimals_reads_back(h: nat)
    ensures
        two_decimals(h).len() >= 4,
        two_decimals(h)[two_decimals(h).len() - 3] == '.',
        digits_value(two_decimals(h).subrange(0, two_decimals(h).len() - 3)) == h / 100,
        digits_value(
            two_decimals(h).subrange(two_decimals(h).len() - 2, two_decimals(h).len() as int),
        ) == h % 100,
{
    let t = two_decimals(h);
    let a = h / 10 % 10;
    let b = h % 10;
    lemma_decimal_nonempty(h / 100);
    lemma_decimal_reads_back(h / 100);
    assert(t.subrange(0, t.len() - 3) =~= decimal(h / 100));
    let tail = t.subrange(t.len() - 2, t.len() as int);
    assert(tail =~= seq![digit_char(a), digit_char(b)]);
    assert(tail.drop_last() =~= seq![digit_char(a)]);
    assert(tail.drop_last().drop_last() =~= Seq::<char>::empty());
    assert(digit_value(digit_char(a)) == a);
    assert(digit_value(digit_char(b)) == b);
    assert(digits_value(tail) == digits_value(tail.drop_last()) * 10 + digit_value(tail.last()));
    assert(digits_value(tail.drop_last()) == digits_value(tail.drop_last().drop_last()) * 10
        + digit_value(tail.drop_last().last()));
    assert(h % 100 == a * 10 + b) by (nonlinear_arith)
        requires a == h / 10 % 10, b == h % 10;
}

/// The human-readable size uses the exact count and " B" below 1 KB, and
/// otherwise the unit of its range (KB below 1 MB, MB below 1 GB, GB below
/// 1 TB, TB from there) after the size in that unit to two decimals.
pub proof fn lemma_human_size_units(bytes: nat)
    ensures
        bytes < 1024 ==> human_size(bytes) == decimal(bytes) + seq![' ', 'B'],
        1024 <= bytes < 1048576 ==> human_size(bytes) == two_decimals(hundredths(bytes, 1024))
            + seq![' ', 'K', 'B'],
        1048576 <= bytes < 1073741824 ==> human_size(bytes) == two_decimals(
            hundredths(bytes, 1048576),
        ) + seq![' ', 'M', 'B'],
        1073741824 <= bytes < 1099511627776 ==> human_size(bytes) == two_decimals(
            hundredths(bytes, 1073741824),
        ) + seq![' ', 'G', 'B'],
        1099511627776 <= bytes ==> human_size(bytes) == two_decimals(
            hundredths(bytes, 1099511627776),
        ) + seq![' ', 'T', 'B'],
{
}

/// Appends the decimal representation of `n` with its digits grouped by
/// three, the groups separated by single spaces.
fn push_grouped(s: &mut String, n: u64)
    ensures
        final(s)@ == old(s)@ + group_thousands(decimal(n as nat)),
    decreases n,
{
    if n < 1000 {
        proof { lemma_decimal_short(n as nat); }
        push_decimal(s, n);
    } else {
        let ghost d = decimal(n as nat);
        proof {
            lemma_decimal_split_thousands(n as nat);
            lemma_decimal_nonempty((n / 1000) as nat);
            assert(d.subrange(0, d.len() - 3) =~= decimal((n / 1000) as nat));
        }
        push_grouped(s, n / 1000);
        proof { reveal_strlit(" "); }
        s.append(" ");
        push_digit(s, n % 1000 / 100);
        push_digit(s, n % 100 / 10);
        push_digit(s, n % 10);
        assert(final(s)@ =~= old(s)@ + group_thousands(d));
    }
}

/// Renders `n` in decimal with a space between each group of three digits,
/// e.g. 1234567 as "1 234 567".
pub fn format_number(n: u64) -> (s: String)
    ensures
        s@ == group_thousands(decimal(n as nat)),
{
    let mut s = String::new();
    push_grouped(&mut s, n);
    s
}

/// The nearest integer to `n / d`, a tie going to the even one.
fn div_round_half_even_u128(n: u128, d: u128) -> (q: u128)
    requires
        d > 0,
    ensures
        q == div_round_half_even(n as nat, d as nat),
{
    let q = n / d;
    let r = n % d;
    if r > d - r || (r == d - r && q % 2 == 1) {
        assert(d >= 2);
        assert(q <= n / 2) by (nonlinear_arith)
            requires q == n / d, d >= 2;
        q + 1
    } else {
        q
    }
}

/// The value of `n as f64`, as an integer.
fn f64_value(n: u64) -> (v: u128)
    ensures
        v == nearest_f64(n as nat),
        v <= 2 * n,
{
    let mut m: u64 = n;
    let mut p: u128 = 1;
    while m >= 0x20_0000_0000_0000
        invariant
            m == n as nat / p as nat,
            p >= 1,
            p * m <= n,
            p == 1 || m >= 1,
            f64_spacing(n as nat) == p * f64_spacing(m as nat),
        decreases m,
    {
        let ghost old_m = m;
        let ghost old_p = p;
        assert(old_m / 2 == n as nat / (old_p * 2) as nat) by {
            vstd::arithmetic::div_mod::lemma_div_denominator(n as int, old_p as int, 2);
        }
        assert(old_p * 2 <= n) by (nonlinear_arith)
            requires old_p * old_m <= n, old_m >= 2;
        assert((old_p * 2) * (old_m / 2) <= n) by (nonlinear_arith)
            requires old_p * old_m <= n;
        assert(f64_spacing(old_m as nat) == 2 * f64_spacing((old_m / 2) as nat));
        assert(old_p * (2 * f64_spacing((old_m / 2) as nat)) == (old_p * 2) * f64_spacing(
            (old_m / 2) as nat,
        )) by (nonlinear_arith);
        m = m / 2;
        p = p * 2;
    }
    assert(f64_spacing(m as nat) == 1);
    assert(f64_spacing(n as nat) == p) by {
        assert(p * f64_spacing(m as nat) == p * 1);
    }
    let nn: u128 = n as u128;
    assert(m == nn / p);
    let q = div_round_half_even_u128(nn, p);
    assert(q <= m + 1);
    assert((m + 1) * p <= n + p) by (nonlinear_arith)
        requires p * m <= n;
    assert(p <= n || n == 0) by (nonlinear_arith)
        requires p * m <= n, p >= 1, p == 1 || m >= 1;
    assert(q * p <= (m + 1) * p) by (nonlinear_arith)
        requires q <= m + 1;
    assert(q * p <= 2 * n) by {
        if n == 0 {
            assert(q == 0);
        }
    }
    q * p
}

/// Appends `h` hundredths with two decimals.
fn push_two_decimals(s: &mut String, h: u64)
    ensures
        final(s)@ == old(s)@ + two_decimals(h as nat),
{
    push_decimal(s, h / 100);
    proof { reveal_strlit("."); }
    s.append(".");
    push_digit(s, h / 10 % 10);
    push_digit(s, h % 10);
    assert(final(s)@ =~= old(s)@ + two_decimals(h as nat));
}

/// Appends the size `bytes` in `unit` with two decimals, then `label`.
fn push_in_unit(s: &mut String, bytes: u64, unit: u128, label: &str)
    requires
        unit >= 1024,
    ensures
        final(s)@ == old(s)@ + two_decimals(hundredths(bytes as nat, unit as nat)) + label@,
{
    let v = f64_value(bytes);
    let n = v * 100;
    let h = div_round_half_even_u128(n, unit);
    assert(h <= n / unit + 1);
    assert(n / unit <= n / 1024) by (nonlinear_arith)
        requires unit >= 1024, n >= 0;
    assert(h < 0x1_0000_0000_0000_0000);
    push_two_decimals(s, h as u64);
    s.append(label);
}

/// Renders a byte count in the largest of B, KB, MB, GB, TB that it
/// reaches: the exact count below 1 KB ("512 B"), else with two decimals
/// ("1.50 KB"), the way `{:.2}` prints the `f64` quotient.
pub fn format_human_size(bytes: u64) -> (s: String)
    ensures
        s@ == human_size(bytes as nat),
{
    let mut s = String::new();
    if bytes < 1024 {
        push_decimal(&mut s, bytes);
        proof { reveal_strlit(" B"); }
        s.append(" B");
    } else if bytes < 1024 * 1024 {
        proof { reveal_strlit(" KB"); }
        push_in_unit(&mut s, bytes, 1024, " KB");
    } else if bytes < 1024 * 1024 * 1024 {
        proof { reveal_strlit(" MB"); }
        push_in_unit(&mut s, bytes, 1024 * 1024, " MB");
    } else if bytes < 1024 * 1024 * 1024 * 1024 {
        proof { reveal_strlit(" GB"); }
        push_in_unit(&mut s, bytes, 1024 * 1024 * 1024, " GB");
    } else {
        proof { reveal_strlit(" TB"); }
        push_in_unit(&mut s, bytes, 1024 * 1024 * 1024 * 1024, " TB");
    }
    assert(s@ =~= human_size(bytes as nat));
    s
}

/// Renders a byte count with both its human-readable size and its exact
/// grouped count, e.g. "1.24 GB (1 331 439 812 B)", or the exact count
/// alone below 1 KB, e.g. "512 B".
pub fn format_size_full(bytes: u64) -> (s: String)
    ensures
        s@ == full_size(bytes as nat),
{
    if bytes < 1024 {
        let mut s = String::new();
        push_decimal(&mut s, bytes);
        proof { reveal_strlit(" B"); }
        s.append(" B");
        assert(s@ =~= full_size(bytes as nat));
        s
    } else {
        let mut s = format_human_size(bytes);
        proof { reveal_strlit(" ("); }
        s.append(" (");
        push_grouped(&mut s, bytes);
        proof { reveal_strlit(" B)"); }
        s.append(" B)");
        assert(s@ =~= full_size(bytes as nat));
        s
    }
}

} // verus!

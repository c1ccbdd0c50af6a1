//! Grammar for locale-specific comparison-price text, and the normalizer
//! that maps a raw scraped item to a normalized one.
//!
//! The grammar accepts strings of the exact form `"Jfr-pris <number> <unit>"`
//! where `<number>` uses a comma as the decimal separator and `<unit>` is one
//! of a fixed, closed set of unit phrases. More specific phrases are tried
//! before shorter overlapping prefixes (`"kg, ätklar"` before `"kg"`), so a
//! longer phrase is never cut short by an earlier shorter alternative.

use vstd::prelude::*;

use crate::types::{
    ComparePrice, ComparePriceVariants, Date, PriceUnit, ProductType, Promotion, PromotionOrFalse,
    Promotions, ScrapedItem, SoldInUnit,
};

verus! {

/// Monetary amounts are fixed-point: one krona is this many stored units.
pub const PRICE_SCALE: u64 = 1_000_000;

/// Largest whole-krona part the number grammar accepts.
pub const MAX_WHOLE: u64 = 999_999_999;

/// Largest number of fractional digits the number grammar accepts.
pub const MAX_FRAC_DIGITS: usize = 6;

/// Whether `c` is an ASCII decimal digit.
pub open spec fn is_digit_char(c: char) -> bool {
    48 <= c as u32 <= 57
}

/// Numeric value of the digit `c`.
pub open spec fn digit_val(c: char) -> int {
    c as u32 - 48
}

/// First position at or after `i` that is past the run of digits starting
/// at `i`.
pub open spec fn digit_run_end(s: Seq<char>, i: int) -> int
    decreases s.len() - i when 0 <= i <= s.len()
{
    if i == s.len() {
        i
    } else if is_digit_char(s[i]) {
        digit_run_end(s, i + 1)
    } else {
        i
    }
}

/// Value of a sequence of digits read most significant first.
pub open spec fn digits_val(s: Seq<char>) -> int
    decreases s.len(),
{
    if s.len() == 0 {
        0
    } else {
        digits_val(s.drop_last()) * 10 + digit_val(s.last())
    }
}

/// Ten to the power `n` (and 1 for non-positive `n`).
pub open spec fn pow10(n: int) -> int
    decreases n,
{
    if n <= 0 {
        1
    } else {
        10 * pow10(n - 1)
    }
}

pub proof fn lemma_digit_run_end(s: Seq<char>, i: int)
    requires
        0 <= i <= s.len(),
    ensures
        i <= digit_run_end(s, i) <= s.len(),
        forall|j: int| i <= j < digit_run_end(s, i) ==> is_digit_char(s[j]),
        digit_run_end(s, i) < s.len() ==> !is_digit_char(s[digit_run_end(s, i)]),
    decreases s.len() - i,
{
    if i < s.len() && is_digit_char(s[i]) {
        lemma_digit_run_end(s, i + 1);
    }
}

/// A run of digits is bounded below and above by its digit count.
pub proof fn lemma_digits_val_bounds(s: Seq<char>)
    requires
        forall|k: int| 0 <= k < s.len() ==> is_digit_char(s[k]),
    ensures
        0 <= digits_val(s) < pow10(s.len() as int),
    decreases s.len(),
{
    if s.len() > 0 {
        lemma_digits_val_bounds(s.drop_last());
        assert(is_digit_char(s.last()));
        assert(digits_val(s.drop_last()) <= pow10(s.len() - 1) - 1);
        assert(digits_val(s.drop_last()) * 10 <= (pow10(s.len() - 1) - 1) * 10)
            by (nonlinear_arith)
            requires digits_val(s.drop_last()) <= pow10(s.len() - 1) - 1,
        ;
    }
}

/// Reading more digits never lowers the value.
pub proof fn lemma_digits_val_prefix_le(s: Seq<char>, j: int, k: int)
    requires
        0 <= j <= k <= s.len(),
        forall|m: int| 0 <= m < s.len() ==> is_digit_char(s[m]),
    ensures
        digits_val(s.subrange(0, j)) <= digits_val(s.subrange(0, k)),
    decreases k - j,
{
    if j < k {
        lemma_digits_val_prefix_le(s, j, k - 1);
        let p = s.subrange(0, k);
        assert(p.drop_last() =~= s.subrange(0, k - 1));
        lemma_digits_val_bounds(s.subrange(0, k - 1));
        assert(digits_val(s.subrange(0, k - 1)) <= digits_val(s.subrange(0, k - 1)) * 10)
            by (nonlinear_arith)
            requires digits_val(s.subrange(0, k - 1)) >= 0,
        ;
        assert(is_digit_char(p.last()));
    }
}

/// Scan the digit run that starts at `from`.
pub(crate) fn digit_run(s: &str, from: usize, n: usize) -> (end: usize)
    requires
        n == s@.len(),
        from <= n,
    ensures
        end as int == digit_run_end(s@, from as int),
        from <= end <= n,
    decreases n - from,
{
    if from == n {
        return from;
    }
    let c = s.get_char(from);
    let u = c as u32;
    if 48 <= u && u <= 57 {
        digit_run(s, from + 1, n)
    } else {
        from
    }
}

/// Value of the digits in `[from, end)`, unless it exceeds `max`.
pub(crate) fn digits_to_val(s: &str, from: usize, end: usize, max: u64) -> (r: Option<u64>)
    requires
        from <= end <= s@.len(),
        forall|k: int| from <= k < end ==> is_digit_char(s@[k]),
        max <= 0xFFFF_FFFF,
    ensures
        match r {
            Some(v) => digits_val(s@.subrange(from as int, end as int)) == v && v <= max,
            None => digits_val(s@.subrange(from as int, end as int)) > max,
        },
{
    let mut acc: u64 = 0;
    let mut j = from;
    proof {
        assert(s@.subrange(from as int, from as int) =~= Seq::<char>::empty());
    }
    while j < end
        invariant
            from <= j <= end <= s@.len(),
            forall|k: int| from <= k < end ==> is_digit_char(s@[k]),
            max <= 0xFFFF_FFFF,
            acc == digits_val(s@.subrange(from as int, j as int)),
            acc <= max,
        decreases end - j,
    {
        let c = s.get_char(j);
        let d = (c as u32 - 48) as u64;
        let next = acc * 10 + d;
        proof {
            assert(s@.subrange(from as int, j + 1).drop_last() =~= s@.subrange(
                from as int,
                j as int,
            ));
            assert(s@.subrange(from as int, j + 1).last() == s@[j as int]);
        }
        if next > max {
            proof {
                let ghost w = s@.subrange(from as int, end as int);
                assert(forall|m: int| 0 <= m < w.len() ==> is_digit_char(w[m]));
                lemma_digits_val_prefix_le(w, j + 1 - from, end - from);
                assert(w.subrange(0, j + 1 - from) =~= s@.subrange(from as int, j + 1));
                assert(w.subrange(0, end - from) =~= w);
            }
            return None;
        }
        acc = next;
        j += 1;
    }
    proof {
        assert(s@.subrange(from as int, end as int) =~= s@.subrange(from as int, j as int));
    }
    Some(acc)
}

pub proof fn lemma_pow10_pos(n: int)
    ensures
        pow10(n) >= 1,
    decreases n,
{
    if n > 0 {
        lemma_pow10_pos(n - 1);
    }
}

pub proof fn lemma_pow10_add(a: int, b: int)
    requires
        a >= 0,
        b >= 0,
    ensures
        pow10(a + b) == pow10(a) * pow10(b),
    decreases a,
{
    if a == 0 {
    } else {
        lemma_pow10_add(a - 1, b);
        assert(10 * (pow10(a - 1) * pow10(b)) == (10 * pow10(a - 1)) * pow10(b))
            by (nonlinear_arith);
    }
}

/// Ten to the power `e`, for small exponents.
fn pow10_u64(e: usize) -> (r: u64)
    requires
        e <= MAX_FRAC_DIGITS,
    ensures
        r as int == pow10(e as int),
        r <= 1_000_000,
{
    proof {
        reveal_with_fuel(pow10, 8);
    }
    let mut r: u64 = 1;
    let mut i: usize = 0;
    while i < e
        invariant
            i <= e <= MAX_FRAC_DIGITS,
            r as int == pow10(i as int),
        decreases e - i,
    {
        proof {
            lemma_pow10_le(i as int, 5);
            reveal_with_fuel(pow10, 8);
        }
        r = r * 10;
        i += 1;
    }
    proof {
        lemma_pow10_le(e as int, 6);
        reveal_with_fuel(pow10, 8);
    }
    r
}

/// Whether a comma-separated number starts at `i`: a run of digits,
/// optionally followed by a comma and a further run of digits.
pub open spec fn comma_float_matches(s: Seq<char>, i: int) -> bool {
    digit_run_end(s, i) > i
}

/// Whether the number starting at `i` carries a fractional part.
pub open spec fn has_frac(s: Seq<char>, i: int) -> bool {
    let w = digit_run_end(s, i);
    w < s.len() && s[w] == ',' && digit_run_end(s, w + 1) > w + 1
}

/// Position just past the number that starts at `i`.
pub open spec fn comma_float_end(s: Seq<char>, i: int) -> int {
    let w = digit_run_end(s, i);
    if has_frac(s, i) {
        digit_run_end(s, w + 1)
    } else {
        w
    }
}

/// Value in micro-units of the number that starts at `i`; an absent
/// fractional part counts as zero.
pub open spec fn comma_float_val(s: Seq<char>, i: int) -> int {
    let w = digit_run_end(s, i);
    let whole = digits_val(s.subrange(i, w));
    if has_frac(s, i) {
        let f_end = digit_run_end(s, w + 1);
        let frac = s.subrange(w + 1, f_end);
        whole * PRICE_SCALE + digits_val(frac) * pow10(MAX_FRAC_DIGITS - frac.len())
    } else {
        whole * PRICE_SCALE
    }
}

/// Whether the number starting at `i` is within the fixed-point range:
/// the whole part at most [`MAX_WHOLE`] and at most [`MAX_FRAC_DIGITS`]
/// fractional digits.
pub open spec fn comma_float_fits(s: Seq<char>, i: int) -> bool {
    let w = digit_run_end(s, i);
    digits_val(s.subrange(i, w)) <= MAX_WHOLE && (has_frac(s, i) ==> digit_run_end(s, w + 1) - (w
        + 1) <= MAX_FRAC_DIGITS)
}

/// Parse the comma-separated decimal number that starts at `from`,
/// returning its value in micro-units and the position just past it.
/// Returns `None` not only where no digit stands at `from`, but also
/// where the number lies outside the fixed-point range: a whole part
/// above [`MAX_WHOLE`] or more than [`MAX_FRAC_DIGITS`] fractional
/// digits.
pub fn comma_float(s: &str, from: usize) -> (r: Option<(u64, usize)>)
    requires
        from <= s@.len(),
    ensures
        match r {
            Some(v) => comma_float_matches(s@, from as int) && comma_float_fits(s@, from as int)
                && v.0 as int == comma_float_val(s@, from as int) && v.1 as int == comma_float_end(
                s@,
                from as int,
            ) && v.1 <= s@.len(),
            None => !(comma_float_matches(s@, from as int) && comma_float_fits(s@, from as int)),
        },
{
    let n = s.unicode_len();
    let w_end = digit_run(s, from, n);
    proof {
        lemma_digit_run_end(s@, from as int);
    }
    if w_end == from {
        return None;
    }
    let whole = match digits_to_val(s, from, w_end, MAX_WHOLE) {
        Some(v) => v,
        None => {
            return None;
        },
    };
    if w_end < n && s.get_char(w_end) == ',' {
        let f_end = digit_run(s, w_end + 1, n);
        proof {
            lemma_digit_run_end(s@, w_end + 1);
        }
        if f_end > w_end + 1 {
            let f_len = f_end - (w_end + 1);
            if f_len > MAX_FRAC_DIGITS {
                return None;
            }
            let frac = match digits_to_val(s, w_end + 1, f_end, MAX_WHOLE) {
                Some(v) => v,
                None => {
                    proof {
                        let fr = s@.subrange(w_end + 1, f_end as int);
                        lemma_digits_val_bounds(fr);
                        lemma_pow10_le(fr.len() as int, 6);
                        reveal_with_fuel(pow10, 8);
                    }
                    return None;
                },
            };
            proof {
                let fr = s@.subrange(w_end + 1, f_end as int);
                lemma_digits_val_bounds(fr);
                lemma_pow10_le(fr.len() as int, 6);
                lemma_pow10_add(fr.len() as int, MAX_FRAC_DIGITS - fr.len() as int);
                reveal_with_fuel(pow10, 8);
                assert(digits_val(fr) * pow10(MAX_FRAC_DIGITS - fr.len()) <= (pow10(
                    fr.len() as int,
                ) - 1) * pow10(MAX_FRAC_DIGITS - fr.len())) by (nonlinear_arith)
                    requires
                        digits_val(fr) <= pow10(fr.len() as int) - 1,
                        pow10(MAX_FRAC_DIGITS - fr.len()) >= 1,
                ;
                assert((pow10(fr.len() as int) - 1) * pow10(MAX_FRAC_DIGITS - fr.len()) == pow10(
                    fr.len() as int,
                ) * pow10(MAX_FRAC_DIGITS - fr.len()) - pow10(MAX_FRAC_DIGITS - fr.len()))
                    by (nonlinear_arith);
            }
            let scale = pow10_u64(MAX_FRAC_DIGITS - f_len);
            let scaled = frac * scale;
            return Some((whole * PRICE_SCALE + scaled, f_end));
        }
    }
    Some((whole * PRICE_SCALE, w_end))
}

pub proof fn lemma_pow10_le(a: int, b: int)
    requires
        0 <= a <= b,
    ensures
        pow10(a) <= pow10(b),
    decreases b,
{
    if a < b {
        lemma_pow10_le(a, b - 1);
        lemma_pow10_pos(b - 1);
    }
}

/// Whether `p` occurs in `s` starting exactly at position `i`.
pub open spec fn is_prefix_at(p: Seq<char>, s: Seq<char>, i: int) -> bool {
    0 <= i && i + p.len() <= s.len() && s.subrange(i, i + p.len()) == p
}

/// The unit phrases of the grammar, in the order they are attempted.
/// More specific phrases stand before shorter overlapping prefixes, so
/// the bare `"kg"` is only reached when neither `"kg, ätklar"` nor
/// `"kg u. spad"` is present.
pub open spec fn unit_phrase(k: int) -> Seq<char> {
    if k == 0 {
        "kg, ätklar"@
    } else if k == 1 {
        "meter"@
    } else if k == 2 {
        "kg u. spad"@
    } else if k == 3 {
        "kg"@
    } else if k == 4 {
        "liter, drickklar"@
    } else if k == 5 {
        "liter"@
    } else if k == 6 {
        "tvätt"@
    } else if k == 7 {
        "dos"@
    } else if k == 8 {
        "portion"@
    } else if k == 9 {
        "st"@
    } else if k == 10 {
        "disk"@
    } else {
        "lit exkl. pant"@
    }
}

/// Unit tag produced by the `k`-th phrase.
pub open spec fn unit_code(k: int) -> PriceUnit {
    if k == 0 {
        PriceUnit::PerKgEdible
    } else if k == 1 {
        PriceUnit::PerMeter
    } else if k == 2 {
        PriceUnit::PerKgWithoutLiquid
    } else if k == 3 {
        PriceUnit::PerKg
    } else if k == 4 {
        PriceUnit::PerLiterDrinkable
    } else if k == 5 {
        PriceUnit::PerLiter
    } else if k == 6 {
        PriceUnit::PerLaundry
    } else if k == 7 {
        PriceUnit::PerDose
    } else if k == 8 {
        PriceUnit::PerPortion
    } else if k == 9 {
        PriceUnit::PerItem
    } else if k == 10 {
        PriceUnit::PerWash
    } else {
        PriceUnit::PerLiterExcludingDeposit
    }
}

/// Index of the first phrase at or after `k` in the attempt order that
/// occurs at position `i`, or 12 when none does.
pub open spec fn first_alt(s: Seq<char>, i: int, k: int) -> int
    decreases 12 - k when 0 <= k <= 12
{
    if k >= 12 {
        12
    } else if is_prefix_at(unit_phrase(k), s, i) {
        k
    } else {
        first_alt(s, i, k + 1)
    }
}

/// Whether a unit phrase, led by `"kr/"`, starts at position `i`.
pub open spec fn price_unit_ok(s: Seq<char>, i: int) -> bool {
    is_prefix_at("kr/"@, s, i) && first_alt(s, i + "kr/"@.len(), 0) < 12
}

/// The unit tag of the phrase parsed at position `i`.
pub open spec fn price_unit_code(s: Seq<char>, i: int) -> PriceUnit {
    unit_code(first_alt(s, i + "kr/"@.len(), 0))
}

/// Position just past the phrase parsed at position `i`.
pub open spec fn price_unit_end(s: Seq<char>, i: int) -> int {
    let j = i + "kr/"@.len();
    j + unit_phrase(first_alt(s, j, 0)).len()
}

/// Whether the characters of `pat` occur in `s` starting at `i`.
fn match_tag(s: &str, i: usize, pat: &str) -> (r: bool)
    requires
        i <= s@.len(),
    ensures
        r == is_prefix_at(pat@, s@, i as int),
{
    let n = s.unicode_len();
    let pn = pat.unicode_len();
    if pn > n - i {
        return false;
    }
    let mut j: usize = 0;
    while j < pn
        invariant
            i + pn <= n,
            n == s@.len(),
            pn == pat@.len(),
            j <= pn,
            forall|k: int| 0 <= k < j ==> s@[i + k] == pat@[k],
        decreases pn - j,
    {
        if s.get_char(i + j) != pat.get_char(j) {
            proof {
                assert(s@.subrange(i as int, i + pn)[j as int] == s@[i + j]);
            }
            return false;
        }
        j += 1;
    }
    proof {
        assert(s@.subrange(i as int, i + pn) =~= pat@);
    }
    true
}

/// Parse the unit phrase (led by `"kr/"`) that starts at `from`: the first
/// phrase in the attempt order that matches wins.
pub fn price_unit(s: &str, from: usize) -> (r: Option<(PriceUnit, usize)>)
    requires
        from <= s@.len(),
    ensures
        match r {
            Some(v) => price_unit_ok(s@, from as int) && v.0 == price_unit_code(s@, from as int)
                && v.1 as int == price_unit_end(s@, from as int) && v.1 <= s@.len(),
            None => !price_unit_ok(s@, from as int),
        },
{
    proof {
        reveal_with_fuel(first_alt, 13);
    }
    let n = s.unicode_len();
    if !match_tag(s, from, "kr/") {
        return None;
    }
    proof {
        assert(from + "kr/"@.len() <= n);
    }
    let j = from + "kr/".unicode_len();
    if match_tag(s, j, "kg, ätklar") {
        return Some((PriceUnit::PerKgEdible, j + "kg, ätklar".unicode_len()));
    }
    if match_tag(s, j, "meter") {
        return Some((PriceUnit::PerMeter, j + "meter".unicode_len()));
    }
    if match_tag(s, j, "kg u. spad") {
        return Some((PriceUnit::PerKgWithoutLiquid, j + "kg u. spad".unicode_len()));
    }
    if match_tag(s, j, "kg") {
        return Some((PriceUnit::PerKg, j + "kg".unicode_len()));
    }
    if match_tag(s, j, "liter, drickklar") {
        return Some((PriceUnit::PerLiterDrinkable, j + "liter, drickklar".unicode_len()));
    }
    if match_tag(s, j, "liter") {
        return Some((PriceUnit::PerLiter, j + "liter".unicode_len()));
    }
    if match_tag(s, j, "tvätt") {
        return Some((PriceUnit::PerLaundry, j + "tvätt".unicode_len()));
    }
    if match_tag(s, j, "dos") {
        return Some((PriceUnit::PerDose, j + "dos".unicode_len()));
    }
    if match_tag(s, j, "portion") {
        return Some((PriceUnit::PerPortion, j + "portion".unicode_len()));
    }
    if match_tag(s, j, "st") {
        return Some((PriceUnit::PerItem, j + "st".unicode_len()));
    }
    if match_tag(s, j, "disk") {
        return Some((PriceUnit::PerWash, j + "disk".unicode_len()));
    }
    if match_tag(s, j, "lit exkl. pant") {
        return Some((PriceUnit::PerLiterExcludingDeposit, j + "lit exkl. pant".unicode_len()));
    }
    None
}

/// Whether a full comparison-price phrase starts at the beginning of `s`:
/// the literal prefix `"Jfr-pris "`, a comma-separated number, a space,
/// and a unit phrase.
pub open spec fn compare_price_matches(s: Seq<char>) -> bool {
    let p = "Jfr-pris "@;
    is_prefix_at(p, s, 0) && comma_float_matches(s, p.len() as int) && {
        let m = comma_float_end(s, p.len() as int);
        m < s.len() && s[m] == ' ' && price_unit_ok(s, m + 1)
    }
}

/// Whether the number in the phrase is within the fixed-point range.
pub open spec fn compare_price_fits(s: Seq<char>) -> bool {
    comma_float_fits(s, "Jfr-pris "@.len() as int)
}

/// Value in micro-units of the number in the phrase.
pub open spec fn compare_price_val(s: Seq<char>) -> int {
    comma_float_val(s, "Jfr-pris "@.len() as int)
}

/// Unit tag named by the phrase.
pub open spec fn compare_price_unit(s: Seq<char>) -> PriceUnit {
    price_unit_code(s, comma_float_end(s, "Jfr-pris "@.len() as int) + 1)
}

/// Position just past the phrase.
pub open spec fn compare_price_end(s: Seq<char>) -> int {
    price_unit_end(s, comma_float_end(s, "Jfr-pris "@.len() as int) + 1)
}

/// Parse a comparison-price phrase at the beginning of `s`, returning the
/// structured comparison price and the position just past the phrase.
/// Returns `None` both on a grammar mismatch and where the in-grammar
/// number lies outside the fixed-point range (a whole part above
/// [`MAX_WHOLE`] kronor, or more than [`MAX_FRAC_DIGITS`] fractional
/// digits); it never panics, and callers treat `None` as "no override
/// available from this text".
pub fn compare_price(s: &str) -> (r: Option<(ComparePrice, usize)>)
    ensures
        match r {
            Some(v) => compare_price_matches(s@) && compare_price_fits(s@) && v.0.code == Some(
                compare_price_unit(s@),
            ) && v.0.price as int == compare_price_val(s@) && v.0.price_text is None
                && v.1 as int == compare_price_end(s@),
            None => !(compare_price_matches(s@) && compare_price_fits(s@)),
        },
{
    let n = s.unicode_len();
    if !match_tag(s, 0, "Jfr-pris ") {
        return None;
    }
    proof {
        assert("Jfr-pris "@.len() <= n);
    }
    let j = "Jfr-pris ".unicode_len();
    let (val, m) = match comma_float(s, j) {
        Some(v) => v,
        None => {
            return None;
        },
    };
    if m == n {
        return None;
    }
    if s.get_char(m) != ' ' {
        return None;
    }
    let (unit, end) = match price_unit(s, m + 1) {
        Some(v) => v,
        None => {
            return None;
        },
    };
    Some((ComparePrice { code: Some(unit), price: val, price_text: None }, end))
}

/// Whether the whole of `s` is one comparison-price phrase with a number
/// in range, so that parsing it succeeds with nothing left over. An
/// in-grammar phrase whose number exceeds the fixed-point range (whole
/// part above [`MAX_WHOLE`], or more than [`MAX_FRAC_DIGITS`] fractional
/// digits) does not parse fully and yields no override.
pub open spec fn parses_fully(s: Seq<char>) -> bool {
    compare_price_matches(s) && compare_price_fits(s) && compare_price_end(s) == s.len()
}

/// The comparison price that parsing the whole of `s` yields.
pub open spec fn parsed_compare(s: Seq<char>) -> ComparePrice {
    ComparePrice {
        code: Some(compare_price_unit(s)),
        price: compare_price_val(s) as u64,
        price_text: None,
    }
}

/// One step of promotion resolution: the candidate is replaced by the
/// promotion's deposit-inclusive comparison price exactly when that text
/// parses fully and is strictly cheaper; otherwise the candidate stays.
pub open spec fn promo_step(cur: ComparePrice, p: Promotion) -> ComparePrice {
    match p.compare_price_text_with_deposit {
        Some(t) => {
            if parses_fully(t@) && parsed_compare(t@).price < cur.price {
                parsed_compare(t@)
            } else {
                cur
            }
        },
        None => cur,
    }
}

/// The candidate after applying the first `k` remaining promotions in order.
pub open spec fn resolve_upto(start: ComparePrice, ps: Seq<Promotion>, k: int) -> ComparePrice
    decreases k,
{
    if k <= 0 {
        start
    } else {
        promo_step(resolve_upto(start, ps, k - 1), ps[k - 1])
    }
}

/// The effective comparison price of a raw item: absent when no structured
/// base comparison price exists; otherwise the base, overridden by the
/// priority promotion alone when one with a deposit-inclusive price text
/// is present (whether or not that text parses), and else — no priority
/// promotion, or one without such a text — by the cheapest usable
/// remaining promotion.
pub open spec fn resolve_compare(
    base: Option<ComparePriceVariants>,
    promos: Option<Promotions>,
) -> Option<ComparePrice> {
    match base {
        Some(ComparePriceVariants::ComparePrice(x)) => Some(
            match promos {
                Some(pr) => match pr.priority_promotion {
                    Some(PromotionOrFalse::Promotion(pp)) => {
                        if pp.compare_price_text_with_deposit is Some {
                            promo_step(x, pp)
                        } else {
                            resolve_upto(
                                x,
                                pr.remaining_promotions@,
                                pr.remaining_promotions@.len() as int,
                            )
                        }
                    },
                    _ => resolve_upto(x, pr.remaining_promotions@, pr.remaining_promotions@.len() as int),
                },
                None => x,
            },
        ),
        _ => None,
    }
}

/// Apply one promotion to the current candidate comparison price.
fn apply_promo(cur: ComparePrice, p: &Promotion) -> (r: ComparePrice)
    ensures
        r == promo_step(cur, *p),
{
    match &p.compare_price_text_with_deposit {
        Some(t) => {
            match compare_price(t.as_str()) {
                Some((cp, end)) => {
                    if end == t.as_str().unicode_len() {
                        if cp.price < cur.price {
                            proof {
                                assert(cp == parsed_compare(t@));
                            }
                            cp
                        } else {
                            cur
                        }
                    } else {
                        cur
                    }
                },
                None => cur,
            }
        },
        None => cur,
    }
}

/// Fold the remaining promotions over the current candidate, keeping the
/// cheapest fully parsing comparison price.
fn resolve_remaining(start: ComparePrice, ps: &Vec<Promotion>) -> (r: ComparePrice)
    ensures
        r == resolve_upto(start, ps@, ps@.len() as int),
{
    let ghost s0 = start;
    let mut cur = start;
    let mut i: usize = 0;
    while i < ps.len()
        invariant
            i <= ps@.len(),
            cur == resolve_upto(s0, ps@, i as int),
        decreases ps@.len() - i,
    {
        cur = apply_promo(cur, &ps[i]);
        i += 1;
    }
    cur
}

/// A raw item after normalization: the product URL is derived from the
/// slug, and the effective comparison price has been resolved.
#[derive(Debug)]
pub struct ParsedItem {
    pub name: String,
    pub url: String,
    pub price: u64,
    pub compare: Option<ComparePrice>,
    pub product_type: Option<ProductType>,
    pub sold_in_unit: SoldInUnit,
    pub unit_weight: Option<u64>,
}

/// All normalized items observed for one store on one date; corresponds to
/// exactly one snapshot file.
#[derive(Debug)]
pub struct StoreData {
    pub store_id: u32,
    pub date: Date,
    pub items: Vec<ParsedItem>,
}

/// The fixed template into which a product slug is interpolated.
pub open spec fn url_prefix() -> Seq<char> {
    "https://handla.ica.se/handla/produkt/"@
}

/// How a normalized item relates to the raw item it was made from.
pub open spec fn normalized(it: ScrapedItem, r: ParsedItem) -> bool {
    &&& r.name == it.name
    &&& r.url@ == url_prefix() + it.slug@
    &&& r.price == it.price
    &&& r.compare == resolve_compare(it.compare, it.promotions)
    &&& r.product_type == it.product_type
    &&& r.sold_in_unit == it.sold_in_unit
    &&& r.unit_weight == it.unit_weight
}

/// Normalize one raw scraped item: derive the product URL from the slug,
/// resolve the effective comparison price, and pass the remaining fields
/// through unchanged. Never fails.
pub fn parse_item(item: ScrapedItem) -> (r: ParsedItem)
    ensures
        normalized(item, r),
{
    let ScrapedItem {
        name,
        slug,
        price,
        compare: base,
        product_type,
        promotions,
        sold_in_unit,
        unit_weight,
        ..
    } = item;
    let compare = match base {
        Some(ComparePriceVariants::ComparePrice(x)) => {
            let mut cur = x;
            match promotions {
                Some(pr) => {
                    match pr.priority_promotion {
                        Some(PromotionOrFalse::Promotion(pp)) => {
                            if pp.compare_price_text_with_deposit.is_some() {
                                cur = apply_promo(cur, &pp);
                            } else {
                                cur = resolve_remaining(cur, &pr.remaining_promotions);
                            }
                        },
                        _ => {
                            cur = resolve_remaining(cur, &pr.remaining_promotions);
                        },
                    }
                },
                None => {},
            }
            Some(cur)
        },
        _ => None,
    };
    let url = String::from_str("https://handla.ica.se/handla/produkt/").concat(slug.as_str());
    ParsedItem { name, url, price, compare, product_type, sold_in_unit, unit_weight }
}

/// One resolution step never raises the candidate price.
pub proof fn lemma_promo_step_never_raises(cur: ComparePrice, p: Promotion)
    ensures
        promo_step(cur, p).price <= cur.price,
{
}

/// Applying any number of remaining promotions never raises the price.
pub proof fn lemma_resolve_upto_never_raises(start: ComparePrice, ps: Seq<Promotion>, k: int)
    ensures
        resolve_upto(start, ps, k).price <= start.price,
    decreases k,
{
    if k > 0 {
        lemma_resolve_upto_never_raises(start, ps, k - 1);
        lemma_promo_step_never_raises(resolve_upto(start, ps, k - 1), ps[k - 1]);
    }
}

/// Promotion resolution never raises the price: whenever a structured base
/// comparison price is present, the resolved comparison price is at most
/// the base price, whatever promotions are attached.
pub proof fn lemma_resolution_never_raises(base: ComparePrice, promos: Option<Promotions>)
    ensures
        resolve_compare(Some(ComparePriceVariants::ComparePrice(base)), promos) matches Some(r)
            && r.price <= base.price,
{
    match promos {
        Some(pr) => {
            match pr.priority_promotion {
                Some(PromotionOrFalse::Promotion(pp)) => {
                    lemma_promo_step_never_raises(base, pp);
                    lemma_resolve_upto_never_raises(
                        base,
                        pr.remaining_promotions@,
                        pr.remaining_promotions@.len() as int,
                    );
                },
                _ => {
                    lemma_resolve_upto_never_raises(
                        base,
                        pr.remaining_promotions@,
                        pr.remaining_promotions@.len() as int,
                    );
                },
            }
        },
        None => {},
    }
}

/// A normalized item's effective comparison price never exceeds the raw
/// base comparison price it was resolved from, and it is absent exactly
/// when no structured base comparison price was present.
pub proof fn lemma_normalized_compare_bounded(it: ScrapedItem, r: ParsedItem)
    requires
        normalized(it, r),
    ensures
        match it.compare {
            Some(ComparePriceVariants::ComparePrice(x)) => r.compare matches Some(c) && c.price
                <= x.price,
            _ => r.compare is None,
        },
{
    match it.compare {
        Some(ComparePriceVariants::ComparePrice(x)) => {
            lemma_resolution_never_raises(x, it.promotions);
        },
        _ => {},
    }
}

/// When the priority-promotion slot holds a promotion that carries a
/// deposit-inclusive price text, the remaining promotions are never
/// consulted: the resolved price is the base price overridden by the
/// priority promotion alone, and it does not change however the remaining
/// promotions are replaced — even by cheaper ones.
pub proof fn lemma_priority_promotion_precedence(
    base: ComparePrice,
    pp: Promotion,
    rem_a: Vec<Promotion>,
    rem_b: Vec<Promotion>,
)
    requires
        pp.compare_price_text_with_deposit is Some,
    ensures
        resolve_compare(
            Some(ComparePriceVariants::ComparePrice(base)),
            Some(
                (Promotions {
                    priority_promotion: Some(PromotionOrFalse::Promotion(pp)),
                    remaining_promotions: rem_a,
                }),
            ),
        ) == Some(promo_step(base, pp)),
        resolve_compare(
            Some(ComparePriceVariants::ComparePrice(base)),
            Some(
                (Promotions {
                    priority_promotion: Some(PromotionOrFalse::Promotion(pp)),
                    remaining_promotions: rem_a,
                }),
            ),
        ) == resolve_compare(
            Some(ComparePriceVariants::ComparePrice(base)),
            Some(
                (Promotions {
                    priority_promotion: Some(PromotionOrFalse::Promotion(pp)),
                    remaining_promotions: rem_b,
                }),
            ),
        ),
{
}

/// When the priority-promotion slot holds a promotion without a
/// deposit-inclusive price text, the remaining promotions are consulted
/// just as if no priority promotion were present.
pub proof fn lemma_priority_without_text_falls_through(
    base: ComparePrice,
    pp: Promotion,
    rem: Vec<Promotion>,
)
    requires
        pp.compare_price_text_with_deposit is None,
    ensures
        resolve_compare(
            Some(ComparePriceVariants::ComparePrice(base)),
            Some(
                (Promotions {
                    priority_promotion: Some(PromotionOrFalse::Promotion(pp)),
                    remaining_promotions: rem,
                }),
            ),
        ) == resolve_compare(
            Some(ComparePriceVariants::ComparePrice(base)),
            Some((Promotions { priority_promotion: None, remaining_promotions: rem })),
        ),
{
}

/// Unit-phrase precedence: where `"kg, ätklar"` follows `"kr/"`, the parse
/// yields the edible-weight unit and consumes the whole phrase — it never
/// stops after the bare `"kg"` prefix.
pub proof fn lemma_precedence_kg_edible(s: Seq<char>, i: int)
    requires
        is_prefix_at("kr/"@, s, i),
        is_prefix_at("kg, ätklar"@, s, i + "kr/"@.len()),
    ensures
        price_unit_ok(s, i),
        price_unit_code(s, i) == PriceUnit::PerKgEdible,
        price_unit_end(s, i) == i + "kr/"@.len() + "kg, ätklar"@.len(),
{
    reveal_with_fuel(first_alt, 2);
}

/// Unit-phrase precedence: where `"kg u. spad"` follows `"kr/"`, the parse
/// yields the without-liquid unit and consumes the whole phrase — it never
/// stops after the bare `"kg"` prefix.
pub proof fn lemma_precedence_kg_without_liquid(s: Seq<char>, i: int)
    requires
        is_prefix_at("kr/"@, s, i),
        is_prefix_at("kg u. spad"@, s, i + "kr/"@.len()),
    ensures
        price_unit_ok(s, i),
        price_unit_code(s, i) == PriceUnit::PerKgWithoutLiquid,
        price_unit_end(s, i) == i + "kr/"@.len() + "kg u. spad"@.len(),
{
    reveal_with_fuel(first_alt, 4);
    let j = i + "kr/"@.len();
    reveal_strlit("kg, ätklar");
    reveal_strlit("kg u. spad");
    reveal_strlit("meter");
    if is_prefix_at(unit_phrase(0), s, j) {
        assert(s.subrange(j, j + 10)[2] == ',');
        assert(s.subrange(j, j + 10)[2] == ' ');
        assert(false);
    }
    if is_prefix_at(unit_phrase(1), s, j) {
        assert(s.subrange(j, j + 5)[0] == 'm');
        assert(s.subrange(j, j + 10)[0] == 'k');
        assert(false);
    }
}

} // verus!

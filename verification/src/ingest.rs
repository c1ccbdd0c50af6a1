//! Assembly of snapshots from decoded per-file data.
//!
//! The surrounding process walks the ingestion tree, decompresses and
//! decodes each snapshot file, and hands the plain values here: the
//! grandparent directory name is parsed as a store identifier, the parent
//! directory name as a calendar date, and the decoded raw items are
//! normalized into one snapshot. A file that failed to decode arrives as
//! an absent entry and is dropped from the result; an unparsable date or
//! store identifier is a fatal startup error for the caller.

use vstd::prelude::*;

use crate::parse::{digits_val, is_digit_char, normalized, parse_item, pow10,
    lemma_digit_run_end, lemma_digits_val_bounds, ParsedItem, StoreData};
use crate::types::{days_in_month, Date, ScrapedItem};

verus! {

/// Whether `s` has the exact shape `YYYY-MM-DD`: four digits, a dash, two
/// digits, a dash, two digits.
pub open spec fn date_shape(s: Seq<char>) -> bool {
    &&& s.len() == 10
    &&& is_digit_char(s[0])
    &&& is_digit_char(s[1])
    &&& is_digit_char(s[2])
    &&& is_digit_char(s[3])
    &&& s[4] == '-'
    &&& is_digit_char(s[5])
    &&& is_digit_char(s[6])
    &&& s[7] == '-'
    &&& is_digit_char(s[8])
    &&& is_digit_char(s[9])
}

/// The date spelled by a string of shape `YYYY-MM-DD`.
pub open spec fn date_of(s: Seq<char>) -> Date {
    Date {
        year: digits_val(s.subrange(0, 4)) as u32,
        month: digits_val(s.subrange(5, 7)) as u8,
        day: digits_val(s.subrange(8, 10)) as u8,
    }
}

/// Number of days in `month` of `year`.
fn days_in_month_of(year: u32, month: u8) -> (r: u8)
    requires
        1 <= month <= 12,
    ensures
        r as int == days_in_month(year as int, month as int),
{
    if month == 2 {
        if (year % 4 == 0 && year % 100 != 0) || year % 400 == 0 {
            29
        } else {
            28
        }
    } else if month == 4 || month == 6 || month == 9 || month == 11 {
        30
    } else {
        31
    }
}

/// Parse a directory name of the exact shape `YYYY-MM-DD` into a calendar
/// date. Succeeds exactly when the shape matches and the spelled date is a
/// well-formed Gregorian calendar date.
pub fn parse_date(s: &str) -> (r: Option<Date>)
    ensures
        match r {
            Some(d) => date_shape(s@) && d == date_of(s@) && d.wf(),
            None => !(date_shape(s@) && date_of(s@).wf()),
        },
{
    let n = s.unicode_len();
    if n != 10 {
        return None;
    }
    let mut p: usize = 0;
    while p < 10
        invariant
            s@.len() == 10,
            p <= 10,
            forall|k: int| 0 <= k < p && k != 4 && k != 7 ==> is_digit_char(s@[k]),
            forall|k: int| 0 <= k < p && (k == 4 || k == 7) ==> s@[k] == '-',
        decreases 10 - p,
    {
        let c = s.get_char(p);
        if p == 4 || p == 7 {
            if c != '-' {
                return None;
            }
        } else {
            let u = c as u32;
            if u < 48 || u > 57 {
                return None;
            }
        }
        p += 1;
    }
    let year = match crate::parse::digits_to_val(s, 0, 4, 9999) {
        Some(v) => v,
        None => {
            proof {
                lemma_digits_val_bounds(s@.subrange(0, 4));
                reveal_with_fuel(pow10, 5);
            }
            return None;
        },
    };
    let month = match crate::parse::digits_to_val(s, 5, 7, 99) {
        Some(v) => v,
        None => {
            proof {
                lemma_digits_val_bounds(s@.subrange(5, 7));
                reveal_with_fuel(pow10, 3);
            }
            return None;
        },
    };
    let day = match crate::parse::digits_to_val(s, 8, 10, 99) {
        Some(v) => v,
        None => {
            proof {
                lemma_digits_val_bounds(s@.subrange(8, 10));
                reveal_with_fuel(pow10, 3);
            }
            return None;
        },
    };
    let y = year as u32;
    let m = month as u8;
    let d = day as u8;
    if m < 1 || m > 12 {
        return None;
    }
    if d < 1 || d > days_in_month_of(y, m) {
        return None;
    }
    Some(Date { year: y, month: m, day: d })
}

/// Whether `s` is one or more digits and nothing else.
pub open spec fn store_id_shape(s: Seq<char>) -> bool {
    s.len() > 0 && forall|k: int| 0 <= k < s.len() ==> is_digit_char(s[k])
}

/// Parse a directory name as an unsigned store identifier. Succeeds
/// exactly when the name is all digits and the value fits in 32 bits.
pub fn parse_store_id(s: &str) -> (r: Option<u32>)
    ensures
        match r {
            Some(v) => store_id_shape(s@) && v as int == digits_val(s@),
            None => !(store_id_shape(s@) && digits_val(s@) <= u32::MAX),
        },
{
    let n = s.unicode_len();
    if n == 0 {
        return None;
    }
    let run = crate::parse::digit_run(s, 0, n);
    proof {
        lemma_digit_run_end(s@, 0);
    }
    if run != n {
        return None;
    }
    match crate::parse::digits_to_val(s, 0, n, 0xFFFF_FFFF) {
        Some(v) => {
            proof {
                assert(s@.subrange(0, n as int) =~= s@);
            }
            Some(v as u32)
        },
        None => {
            proof {
                assert(s@.subrange(0, n as int) =~= s@);
            }
            None
        },
    }
}

/// Normalize every raw item of one decoded snapshot file into the
/// snapshot for that store and date, keeping item order.
pub fn build_snapshot(store_id: u32, date: Date, raw: Vec<ScrapedItem>) -> (r: StoreData)
    ensures
        r.store_id == store_id,
        r.date == date,
        r.items@.len() == raw@.len(),
        forall|i: int| 0 <= i < raw@.len() ==> normalized(raw@[i], #[trigger] r.items@[i]),
{
    let ghost raw0 = raw@;
    let mut rest = raw;
    let mut items: Vec<ParsedItem> = Vec::new();
    while rest.len() > 0
        invariant
            items@.len() + rest@.len() == raw0.len(),
            rest@ =~= raw0.subrange(items@.len() as int, raw0.len() as int),
            forall|i: int| 0 <= i < items@.len() ==> normalized(raw0[i], #[trigger] items@[i]),
        decreases rest@.len(),
    {
        let it = rest.remove(0);
        proof {
            assert(it == raw0[items@.len() as int]);
        }
        let p = parse_item(it);
        items.push(p);
    }
    StoreData { store_id, date, items }
}

/// The snapshots that survive per-file error isolation: the present
/// entries, in order; absent entries (files that failed to decode) are
/// dropped.
pub open spec fn kept(decoded: Seq<Option<StoreData>>) -> Seq<StoreData>
    decreases decoded.len(),
{
    if decoded.len() == 0 {
        Seq::empty()
    } else {
        let pre = kept(decoded.drop_last());
        match decoded.last() {
            Some(st) => pre.push(st),
            None => pre,
        }
    }
}

/// Keep the snapshots of the files that decoded, in order, dropping the
/// failed ones; a failure in one file never removes another file's
/// snapshot.
pub fn collect_snapshots(decoded: Vec<Option<StoreData>>) -> (r: Vec<StoreData>)
    ensures
        r@ == kept(decoded@),
{
    let ghost d0 = decoded@;
    let mut rest = decoded;
    let ghost mut seen: int = 0;
    let mut r: Vec<StoreData> = Vec::new();
    while rest.len() > 0
        invariant
            0 <= seen <= d0.len(),
            rest@ =~= d0.subrange(seen, d0.len() as int),
            r@ == kept(d0.subrange(0, seen)),
        decreases rest@.len(),
    {
        let e = rest.remove(0);
        proof {
            assert(e == d0[seen]);
            assert(d0.subrange(0, seen + 1).drop_last() =~= d0.subrange(0, seen));
            assert(d0.subrange(0, seen + 1).last() == d0[seen]);
        }
        match e {
            Some(st) => {
                r.push(st);
            },
            None => {},
        }
        proof {
            seen = seen + 1;
        }
    }
    proof {
        assert(d0.subrange(0, seen) =~= d0);
    }
    r
}

} // verus!
//! Reading the fields of a report: owner, type of trade, asset, amount, date, identifier.

use vstd::prelude::*;
use crate::html;
use crate::html::clean_chars;
use crate::number;
use crate::number::{natural_up_to, parse_i32};
use crate::text;
use crate::text::{chars_of, has, lowered, pieces_of, tail_after, words_of};
use crate::trade::Owner;

verus! {

// ---------------------------------------------------------------------------
// Owner, type, asset
// ---------------------------------------------------------------------------

/// `s` cleaned, in small letters.
pub open spec fn folded(s: Seq<char>) -> Seq<char> {
    text::lower(html::cleaned(s))
}

/// The characters of `s` cleaned, in small letters.
fn fold(s: &str) -> (r: Vec<char>)
    ensures
        r@ == folded(s@),
{
    lowered(clean_chars(chars_of(s).as_slice()).as_slice())
}

/// The owner that an owner text names.
pub open spec fn owner_of(s: Seq<char>) -> Owner {
    let t = folded(s);
    if text::contains(t, "spouse"@) {
        Owner::Spouse
    } else if text::contains(t, "child"@) || text::contains(t, "dependent"@) {
        Owner::Child
    } else if text::contains(t, "joint"@) {
        Owner::Joint
    } else {
        Owner::SelfFiler
    }
}

/// Maps the owner text of a report to an [`Owner`].
pub fn parse_owner(s: &str) -> (r: Owner)
    ensures
        r == owner_of(s@),
{
    let t = fold(s);
    if has(t.as_slice(), "spouse") {
        Owner::Spouse
    } else if has(t.as_slice(), "child") || has(t.as_slice(), "dependent") {
        Owner::Child
    } else if has(t.as_slice(), "joint") {
        Owner::Joint
    } else {
        Owner::SelfFiler
    }
}

/// The transaction code for a type label; a label that names no type stays as it is, cleaned.
pub open spec fn code_of_label(s: Seq<char>) -> Seq<char> {
    let t = folded(s);
    if text::contains(t, "partial"@) {
        "S (partial)"@
    } else if text::contains(t, "purchase"@) {
        "P"@
    } else if text::contains(t, "exchange"@) {
        "E"@
    } else if text::contains(t, "sale"@) || text::contains(t, "sold"@) {
        "S"@
    } else {
        html::cleaned(s)
    }
}

/// Normalizes a type label to the codes that [`crate::trade::TxnType::from_code`] accepts.
pub fn normalize_type(s: &str) -> (r: String)
    ensures
        r@ == code_of_label(s@),
{
    let t = fold(s);
    if has(t.as_slice(), "partial") {
        "S (partial)".to_string()
    } else if has(t.as_slice(), "purchase") {
        "P".to_string()
    } else if has(t.as_slice(), "exchange") {
        "E".to_string()
    } else if has(t.as_slice(), "sale") || has(t.as_slice(), "sold") {
        "S".to_string()
    } else {
        html::clean(s)
    }
}

/// The class of an asset with type text `kind` and description `desc`. The description counts
/// only where the type text names no class.
pub open spec fn asset_class(kind: Seq<char>, desc: Seq<char>) -> Seq<char> {
    let t = folded(kind);
    let d = text::lower(desc);
    if text::contains(t, "stock"@) {
        "stock"@
    } else if text::contains(t, "option"@) {
        "option"@
    } else if text::contains(d, "[st]"@) {
        "stock"@
    } else if text::contains(d, "option"@) {
        "option"@
    } else {
        "other"@
    }
}

/// Classifies an asset by its type text, falling back to its description.
pub fn classify_asset(asset_type_cell: &str, desc: &str) -> (r: String)
    ensures
        r@ == asset_class(asset_type_cell@, desc@),
{
    let t = fold(asset_type_cell);
    let d = lowered(chars_of(desc).as_slice());
    if has(t.as_slice(), "stock") {
        "stock".to_string()
    } else if has(t.as_slice(), "option") {
        "option".to_string()
    } else if has(d.as_slice(), "[st]") {
        "stock".to_string()
    } else if has(d.as_slice(), "option") {
        "option".to_string()
    } else {
        "other".to_string()
    }
}

// ---------------------------------------------------------------------------
// Amount
// ---------------------------------------------------------------------------

/// The digits that `s` begins with, where commas may stand between and around them.
pub open spec fn leading_digits(s: Seq<char>) -> Seq<char>
    decreases s.len(),
{
    if s.len() == 0 || !(number::is_digit(s[0]) || s[0] == ',') {
        Seq::empty()
    } else if s[0] == ',' {
        leading_digits(s.drop_first())
    } else {
        seq![s[0]] + leading_digits(s.drop_first())
    }
}

/// The number of dollars that `s` begins with, where it begins with one that fits an `i64`.
pub open spec fn leading_dollars(s: Seq<char>) -> Option<int> {
    number::within(number::natural(leading_digits(s)), 0, i64::MAX as int)
}

/// The numbers that follow the dollar signs of `s`, in order; a dollar sign without one is
/// passed over.
pub open spec fn dollar_values(s: Seq<char>) -> Seq<int> {
    text::split(html::cleaned(s), '$').skip(1).filter_map(|chunk: Seq<char>| leading_dollars(chunk))
}

/// The amount band that `s` states: the first two numbers, one number twice, or zeros.
pub open spec fn amount_band(s: Seq<char>) -> (int, int) {
    let values = dollar_values(s);
    if values.len() == 0 {
        (0, 0)
    } else if values.len() == 1 {
        (values[0], values[0])
    } else {
        (values[0], values[1])
    }
}

/// The number of dollars that `s` begins with.
fn dollars_of(s: &[char]) -> (r: Option<i64>)
    ensures
        match r {
            Some(v) => leading_dollars(s@) == Some(v as int),
            None => leading_dollars(s@) is None,
        },
{
    let mut digits: Vec<char> = Vec::new();
    let mut i: usize = 0;
    assert(s@.skip(0) =~= s@);
    assert(Seq::<char>::empty() + leading_digits(s@) =~= leading_digits(s@));
    while i < s.len() && (('0' <= s[i] && s[i] <= '9') || s[i] == ',')
        invariant
            i <= s@.len(),
            leading_digits(s@) == digits@ + leading_digits(s@.skip(i as int)),
        decreases s@.len() - i,
    {
        let ghost before = digits@;
        let ghost rest = s@.skip(i + 1);
        assert(s@.skip(i as int).drop_first() =~= rest);
        let c = s[i];
        if c != ',' {
            digits.push(c);
            assert(before + (seq![c] + leading_digits(rest)) =~= before.push(c) + leading_digits(
                rest,
            ));
        }
        i = i + 1;
    }
    assert(leading_digits(s@.skip(i as int)) =~= Seq::<char>::empty());
    assert(digits@ + Seq::<char>::empty() =~= digits@);
    match natural_up_to(digits.as_slice(), 9223372036854775807) {
        Some(v) => Some(v as i64),
        None => None,
    }
}

/// Reads an amount band such as `$1,001 - $15,000` as its lower and upper end in whole dollars.
/// A single value is both ends; without any, both are 0.
pub fn parse_amount(cell: &str) -> (r: (i64, i64))
    ensures
        (r.0 as int, r.1 as int) == amount_band(cell@),
{
    let chunks = pieces_of(clean_chars(chars_of(cell).as_slice()).as_slice(), '$');
    let ghost all = text::split(html::cleaned(cell@), '$');
    let ghost after = all.skip(1);
    let ghost f = |chunk: Seq<char>| leading_dollars(chunk);
    let mut values: Vec<i64> = Vec::new();
    let mut i: usize = 1;
    assert(after.take(0) =~= Seq::<Seq<char>>::empty());
    while i < chunks.len()
        invariant
            1 <= i,
            i <= chunks@.len() || chunks@.len() == 0,
            all == text::views(chunks@),
            after == all.skip(1),
            f == (|chunk: Seq<char>| leading_dollars(chunk)),
            values@.map_values(|v: i64| v as int) == after.take(i - 1).filter_map(f),
        decreases chunks@.len() - i,
    {
        let ghost before = values@;
        proof {
            after.lemma_filter_map_take_succ(f, i - 1);
            assert(after[i - 1] == chunks@[i as int]@);
        }
        match dollars_of(chunks[i].as_slice()) {
            Some(v) => {
                values.push(v);
                assert(before.push(v).map_values(|v: i64| v as int) =~= before.map_values(
                    |v: i64| v as int,
                ).push(v as int));
            },
            None => {},
        }
        i = i + 1;
    }
    proof {
        crate::laws::text::split_and_join(html::cleaned(cell@), '$');
        assert(after.take(i - 1) =~= after);
    }
    if values.len() == 0 {
        (0, 0)
    } else if values.len() == 1 {
        (values[0], values[0])
    } else {
        (values[0], values[1])
    }
}

// ---------------------------------------------------------------------------
// Identifier
// ---------------------------------------------------------------------------

/// The last path segment of a URL.
pub open spec fn last_segment(url: Seq<char>) -> Seq<char> {
    text::after_last(text::trim_end_char(url, '/'), '/')
}

/// The identifier in a `/search/view/ptr/<id>/` URL, else the URL's tail.
pub fn report_id(url: &str) -> (r: String)
    ensures
        r@ == last_segment(url@),
{
    tail_after(chars_of(url).as_slice(), '/')
}

// ---------------------------------------------------------------------------
// Date
// ---------------------------------------------------------------------------

/// The first word of `s`, empty where it has none.
pub open spec fn first_word(s: Seq<char>) -> Seq<char> {
    let list = text::words(s);
    if list.len() > 0 {
        list[0]
    } else {
        Seq::empty()
    }
}

/// The number that `s` stands for, where it fits an `i32`.
pub open spec fn i32_of(s: Seq<char>) -> Option<int> {
    number::within(number::integer(s), i32::MIN as int, i32::MAX as int)
}

/// The date with month `m`, day `d` and year `y` as `YYYYMMDD`; 0 where the month, the day or
/// the year is out of range, or where the result does not fit an `i32`.
pub open spec fn ymd(m: int, d: int, y: int) -> int {
    if 1 <= m <= 12 && 1 <= d <= 31 && 1900 <= y && y * 10000 + m * 100 + d <= i32::MAX {
        y * 10000 + m * 100 + d
    } else {
        0
    }
}

/// The date that `s` begins with as `YYYYMMDD`; 0 where it begins with none.
pub open spec fn date_value(s: Seq<char>) -> int {
    let parts = text::split(first_word(s), '/');
    if parts.len() != 3 {
        0
    } else {
        match (i32_of(parts[0]), i32_of(parts[1]), i32_of(parts[2])) {
            (Some(m), Some(d), Some(y)) => ymd(m, d, y),
            _ => 0,
        }
    }
}

/// Reads a date `MM/DD/YYYY`, after which a time may follow, as `YYYYMMDD`; 0 on failure.
pub fn parse_efd_date(s: &str) -> (r: i32)
    ensures
        r == date_value(s@),
{
    let list = words_of(chars_of(s).as_slice());
    if list.len() == 0 {
        proof {
            assert(text::words(s@).len() == 0);
            assert(text::split(Seq::<char>::empty(), '/').len() == 1);
        }
        return 0;
    }
    assert(first_word(s@) == list@[0]@);
    let parts = pieces_of(list[0].as_slice(), '/');
    if parts.len() != 3 {
        return 0;
    }
    assert(text::views(parts@).len() == 3);
    match (
        parse_i32(parts[0].as_slice()),
        parse_i32(parts[1].as_slice()),
        parse_i32(parts[2].as_slice()),
    ) {
        (Some(m), Some(d), Some(y)) => if 1 <= m && m <= 12 && 1 <= d && d <= 31 && 1900 <= y {
            let date: i64 = y as i64 * 10000 + m as i64 * 100 + d as i64;
            if date <= 2147483647 {
                date as i32
            } else {
                0
            }
        } else {
            0
        },
        _ => 0,
    }
}

} // verus!

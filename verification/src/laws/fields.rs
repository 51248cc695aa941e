//! Laws of reading the fields of a report.

use vstd::prelude::*;
use crate::fields;
use crate::html;
use crate::laws::html as scans;
use crate::laws::report as lists;
use crate::laws::text as seams;
use crate::number;
use crate::text;
use crate::trade;
use crate::trade::{Owner, TxnType};

verus! {

// ---------------------------------------------------------------------------
// Owner, type and asset
// ---------------------------------------------------------------------------

proof fn known_words()
    ensures
        seams::is_plain_word("spouse"@),
        seams::is_plain_word("child"@),
        seams::is_plain_word("dependent"@),
        seams::is_plain_word("joint"@),
        seams::is_plain_word("partial"@),
        seams::is_plain_word("purchase"@),
        seams::is_plain_word("exchange"@),
        seams::is_plain_word("sale"@),
        seams::is_plain_word("sold"@),
        seams::is_plain_word("stock"@),
        seams::is_plain_word("option"@),
        "spouse"@.len() > 4,
        "child"@.len() > 4,
        "dependent"@.len() > 4,
        "joint"@.len() > 4,
        "partial"@.len() > 4,
        "purchase"@.len() > 4,
        "exchange"@.len() > 4,
        "sale"@.len() == 4 && "sale"@[0] == 's',
        "sold"@.len() == 4 && "sold"@[0] == 's',
        "stock"@.len() > 4,
        "option"@.len() > 4,
{
    reveal_strlit("spouse");
    reveal_strlit("child");
    reveal_strlit("dependent");
    reveal_strlit("joint");
    reveal_strlit("partial");
    reveal_strlit("purchase");
    reveal_strlit("exchange");
    reveal_strlit("sale");
    reveal_strlit("sold");
    reveal_strlit("stock");
    reveal_strlit("option");
}

/// A text folded to small letters holds a word just when the text mentions it.
proof fn folded_text_holds_mentioned_words(s: Seq<char>, word: Seq<char>)
    requires
        seams::is_plain_word(word),
        word.len() >= 4,
        word.len() == 4 ==> word[0] != 'n',
    ensures
        text::contains(fields::folded(s), word) <==> seams::mentions(s, word),
{
    seams::lowered_text_holds_mentioned_words(html::cleaned(s), word);
    scans::cleaning_keeps_mentions(s, word);
}

/// An owner text that mentions a spouse, in whatever case, names the spouse; else one that
/// mentions a child or a dependent names a child; else one that mentions a joint account names
/// that; any other names the filer.
pub proof fn owners_by_their_words(s: Seq<char>)
    ensures
        seams::mentions(s, "spouse"@) ==> fields::owner_of(s) == Owner::Spouse,
        !seams::mentions(s, "spouse"@) ==> {
            &&& seams::mentions(s, "child"@) ==> fields::owner_of(s) == Owner::Child
            &&& seams::mentions(s, "dependent"@) ==> fields::owner_of(s) == Owner::Child
            &&& !seams::mentions(s, "child"@) && !seams::mentions(s, "dependent"@) ==> {
                &&& seams::mentions(s, "joint"@) ==> fields::owner_of(s) == Owner::Joint
                &&& !seams::mentions(s, "joint"@) ==> fields::owner_of(s) == Owner::SelfFiler
            }
        },
{
    known_words();
    folded_text_holds_mentioned_words(s, "spouse"@);
    folded_text_holds_mentioned_words(s, "child"@);
    folded_text_holds_mentioned_words(s, "dependent"@);
    folded_text_holds_mentioned_words(s, "joint"@);
}

/// Whether a label mentions none of the words that a type is known by.
pub open spec fn names_no_type(label: Seq<char>) -> bool {
    &&& !seams::mentions(label, "partial"@)
    &&& !seams::mentions(label, "purchase"@)
    &&& !seams::mentions(label, "exchange"@)
    &&& !seams::mentions(label, "sale"@)
    &&& !seams::mentions(label, "sold"@)
}

/// The type of trade that a label stands for.
pub open spec fn type_of_label(label: Seq<char>) -> Option<TxnType> {
    trade::type_of_code(fields::code_of_label(label))
}

proof fn labels_and_words(label: Seq<char>)
    ensures
        text::contains(fields::folded(label), "partial"@) <==> seams::mentions(label, "partial"@),
        text::contains(fields::folded(label), "purchase"@) <==> seams::mentions(label, "purchase"@),
        text::contains(fields::folded(label), "exchange"@) <==> seams::mentions(label, "exchange"@),
        text::contains(fields::folded(label), "sale"@) <==> seams::mentions(label, "sale"@),
        text::contains(fields::folded(label), "sold"@) <==> seams::mentions(label, "sold"@),
        "P"@ == seq!['P'],
        "S"@ == seq!['S'],
        "E"@ == seq!['E'],
        "S (partial)"@.len() == 11,
{
    known_words();
    folded_text_holds_mentioned_words(label, "partial"@);
    folded_text_holds_mentioned_words(label, "purchase"@);
    folded_text_holds_mentioned_words(label, "exchange"@);
    folded_text_holds_mentioned_words(label, "sale"@);
    folded_text_holds_mentioned_words(label, "sold"@);
    reveal_strlit("P");
    reveal_strlit("S");
    reveal_strlit("E");
    reveal_strlit("S (partial)");
    assert("P"@ =~= seq!['P']);
    assert("S"@ =~= seq!['S']);
    assert("E"@ =~= seq!['E']);
}

/// A label stands for the type whose word it mentions, in whatever case: for a partial sale, else
/// for a purchase, else for an exchange, else for a sale.
pub proof fn types_by_their_words(label: Seq<char>)
    ensures
        seams::mentions(label, "partial"@) ==> type_of_label(label) == Some(TxnType::PartialSale),
        !seams::mentions(label, "partial"@) ==> {
            &&& seams::mentions(label, "purchase"@) ==> type_of_label(label) == Some(
                TxnType::Purchase,
            )
            &&& !seams::mentions(label, "purchase"@) ==> {
                &&& seams::mentions(label, "exchange"@) ==> type_of_label(label) == Some(
                    TxnType::Exchange,
                )
                &&& !seams::mentions(label, "exchange"@) ==> {
                    &&& seams::mentions(label, "sale"@) ==> type_of_label(label) == Some(
                        TxnType::Sale,
                    )
                    &&& seams::mentions(label, "sold"@) ==> type_of_label(label) == Some(
                        TxnType::Sale,
                    )
                }
            }
        },
{
    labels_and_words(label);
    assert("S (partial)"@ != "P"@ && "S (partial)"@ != "S"@ && "S (partial)"@ != "E"@);
    assert(seq!['P'][0] != seq!['S'][0] && seq!['P'][0] != seq!['E'][0] && seq!['S'][0]
        != seq!['E'][0]);
}

/// The codes of the types: each label with a known word has the code of its type, written out.
pub proof fn codes_by_their_words(label: Seq<char>)
    ensures
        type_of_label(label) == Some(TxnType::PartialSale) ==> fields::code_of_label(label)
            == "S (partial)"@,
        type_of_label(label) == Some(TxnType::Purchase) ==> fields::code_of_label(label) == "P"@,
        type_of_label(label) == Some(TxnType::Exchange) ==> fields::code_of_label(label) == "E"@,
        type_of_label(label) == Some(TxnType::Sale) ==> fields::code_of_label(label) == "S"@,
{
}

/// A label with none of the known words stays as it is, cleaned. It stands for a type just when
/// it is the one letter of that type.
pub proof fn unnamed_types_are_single_letters(label: Seq<char>)
    requires
        names_no_type(label),
    ensures
        fields::code_of_label(label) == html::cleaned(label),
        type_of_label(label) == Some(TxnType::Purchase) <==> html::cleaned(label) == seq!['P'],
        type_of_label(label) == Some(TxnType::Sale) <==> html::cleaned(label) == seq!['S'],
        type_of_label(label) == Some(TxnType::Exchange) <==> html::cleaned(label) == seq!['E'],
        type_of_label(label) != Some(TxnType::PartialSale),
{
    labels_and_words(label);
    assert(seq!['P'][0] != seq!['S'][0] && seq!['P'][0] != seq!['E'][0] && seq!['S'][0]
        != seq!['E'][0]);
    let code = "S (partial)"@;
    if html::cleaned(label) == code {
        reveal_strlit("S (partial)");
        reveal_strlit("partial");
        let low = text::lower(code);
        assert(low.subrange(3, 10) =~= "partial"@);
        assert(text::occurs_at(low, "partial"@, 3));
    }
}

/// A label that names a type in any of the known words becomes a code with a meaning.
pub proof fn named_types_are_accepted(label: Seq<char>)
    requires
        ({
            let t = fields::folded(label);
            ||| text::contains(t, "partial"@)
            ||| text::contains(t, "purchase"@)
            ||| text::contains(t, "exchange"@)
            ||| text::contains(t, "sale"@)
            ||| text::contains(t, "sold"@)
        }),
    ensures
        trade::type_of_code(fields::code_of_label(label)) is Some,
{
}

/// A label without any of the known words has the type that it stands for as a code, if any.
pub proof fn other_labels_are_codes(label: Seq<char>)
    requires
        ({
            let t = fields::folded(label);
            &&& !text::contains(t, "partial"@)
            &&& !text::contains(t, "purchase"@)
            &&& !text::contains(t, "exchange"@)
            &&& !text::contains(t, "sale"@)
            &&& !text::contains(t, "sold"@)
        }),
    ensures
        trade::type_of_code(fields::code_of_label(label)) == trade::type_of_code(
            html::cleaned(label),
        ),
{
}

/// A code stands for a type just when it is one of four, each of which stands for its own.
pub proof fn codes_of_types(code: Seq<char>)
    ensures
        trade::type_of_code(code) == Some(TxnType::Purchase) <==> code == "P"@,
        trade::type_of_code(code) == Some(TxnType::Sale) <==> code == "S"@,
        trade::type_of_code(code) == Some(TxnType::PartialSale) <==> code == "S (partial)"@,
        trade::type_of_code(code) == Some(TxnType::Exchange) <==> code == "E"@,
{
    labels_and_words(code);
    assert(seq!['P'][0] != seq!['S'][0] && seq!['P'][0] != seq!['E'][0] && seq!['S'][0]
        != seq!['E'][0]);
}

/// Every asset is of one of three classes.
pub proof fn asset_classes(kind: Seq<char>, desc: Seq<char>)
    ensures
        fields::asset_class(kind, desc) == "stock"@ || fields::asset_class(kind, desc) == "option"@
            || fields::asset_class(kind, desc) == "other"@,
{
}

/// The type text decides the class of an asset wherever it names one: the description then makes
/// no difference.
pub proof fn type_text_decides(kind: Seq<char>, desc: Seq<char>, other: Seq<char>)
    requires
        text::contains(fields::folded(kind), "stock"@) || text::contains(
            fields::folded(kind),
            "option"@,
        ),
    ensures
        fields::asset_class(kind, desc) == fields::asset_class(kind, other),
{
}

/// An asset whose type text mentions stock, in whatever case, is stock, else one whose type text
/// mentions an option is an option. Where the type text mentions neither, the mark `[ST]` in the
/// description makes it stock, else the word option there makes it an option. Any other asset is
/// of no such class.
pub proof fn assets_by_their_words(kind: Seq<char>, desc: Seq<char>)
    ensures
        seams::mentions(kind, "stock"@) ==> fields::asset_class(kind, desc) == "stock"@,
        !seams::mentions(kind, "stock"@) ==> {
            &&& seams::mentions(kind, "option"@) ==> fields::asset_class(kind, desc) == "option"@
            &&& !seams::mentions(kind, "option"@) ==> {
                &&& seams::mentions(desc, "[st]"@) ==> fields::asset_class(kind, desc) == "stock"@
                &&& !seams::mentions(desc, "[st]"@) ==> {
                    &&& seams::mentions(desc, "option"@) ==> fields::asset_class(kind, desc)
                        == "option"@
                    &&& !seams::mentions(desc, "option"@) ==> fields::asset_class(kind, desc)
                        == "other"@
                }
            }
        },
{
    known_words();
    reveal_strlit("[st]");
    folded_text_holds_mentioned_words(kind, "stock"@);
    folded_text_holds_mentioned_words(kind, "option"@);
    seams::lowered_text_holds_mentioned_words(desc, "[st]"@);
    seams::lowered_text_holds_mentioned_words(desc, "option"@);
}

// ---------------------------------------------------------------------------
// Amount
// ---------------------------------------------------------------------------

/// Neither end of an amount band is negative, and both fit an `i64`.
pub proof fn amounts_are_not_negative(s: Seq<char>)
    ensures
        0 <= fields::amount_band(s).0 <= i64::MAX,
        0 <= fields::amount_band(s).1 <= i64::MAX,
{
    let chunks = text::split(html::cleaned(s), '$').skip(1);
    let f = |chunk: Seq<char>| fields::leading_dollars(chunk);
    let values = fields::dollar_values(s);
    assert forall|i: int| 0 <= i < values.len() implies 0 <= #[trigger] values[i] <= i64::MAX by {
        assert(values.contains(values[i]));
        chunks.lemma_filter_map_contains(f, values[i]);
    }
}

/// A text without a dollar sign states no amount.
pub proof fn no_amount_without_dollar_sign(s: Seq<char>)
    requires
        seams::lacks(s, '$'),
    ensures
        fields::amount_band(s) == (0int, 0int),
{
    scans::cleaning_keeps_lacking(s, '$');
    seams::split_without_separator(html::cleaned(s), '$');
    assert(text::split(html::cleaned(s), '$').skip(1) =~= Seq::<Seq<char>>::empty());
}

/// Whether `s` is a number as amounts are written: digits, and commas between them.
pub open spec fn is_amount(s: Seq<char>) -> bool {
    s.len() > 0 && forall|i: int|
        0 <= i < s.len() ==> number::is_digit(#[trigger] s[i]) || s[i] == ','
}

/// `s` without its commas.
pub open spec fn without_commas(s: Seq<char>) -> Seq<char> {
    s.filter(|c: char| c != ',')
}

/// The number of dollars that an amount states.
pub open spec fn amount_value(s: Seq<char>) -> Option<int> {
    match number::natural(without_commas(s)) {
        Some(v) => if v <= i64::MAX {
            Some(v)
        } else {
            None
        },
        None => None,
    }
}

proof fn amount_value_is_within(s: Seq<char>)
    ensures
        amount_value(s) == number::within(
            number::natural(without_commas(s)),
            0,
            i64::MAX as int,
        ),
{
    crate::laws::number::naturals_are_rows_of_digits(without_commas(s));
}

proof fn leading_digits_of_amount(s: Seq<char>, rest: Seq<char>)
    requires
        forall|i: int| 0 <= i < s.len() ==> number::is_digit(#[trigger] s[i]) || s[i] == ',',
        rest.len() > 0 ==> !number::is_digit(rest[0]) && rest[0] != ',',
    ensures
        fields::leading_digits(s + rest) == without_commas(s),
    decreases s.len(),
{
    let f = |c: char| c != ',';
    if s.len() == 0 {
        assert(s + rest =~= rest);
        reveal(Seq::filter);
        assert(without_commas(s) =~= Seq::<char>::empty());
    } else {
        let tail = s.drop_first();
        let one = seq![s[0]];
        assert((s + rest).drop_first() =~= tail + rest);
        assert((s + rest)[0] == s[0]);
        assert forall|i: int| 0 <= i < tail.len() implies number::is_digit(#[trigger] tail[i])
            || tail[i] == ',' by {
            assert(tail[i] == s[i + 1]);
        }
        leading_digits_of_amount(tail, rest);
        assert(s =~= one + tail);
        Seq::filter_distributes_over_add(one, tail, f);
        assert(one.filter(f) == if f(s[0]) {
            one
        } else {
            Seq::<char>::empty()
        }) by {
            reveal(Seq::filter);
            assert(one.drop_last() =~= Seq::<char>::empty());
            assert(one.drop_last().filter(f) =~= Seq::<char>::empty());
            assert(Seq::<char>::empty().push(s[0]) =~= one);
        }
        assert(number::is_digit(s[0]) || s[0] == ',');
        if s[0] == ',' {
            assert(Seq::<char>::empty() + tail.filter(f) =~= tail.filter(f));
        }
    }
}

proof fn amounts_are_plain(s: Seq<char>)
    requires
        forall|i: int| 0 <= i < s.len() ==> number::is_digit(#[trigger] s[i]) || s[i] == ',',
    ensures
        seams::no_white(s),
        seams::lacks(s, '$'),
        seams::lacks(s, '&'),
{
    assert forall|i: int| 0 <= i < s.len() implies !text::is_white(#[trigger] s[i]) && s[i] != '$'
        && s[i] != '&' by {
        assert(number::is_digit(s[i]) || s[i] == ',');
    }
}

proof fn cleaning_keeps_plain_text(s: Seq<char>)
    requires
        seams::tidy(s),
        seams::lacks(s, '&'),
    ensures
        html::cleaned(s) == s,
{
    reveal_strlit("&amp;");
    reveal_strlit("&nbsp;");
    seams::lacking_text_lacks_pattern(s, "&amp;"@, 0);
    seams::lacking_text_lacks_pattern(s, "&nbsp;"@, 0);
    scans::cleaning_keeps_clean_text(s);
}

/// An amount band `$low - $high` is read back, whatever commas its numbers are written with.
pub proof fn band_reads_back(low: Seq<char>, high: Seq<char>, x: int, y: int)
    requires
        is_amount(low),
        is_amount(high),
        amount_value(low) == Some(x),
        amount_value(high) == Some(y),
    ensures
        fields::amount_band(seq!['$'] + low + " - $"@ + high) == (x, y),
{
    reveal_strlit(" - $");
    amounts_are_plain(low);
    amounts_are_plain(high);
    let s = seq!['$'] + low + " - $"@ + high;
    let n = low.len() as int;
    assert forall|i: int| 0 <= i < s.len() && text::is_white(#[trigger] s[i]) implies s[i] == ' '
        && 0 < i < s.len() - 1 && !text::is_white(s[i - 1]) && !text::is_white(s[i + 1]) by {
        if 1 <= i <= n {
            assert(s[i] == low[i - 1]);
        } else if i == n + 1 {
            assert(s[i - 1] == low[n - 1]);
        } else if i > n + 4 {
            assert(s[i] == high[i - n - 5]);
        }
    }
    assert forall|i: int| 0 <= i < s.len() implies #[trigger] s[i] != '&' by {
        if 1 <= i <= n {
            assert(s[i] == low[i - 1]);
        } else if i > n + 4 {
            assert(s[i] == high[i - n - 5]);
        }
    }
    cleaning_keeps_plain_text(s);
    let none = Seq::<char>::empty();
    let dash = seq![' ', '-', ' '];
    let first = low + dash;
    assert(seams::lacks(first, '$'));
    seams::split_without_separator(none, '$');
    seams::split_at_separator(none, first, '$');
    let head = none + seq!['$'] + first;
    seams::split_at_separator(head, high, '$');
    assert(s =~= head + seq!['$'] + high);
    let chunks = text::split(s, '$').skip(1);
    assert(chunks =~= seq![first, high]);
    leading_digits_of_amount(low, dash);
    amount_value_is_within(low);
    amount_value_is_within(high);
    leading_digits_of_amount(high, none);
    assert(high + none =~= high);
    let f = |chunk: Seq<char>| fields::leading_dollars(chunk);
    chunks.lemma_filter_map_take_succ(f, 0);
    chunks.lemma_filter_map_take_succ(f, 1);
    assert(chunks.take(0) =~= Seq::<Seq<char>>::empty());
    assert(chunks.take(2) =~= chunks);
    assert(fields::dollar_values(s) =~= seq![x, y]);
}

/// A single amount is both ends of the band.
pub proof fn single_amount_reads_back(amount: Seq<char>, x: int)
    requires
        is_amount(amount),
        amount_value(amount) == Some(x),
    ensures
        fields::amount_band(seq!['$'] + amount) == (x, x),
{
    amounts_are_plain(amount);
    let s = seq!['$'] + amount;
    let none = Seq::<char>::empty();
    assert forall|i: int| 0 <= i < s.len() implies !text::is_white(#[trigger] s[i]) && s[i]
        != '&' by {
        if i > 0 {
            assert(s[i] == amount[i - 1]);
        }
    }
    cleaning_keeps_plain_text(s);
    seams::split_without_separator(none, '$');
    seams::split_at_separator(none, amount, '$');
    assert(s =~= none + seq!['$'] + amount);
    let chunks = text::split(s, '$').skip(1);
    assert(chunks =~= seq![amount]);
    leading_digits_of_amount(amount, none);
    amount_value_is_within(amount);
    assert(amount + none =~= amount);
    let f = |chunk: Seq<char>| fields::leading_dollars(chunk);
    chunks.lemma_filter_map_take_succ(f, 0);
    assert(chunks.take(0) =~= Seq::<Seq<char>>::empty());
    assert(chunks.take(1) =~= chunks);
    assert(fields::dollar_values(s) =~= seq![x]);
}

/// Whether no character of a number follows at the beginning of `s`.
pub open spec fn ends_amount(s: Seq<char>) -> bool {
    s.len() > 0 ==> !number::is_digit(s[0]) && s[0] != ','
}

/// The values of a text with a dollar sign in it: what follows the sign is the first one, where it
/// is an amount.
proof fn values_behind_dollar_sign(
    s: Seq<char>,
    pre: Seq<char>,
    num: Seq<char>,
    rest: Seq<char>,
)
    requires
        html::cleaned(s) == pre + seq!['$'] + num + rest,
        seams::lacks(pre, '$'),
        forall|i: int| 0 <= i < num.len() ==> number::is_digit(#[trigger] num[i]) || num[i] == ',',
        ends_amount(rest),
    ensures
        ({
            let f = |chunk: Seq<char>| fields::leading_dollars(chunk);
            let further = text::split(rest, '$').skip(1).filter_map(f);
            fields::dollar_values(s) == match amount_value(num) {
                Some(x) => seq![x] + further,
                None => further,
            }
        }),
{
    let f = |chunk: Seq<char>| fields::leading_dollars(chunk);
    let t = html::cleaned(s);
    amounts_are_plain(num);
    let (junk, more) = seams::up_to_separator(rest, '$');
    let chunk = num + junk;
    assert(seams::lacks(chunk, '$')) by {
        assert forall|i: int| 0 <= i < chunk.len() implies #[trigger] chunk[i] != '$' by {
            if i < num.len() {
                assert(chunk[i] == num[i]);
            } else {
                assert(chunk[i] == junk[i - num.len()]);
            }
        }
    }
    assert(t =~= pre + seq!['$'] + (chunk + more));
    seams::split_over_separator(pre, chunk + more, '$');
    seams::split_without_separator(pre, '$');
    let chunks = text::split(chunk + more, '$');
    assert(text::split(t, '$').skip(1) =~= chunks);
    seams::first_piece_of(chunk, more, '$');
    let tail = chunks.skip(1);
    assert(chunks =~= seq![chunk] + tail);
    if more.len() == 0 {
        assert(chunk + more =~= chunk);
        assert(rest =~= junk);
        seams::split_without_separator(chunk, '$');
        seams::split_without_separator(junk, '$');
        assert(tail =~= text::split(rest, '$').skip(1));
    } else {
        let behind = more.drop_first();
        assert(chunk + more =~= chunk + seq!['$'] + behind);
        assert(rest =~= junk + seq!['$'] + behind);
        seams::split_over_separator(chunk, behind, '$');
        seams::split_over_separator(junk, behind, '$');
        seams::split_without_separator(chunk, '$');
        seams::split_without_separator(junk, '$');
        assert(tail =~= text::split(behind, '$'));
        assert(text::split(rest, '$').skip(1) =~= text::split(behind, '$'));
    }
    lists::filter_map_of_concat(seq![chunk], tail, f);
    lists::filter_map_of_one(chunk, f);
    if junk.len() > 0 {
        assert(junk[0] == rest[0]);
    }
    leading_digits_of_amount(num, junk);
    amount_value_is_within(num);
    let further = tail.filter_map(f);
    assert(Seq::<int>::empty() + further =~= further);
}

/// The amount band of a text: the first two amounts that follow a dollar sign, whatever stands
/// before, between and behind them.
pub proof fn first_two_amounts_are_the_band(
    s: Seq<char>,
    pre: Seq<char>,
    low: Seq<char>,
    mid: Seq<char>,
    high: Seq<char>,
    rest: Seq<char>,
    x: int,
    y: int,
)
    requires
        html::cleaned(s) == pre + seq!['$'] + low + mid + seq!['$'] + high + rest,
        seams::lacks(pre, '$'),
        seams::lacks(mid, '$'),
        is_amount(low),
        is_amount(high),
        ends_amount(mid),
        ends_amount(rest),
        amount_value(low) == Some(x),
        amount_value(high) == Some(y),
    ensures
        fields::amount_band(s) == (x, y),
{
    let f = |chunk: Seq<char>| fields::leading_dollars(chunk);
    let behind = mid + seq!['$'] + high + rest;
    assert(html::cleaned(s) =~= pre + seq!['$'] + low + behind);
    if mid.len() > 0 {
        assert(behind[0] == mid[0]);
    } else {
        assert(behind[0] == '$');
    }
    values_behind_dollar_sign(s, pre, low, behind);
    let chunks = text::split(behind, '$').skip(1);
    amounts_are_plain(high);
    let (junk, more) = seams::up_to_separator(rest, '$');
    let chunk = high + junk;
    assert(seams::lacks(chunk, '$')) by {
        assert forall|i: int| 0 <= i < chunk.len() implies #[trigger] chunk[i] != '$' by {
            if i < high.len() {
                assert(chunk[i] == high[i]);
            } else {
                assert(chunk[i] == junk[i - high.len()]);
            }
        }
    }
    assert(behind =~= mid + seq!['$'] + (chunk + more));
    seams::split_over_separator(mid, chunk + more, '$');
    seams::split_without_separator(mid, '$');
    assert(chunks =~= text::split(chunk + more, '$'));
    seams::first_piece_of(chunk, more, '$');
    assert(chunks =~= seq![chunk] + chunks.skip(1));
    lists::filter_map_of_concat(seq![chunk], chunks.skip(1), f);
    lists::filter_map_of_one(chunk, f);
    if junk.len() > 0 {
        assert(junk[0] == rest[0]);
    }
    leading_digits_of_amount(high, junk);
    amount_value_is_within(high);
    let values = fields::dollar_values(s);
    assert(values[0] == x);
    assert(values[1] == y);
}

/// Where only one amount follows a dollar sign, it is both ends of the band.
pub proof fn lone_amount_is_both_ends(
    s: Seq<char>,
    pre: Seq<char>,
    amount: Seq<char>,
    rest: Seq<char>,
    x: int,
)
    requires
        html::cleaned(s) == pre + seq!['$'] + amount + rest,
        seams::lacks(pre, '$'),
        seams::lacks(rest, '$'),
        is_amount(amount),
        ends_amount(rest),
        amount_value(amount) == Some(x),
    ensures
        fields::amount_band(s) == (x, x),
{
    let f = |chunk: Seq<char>| fields::leading_dollars(chunk);
    values_behind_dollar_sign(s, pre, amount, rest);
    seams::split_without_separator(rest, '$');
    assert(text::split(rest, '$').skip(1) =~= Seq::<Seq<char>>::empty());
    assert(Seq::<Seq<char>>::empty().filter_map(f) =~= Seq::<int>::empty());
    assert(fields::dollar_values(s) =~= seq![x]);
}

/// The values of a text stand behind its dollar signs, in order. What follows the first sign gives
/// the first value where it is an amount that fits an `i64`, else none; then come the values of the
/// text from the next sign on.
pub proof fn values_stand_behind_dollar_signs(
    s: Seq<char>,
    t: Seq<char>,
    pre: Seq<char>,
    num: Seq<char>,
    junk: Seq<char>,
    more: Seq<char>,
)
    requires
        html::cleaned(s) == pre + seq!['$'] + num + junk + more,
        html::cleaned(t) == more,
        seams::lacks(pre, '$'),
        seams::lacks(junk, '$'),
        forall|i: int| 0 <= i < num.len() ==> number::is_digit(#[trigger] num[i]) || num[i] == ',',
        ends_amount(junk),
        more.len() > 0 ==> more[0] == '$',
    ensures
        fields::dollar_values(s) == match amount_value(num) {
            Some(x) => seq![x] + fields::dollar_values(t),
            None => fields::dollar_values(t),
        },
        amount_value(num) is None ==> fields::amount_band(s) == fields::amount_band(t),
{
    let rest = junk + more;
    assert(html::cleaned(s) =~= pre + seq!['$'] + num + rest);
    if rest.len() > 0 {
        assert(rest[0] == if junk.len() > 0 {
            junk[0]
        } else {
            more[0]
        });
    }
    values_behind_dollar_sign(s, pre, num, rest);
    let none = Seq::<char>::empty();
    seams::split_without_separator(junk, '$');
    seams::split_without_separator(none, '$');
    if more.len() == 0 {
        assert(rest =~= junk);
        assert(more =~= none);
        assert(text::split(rest, '$').skip(1) =~= text::split(more, '$').skip(1));
    } else {
        let behind = more.drop_first();
        assert(rest =~= junk + seq!['$'] + behind);
        assert(more =~= none + seq!['$'] + behind);
        seams::split_over_separator(junk, behind, '$');
        seams::split_over_separator(none, behind, '$');
        assert(text::split(rest, '$').skip(1) =~= text::split(behind, '$'));
        assert(text::split(more, '$').skip(1) =~= text::split(behind, '$'));
    }
}

/// The first two values of a text are the ends of its band; a single value is both ends, and
/// without any both ends are 0.
pub proof fn first_values_are_the_band(s: Seq<char>)
    ensures
        ({
            let values = fields::dollar_values(s);
            let band = fields::amount_band(s);
            &&& band.0 == if values.len() > 0 {
                values.first()
            } else {
                0
            }
            &&& band.1 == if values.len() > 1 {
                values[1]
            } else {
                band.0
            }
        }),
{
}

// ---------------------------------------------------------------------------
// Identifier
// ---------------------------------------------------------------------------

/// A report's identifier holds no slash.
pub proof fn identifiers_have_no_slash(url: Seq<char>)
    ensures
        seams::lacks(fields::last_segment(url), '/'),
{
    after_last_lacks(text::trim_end_char(url, '/'), '/');
}

proof fn after_last_lacks(s: Seq<char>, c: char)
    ensures
        seams::lacks(text::after_last(s, c), c),
    decreases s.len(),
{
    if s.len() > 0 && s.last() != c {
        after_last_lacks(s.drop_last(), c);
    }
}

proof fn after_last_of_seam(a: Seq<char>, b: Seq<char>, c: char)
    requires
        seams::lacks(b, c),
    ensures
        text::after_last(a + seq![c] + b, c) == b,
    decreases b.len(),
{
    let s = a + seq![c] + b;
    if b.len() == 0 {
        assert(s.last() == c);
        assert(text::after_last(s, c) =~= b);
    } else {
        let shorter = b.drop_last();
        assert(s.drop_last() =~= a + seq![c] + shorter);
        assert(s.last() == b[b.len() - 1]);
        after_last_of_seam(a, shorter, c);
        assert(text::after_last(s, c) =~= b);
    }
}

proof fn trim_end_char_of_seam(a: Seq<char>, tail: Seq<char>, c: char)
    requires
        a.len() > 0,
        a.last() != c,
        forall|i: int| 0 <= i < tail.len() ==> #[trigger] tail[i] == c,
    ensures
        text::trim_end_char(a + tail, c) == a,
    decreases tail.len(),
{
    let s = a + tail;
    if tail.len() == 0 {
        assert(s =~= a);
    } else {
        assert(s.last() == tail[tail.len() - 1]);
        assert(s.drop_last() =~= a + tail.drop_last());
        trim_end_char_of_seam(a, tail.drop_last(), c);
    }
}

/// The identifier at the end of a URL is read back, with or without slashes behind it.
pub proof fn identifier_reads_back(path: Seq<char>, id: Seq<char>, slashes: Seq<char>)
    requires
        id.len() > 0,
        seams::lacks(id, '/'),
        forall|i: int| 0 <= i < slashes.len() ==> #[trigger] slashes[i] == '/',
    ensures
        fields::last_segment(path + seq!['/'] + id + slashes) == id,
{
    let url = path + seq!['/'] + id;
    assert(url.last() == id[id.len() - 1]);
    trim_end_char_of_seam(url, slashes, '/');
    after_last_of_seam(path, id, '/');
}

/// A URL without a path is its own identifier, and one of slashes alone has none.
pub proof fn identifiers_without_path(id: Seq<char>, slashes: Seq<char>)
    requires
        seams::lacks(id, '/'),
        forall|i: int| 0 <= i < slashes.len() ==> #[trigger] slashes[i] == '/',
    ensures
        fields::last_segment(id + slashes) == id,
{
    if id.len() > 0 {
        assert(id.last() == id[id.len() - 1]);
        trim_end_char_of_seam(id, slashes, '/');
        after_last_of_whole(id, '/');
    } else {
        only_slashes(slashes);
        assert(id + slashes =~= slashes);
        assert(fields::last_segment(slashes) =~= id);
    }
}

proof fn only_slashes(slashes: Seq<char>)
    requires
        forall|i: int| 0 <= i < slashes.len() ==> #[trigger] slashes[i] == '/',
    ensures
        text::trim_end_char(slashes, '/').len() == 0,
    decreases slashes.len(),
{
    if slashes.len() > 0 {
        assert(slashes.last() == slashes[slashes.len() - 1]);
        only_slashes(slashes.drop_last());
    }
}

proof fn after_last_of_whole(s: Seq<char>, c: char)
    requires
        seams::lacks(s, c),
    ensures
        text::after_last(s, c) == s,
    decreases s.len(),
{
    if s.len() == 0 {
        assert(text::after_last(s, c) =~= s);
    } else {
        assert(s.last() == s[s.len() - 1]);
        assert(seams::lacks(s.drop_last(), c));
        after_last_of_whole(s.drop_last(), c);
        assert(text::after_last(s, c) =~= s);
    }
}

// ---------------------------------------------------------------------------
// Date
// ---------------------------------------------------------------------------

/// Whether a date may stand as `YYYYMMDD` in an `i32`.
pub open spec fn in_range(m: int, d: int, y: int) -> bool {
    1 <= m <= 12 && 1 <= d <= 31 && 1900 <= y <= 214748
}

/// A date in range is kept whole: its month, day and year can be taken out of it again.
pub proof fn date_parts_are_kept(m: int, d: int, y: int)
    requires
        in_range(m, d, y),
    ensures
        fields::ymd(m, d, y) == y * 10000 + m * 100 + d,
        fields::ymd(m, d, y) / 10000 == y,
        fields::ymd(m, d, y) / 100 % 100 == m,
        fields::ymd(m, d, y) % 100 == d,
{
    let n = y * 10000 + m * 100 + d;
    vstd::arithmetic::div_mod::lemma_fundamental_div_mod_converse(n, 10000, y, m * 100 + d);
    vstd::arithmetic::div_mod::lemma_fundamental_div_mod_converse(n, 100, y * 100 + m, d);
    vstd::arithmetic::div_mod::lemma_fundamental_div_mod_converse(y * 100 + m, 100, y, m);
}

/// Dates are in the order of their numbers.
pub proof fn dates_are_ordered(m1: int, d1: int, y1: int, m2: int, d2: int, y2: int)
    requires
        in_range(m1, d1, y1),
        in_range(m2, d2, y2),
    ensures
        fields::ymd(m1, d1, y1) < fields::ymd(m2, d2, y2) <==> (y1 < y2 || (y1 == y2 && (m1 < m2
            || (m1 == m2 && d1 < d2)))),
{
}

/// What is read as a date is 0, or the month, the day and the year in it are in range.
pub proof fn dates_are_in_range(s: Seq<char>)
    ensures
        fields::date_value(s) == 0 || exists|m: int, d: int, y: int| #[trigger]
            in_range(m, d, y) && fields::date_value(s) == fields::ymd(m, d, y),
        0 <= fields::date_value(s) <= i32::MAX,
{
    let parts = text::split(fields::first_word(s), '/');
    if parts.len() == 3 {
        if let (Some(m), Some(d), Some(y)) = (
            fields::i32_of(parts[0]),
            fields::i32_of(parts[1]),
            fields::i32_of(parts[2]),
        ) {
            if fields::ymd(m, d, y) != 0 {
                assert(in_range(m, d, y));
            }
        }
    }
}

proof fn digits_are_plain(s: Seq<char>)
    requires
        number::all_digits(s),
    ensures
        seams::no_white(s),
        seams::lacks(s, '/'),
{
    assert forall|i: int| 0 <= i < s.len() implies !text::is_white(#[trigger] s[i]) && s[i]
        != '/' by {
        assert(number::is_digit(s[i]));
    }
}

/// A date `MM/DD/YYYY` is read back, with or without leading zeros, and whatever follows it
/// behind white space.
pub proof fn date_reads_back(
    month: Seq<char>,
    day: Seq<char>,
    year: Seq<char>,
    rest: Seq<char>,
    m: int,
    d: int,
    y: int,
)
    requires
        number::natural(month) == Some(m),
        number::natural(day) == Some(d),
        number::natural(year) == Some(y),
        in_range(m, d, y),
        rest.len() > 0 ==> text::is_white(rest[0]),
    ensures
        fields::date_value(month + seq!['/'] + day + seq!['/'] + year + rest) == y * 10000 + m
            * 100 + d,
{
    digits_are_plain(month);
    digits_are_plain(day);
    digits_are_plain(year);
    let front = month + seq!['/'] + day;
    let w = front + seq!['/'] + year;
    assert(seams::no_white(w)) by {
        assert forall|i: int| 0 <= i < w.len() implies !text::is_white(#[trigger] w[i]) by {
            let a = month.len() as int;
            let b = a + 1 + day.len();
            if i < a {
                assert(w[i] == month[i]);
            } else if a < i < b {
                assert(w[i] == day[i - a - 1]);
            } else if b < i {
                assert(w[i] == year[i - b - 1]);
            }
        }
    }
    seams::first_word_of(w, rest);
    assert(fields::first_word(w + rest) == w);
    seams::split_without_separator(month, '/');
    seams::split_at_separator(month, day, '/');
    seams::split_at_separator(front, year, '/');
    let parts = text::split(w, '/');
    assert(parts =~= seq![month, day, year]);
    unsigned_integer(month);
    unsigned_integer(day);
    unsigned_integer(year);
}

proof fn unsigned_integer(s: Seq<char>)
    requires
        number::natural(s) is Some,
    ensures
        number::integer(s) == number::natural(s),
{
    assert(number::is_digit(s[0]));
}

/// A date written in decimal notation is read back.
pub proof fn decimal_date_reads_back(m: int, d: int, y: int, rest: Seq<char>)
    requires
        in_range(m, d, y),
        rest.len() > 0 ==> text::is_white(rest[0]),
    ensures
        fields::date_value(
            number::decimal(m as nat) + seq!['/'] + number::decimal(d as nat) + seq!['/']
                + number::decimal(y as nat) + rest,
        ) == y * 10000 + m * 100 + d,
{
    number::decimal_reads_back(m as nat);
    number::decimal_reads_back(d as nat);
    number::decimal_reads_back(y as nat);
    date_reads_back(
        number::decimal(m as nat),
        number::decimal(d as nat),
        number::decimal(y as nat),
        rest,
        m,
        d,
        y,
    );
}

/// The date of a text is read from its first word, up to which only white space stands and behind
/// which white space begins. Three whole numbers with slashes between them, in the order month,
/// day, year and all in range, give the date as `YYYYMMDD`. Any other word gives 0.
pub proof fn date_is_read_from_the_first_word(
    front: Seq<char>,
    parts: Seq<Seq<char>>,
    rest: Seq<char>,
)
    requires
        seams::all_white(front),
        parts.len() > 0,
        forall|i: int|
            0 <= i < parts.len() ==> seams::no_white(#[trigger] parts[i]) && seams::lacks(
                parts[i],
                '/',
            ),
        text::join(parts, '/').len() > 0,
        rest.len() > 0 ==> text::is_white(rest[0]),
    ensures
        ({
            let date = fields::date_value(front + text::join(parts, '/') + rest);
            if parts.len() == 3 {
                match (
                    number::integer(parts[0]),
                    number::integer(parts[1]),
                    number::integer(parts[2]),
                ) {
                    (Some(m), Some(d), Some(y)) => if in_range(m, d, y) {
                        date == y * 10000 + m * 100 + d
                    } else {
                        date == 0
                    },
                    _ => date == 0,
                }
            } else {
                date == 0
            }
        }),
{
    let w = text::join(parts, '/');
    let s = front + w + rest;
    assert(s =~= front + (w + rest));
    seams::words_behind_white_space(front, w + rest);
    join_has_no_white(parts);
    seams::first_word_of(w, rest);
    assert(fields::first_word(s) == w);
    seams::joined_pieces_read_back(parts, '/');
}

proof fn join_has_no_white(parts: Seq<Seq<char>>)
    requires
        forall|i: int| 0 <= i < parts.len() ==> seams::no_white(#[trigger] parts[i]),
    ensures
        seams::no_white(text::join(parts, '/')),
    decreases parts.len(),
{
    if parts.len() == 1 {
        assert(seams::no_white(parts[0]));
    } else if parts.len() > 1 {
        let shorter = parts.drop_last();
        assert forall|i: int| 0 <= i < shorter.len() implies seams::no_white(
            #[trigger] shorter[i],
        ) by {
            assert(shorter[i] == parts[i]);
        }
        join_has_no_white(shorter);
        assert(seams::no_white(parts[parts.len() - 1]));
        let head = text::join(shorter, '/');
        let w = text::join(parts, '/');
        assert forall|i: int| 0 <= i < w.len() implies !text::is_white(#[trigger] w[i]) by {
            if i < head.len() {
                assert(w[i] == head[i]);
            } else if i > head.len() {
                assert(w[i] == parts.last()[i - head.len() - 1]);
            }
        }
    }
}

/// A text of white space alone has no date.
pub proof fn no_date_without_word(s: Seq<char>)
    requires
        seams::all_white(s),
    ensures
        fields::date_value(s) == 0,
{
    let none = Seq::<char>::empty();
    seams::words_behind_white_space(s, none);
    assert(s + none =~= s);
    assert(text::words(none) =~= Seq::<Seq<char>>::empty());
    assert(fields::first_word(s) =~= none);
    seams::split_without_separator(none, '/');
}

} // verus!

//! Laws of reading the report list and the transactions of a report.

use vstd::prelude::*;
use crate::fields;
use crate::html;
use crate::laws::html as scans;
use crate::laws::html::Written;
use crate::laws::text as seams;
use crate::report;
use crate::report::ReportRefView;
use crate::text;
use crate::trade::{Chamber, Owner, TxnType};

verus! {

/// Picking goes list by list.
pub proof fn filter_map_of_concat<A, B>(a: Seq<A>, b: Seq<A>, f: spec_fn(A) -> Option<B>)
    ensures
        (a + b).filter_map(f) == a.filter_map(f) + b.filter_map(f),
    decreases b.len(),
{
    if b.len() == 0 {
        assert(a + b =~= a);
        assert(b.filter_map(f) =~= Seq::<B>::empty());
        assert(a.filter_map(f) + Seq::<B>::empty() =~= a.filter_map(f));
    } else {
        let s = a + b;
        let n = s.len() - 1;
        filter_map_of_concat(a, b.drop_last(), f);
        s.lemma_filter_map_take_succ(f, n);
        b.lemma_filter_map_take_succ(f, b.len() - 1);
        assert(s.take(n + 1) =~= s);
        assert(s.take(n) =~= a + b.drop_last());
        assert(b.take(b.len() as int) =~= b);
        assert(b.take(b.len() - 1) =~= b.drop_last());
        assert((a + b).filter_map(f) =~= a.filter_map(f) + b.filter_map(f));
    }
}

/// Picking from a single item gives what is made of it, if anything.
pub proof fn filter_map_of_one<A, B>(a: A, f: spec_fn(A) -> Option<B>)
    ensures
        seq![a].filter_map(f) == match f(a) {
            Some(b) => seq![b],
            None => Seq::<B>::empty(),
        },
{
    let one = seq![a];
    one.lemma_filter_map_take_succ(f, 0);
    assert(one.take(1) =~= one);
    assert(one.take(0) =~= Seq::<A>::empty());
    assert(one.take(0).filter_map(f) =~= Seq::<B>::empty());
    assert(one.filter_map(f) =~= match f(a) {
        Some(b) => seq![b],
        None => Seq::<B>::empty(),
    });
}

/// Two lists whose items are picked alike give the same picks.
proof fn filter_map_alike<A, B, C>(
    a: Seq<A>,
    b: Seq<B>,
    f: spec_fn(A) -> Option<C>,
    g: spec_fn(B) -> Option<C>,
)
    requires
        a.len() == b.len(),
        forall|i: int| 0 <= i < a.len() ==> f(#[trigger] a[i]) == g(b[i]),
    ensures
        a.filter_map(f) == b.filter_map(g),
    decreases a.len(),
{
    if a.len() == 0 {
        assert(a.filter_map(f) =~= b.filter_map(g));
    } else {
        let n = a.len() - 1;
        assert forall|i: int| 0 <= i < a.drop_last().len() implies f(#[trigger] a.drop_last()[i])
            == g(b.drop_last()[i]) by {
            assert(a.drop_last()[i] == a[i]);
        }
        filter_map_alike(a.drop_last(), b.drop_last(), f, g);
        a.lemma_filter_map_take_succ(f, n);
        b.lemma_filter_map_take_succ(g, n);
        assert(f(a[n]) == g(b[n]));
        assert(a.take(n + 1) =~= a);
        assert(b.take(n + 1) =~= b);
        assert(a.take(n) =~= a.drop_last());
        assert(b.take(n) =~= b.drop_last());
    }
}

// ---------------------------------------------------------------------------
// The report list
// ---------------------------------------------------------------------------

/// The URL of every listed report is absolute.
pub proof fn report_urls_are_absolute(data: Seq<Seq<Seq<char>>>)
    ensures
        forall|i: int|
            0 <= i < report::reports_of(data).len() ==> text::occurs_at(
                (#[trigger] report::reports_of(data)[i]).url,
                "http"@,
                0,
            ),
{
    reveal_strlit("http");
    reveal_strlit("https://efdsearch.senate.gov");
    let f = |cells: Seq<Seq<char>>| report::report_of(cells);
    let all = report::reports_of(data);
    assert forall|i: int| 0 <= i < all.len() implies text::occurs_at(
        (#[trigger] all[i]).url,
        "http"@,
        0,
    ) by {
        assert(all.contains(all[i]));
        data.lemma_filter_map_contains(f, all[i]);
        let cells = choose|cells: Seq<Seq<char>>|
            #[trigger] data.contains(cells) && f(cells) == Some(all[i]);
        let href = html::href_value(cells[3]).unwrap();
        if !text::occurs_at(href, "http"@, 0) {
            assert((report::BASE@ + href).subrange(0, 4) =~= "http"@);
        }
    }
}

/// The report list is read row by row: the entries of two lists, one behind the other, are the
/// entries of the first and then those of the second.
pub proof fn report_lists_add_up(a: Seq<Seq<Seq<char>>>, b: Seq<Seq<Seq<char>>>)
    ensures
        report::reports_of(a + b) == report::reports_of(a) + report::reports_of(b),
{
    filter_map_of_concat(a, b, |cells: Seq<Seq<char>>| report::report_of(cells));
}

/// A row of the report list with a link in its fourth cell is read back.
pub proof fn listed_report_reads_back(
    first: Seq<char>,
    last: Seq<char>,
    state: Seq<char>,
    pre: Seq<char>,
    link: Seq<char>,
    post: Seq<char>,
    date: Seq<char>,
    more: Seq<Seq<char>>,
)
    requires
        !text::contains(pre, "href=\""@),
        seams::lacks(link, '"'),
    ensures
        report::report_of(
            seq![first, last, state, pre + "href=\""@ + link + seq!['"'] + post, date] + more,
        ) == Some(
            ReportRefView {
                first: text::trim(first),
                last: text::trim(last),
                state: text::trim(state),
                url: report::absolute_url(link),
                filing_date: fields::date_value(date),
            },
        ),
{
    scans::href_reads_back(pre, link, post);
}

/// Whether a link begins with `http`.
pub open spec fn is_full_link(link: Seq<char>) -> bool {
    link.len() >= 4 && link[0] == 'h' && link[1] == 't' && link[2] == 't' && link[3] == 'p'
}

/// The URL of a listed report is its link where that begins with `http`. Else it is the
/// disclosure site followed by the whole link: it ends with the link, and is longer by the length
/// of the site's address.
pub proof fn listed_urls_hold_the_whole_link(cells: Seq<Seq<char>>, link: Seq<char>)
    requires
        cells.len() >= 5,
        html::href_value(cells[3]) == Some(link),
    ensures
        report::report_of(cells) matches Some(r) && {
            &&& is_full_link(link) ==> r.url == link
            &&& !is_full_link(link) ==> {
                &&& r.url.len() == 28 + link.len()
                &&& r.url.take(28) == "https://efdsearch.senate.gov"@
                &&& r.url.skip(28) == link
            }
        },
{
    reveal_strlit("http");
    reveal_strlit("https://efdsearch.senate.gov");
    seams::pattern_stands_character_by_character(link, "http"@, 0);
    let http = "http"@;
    assert(http[0] == 'h' && http[1] == 't' && http[2] == 't' && http[3] == 'p');
    if is_full_link(link) {
        assert forall|k: int| 0 <= k < http.len() implies link[k] == #[trigger] http[k] by {}
    }
    let url = report::absolute_url(link);
    if !is_full_link(link) {
        assert(url.take(28) =~= "https://efdsearch.senate.gov"@);
        assert(url.skip(28) =~= link);
    }
}

/// A row of the report list stands for an entry just when it has five cells or more and a link in
/// the fourth.
pub proof fn listed_rows_have_five_cells_and_a_link(cells: Seq<Seq<char>>)
    ensures
        report::report_of(cells) is Some <==> cells.len() >= 5 && html::href_value(cells[3]) is Some,
{
}

/// An entry carries the names and the state of its row, without the white space around them, and
/// the date of its row.
pub proof fn listed_names_are_trimmed(
    cells: Seq<Seq<char>>,
    before: Seq<Seq<char>>,
    names: Seq<Seq<char>>,
    behind: Seq<Seq<char>>,
)
    requires
        cells.len() >= 5,
        html::href_value(cells[3]) is Some,
        before.len() == names.len() == behind.len() == 3,
        forall|i: int|
            0 <= i < 3 ==> (#[trigger] cells[i]) == before[i] + names[i] + behind[i]
                && seams::all_white(before[i]) && seams::all_white(behind[i]) && seams::bare(
                names[i],
            ),
    ensures
        report::report_of(cells) matches Some(r) && r.first == names[0] && r.last == names[1]
            && r.state == names[2] && r.filing_date == fields::date_value(cells[4]),
{
    assert(cells[0] == before[0] + names[0] + behind[0]);
    assert(cells[1] == before[1] + names[1] + behind[1]);
    assert(cells[2] == before[2] + names[2] + behind[2]);
    seams::trimming_takes_off_white_space(before[0], names[0], behind[0]);
    seams::trimming_takes_off_white_space(before[1], names[1], behind[1]);
    seams::trimming_takes_off_white_space(before[2], names[2], behind[2]);
}

/// A list of one row has the entry that the row stands for, if any.
pub proof fn single_row_lists(cells: Seq<Seq<char>>)
    ensures
        report::reports_of(seq![cells]) == match report::report_of(cells) {
            Some(r) => seq![r],
            None => Seq::empty(),
        },
{
    filter_map_of_one(cells, |cells: Seq<Seq<char>>| report::report_of(cells));
}

// ---------------------------------------------------------------------------
// The transactions of a report
// ---------------------------------------------------------------------------

/// Every trade of a report carries the report's filer, state, date and identifier, is a Senate
/// trade with a date, has no placeholder for a ticker, and leaves open what a report does not
/// tell: party, biographical identifier, district and date of notification.
pub proof fn trades_belong_to_their_report(page: Seq<char>, r: ReportRefView)
    ensures
        forall|i: int|
            0 <= i < report::trades_of(page, r).len() ==> {
                let t = #[trigger] report::trades_of(page, r)[i];
                &&& t.filing_date == r.filing_date
                &&& t.doc_id == fields::last_segment(r.url)
                &&& t.chamber == Chamber::Senate
                &&& t.member_name == report::full_name(r)
                &&& t.state == r.state
                &&& t.party.len() == 0
                &&& t.bioguide_id.len() == 0
                &&& t.district.len() == 0
                &&& t.notification_date == 0
                &&& t.source == "senate_efd"@
                &&& t.txn_date > 0
                &&& t.ticker != "--"@
                &&& 0 <= t.amount_low
                &&& 0 <= t.amount_high
            },
{
    reveal_strlit("--");
    let f = |row: Seq<char>| report::trade_of_row(row, r);
    let rows = html::row_bodies(page, 0);
    let all = report::trades_of(page, r);
    assert forall|i: int| 0 <= i < all.len() implies ({
        let t = #[trigger] all[i];
        &&& t.filing_date == r.filing_date
        &&& t.doc_id == fields::last_segment(r.url)
        &&& t.chamber == Chamber::Senate
        &&& t.member_name == report::full_name(r)
        &&& t.state == r.state
        &&& t.party.len() == 0
        &&& t.bioguide_id.len() == 0
        &&& t.district.len() == 0
        &&& t.notification_date == 0
        &&& t.source == "senate_efd"@
        &&& t.txn_date > 0
        &&& t.ticker != "--"@
        &&& 0 <= t.amount_low
        &&& 0 <= t.amount_high
    }) by {
        assert(all.contains(all[i]));
        rows.lemma_filter_map_contains(f, all[i]);
        let row = choose|row: Seq<char>| #[trigger] rows.contains(row) && f(row) == Some(all[i]);
        let cells = html::cell_texts(row, 0);
        crate::laws::fields::amounts_are_not_negative(cells[8]);
        crate::laws::fields::dates_are_in_range(cells[7]);
    }
}

/// A page gives at most one trade per table row.
pub proof fn no_more_trades_than_rows(page: Seq<char>, r: ReportRefView)
    ensures
        report::trades_of(page, r).len() <= html::row_bodies(page, 0).len(),
{
    picks_are_fewer(
        html::row_bodies(page, 0),
        |row: Seq<char>| report::trade_of_row(row, r),
    );
}

proof fn picks_are_fewer<A, B>(a: Seq<A>, f: spec_fn(A) -> Option<B>)
    ensures
        a.filter_map(f).len() <= a.len(),
    decreases a.len(),
{
    if a.len() > 0 {
        let n = a.len() - 1;
        picks_are_fewer(a.drop_last(), f);
        a.lemma_filter_map_take_succ(f, n);
        assert(a.take(n + 1) =~= a);
        assert(a.take(n) =~= a.drop_last());
    }
}

/// The transactions of a page are read back, row by row: what is made of a row depends only on the
/// texts of its cells, in order.
pub proof fn transactions_read_back(
    rows: Seq<Written>,
    tail: Seq<char>,
    cells: Seq<Seq<Written>>,
    ends: Seq<Seq<char>>,
    r: ReportRefView,
)
    requires
        forall|i: int| 0 <= i < rows.len() ==> (#[trigger] rows[i]).is_row(),
        scans::no_row_stands(tail),
        rows.len() == cells.len() == ends.len(),
        forall|i: int|
            0 <= i < rows.len() ==> (#[trigger] rows[i]).body == scans::document(cells[i])
                + ends[i] && scans::no_cell_stands(ends[i]),
        forall|i: int, k: int|
            0 <= i < cells.len() && 0 <= k < cells[i].len() ==> (#[trigger] cells[i][k]).is_cell(),
    ensures
        report::trades_of(scans::document(rows) + tail, r) == cells.filter_map(
            |row: Seq<Written>|
                report::trade_of_cells(
                    row.map_values(|w: Written| html::stripped(w.body)),
                    r,
                ),
        ),
{
    let bodies = rows.map_values(|w: Written| w.body);
    let f = |row: Seq<char>| report::trade_of_row(row, r);
    let g = |row: Seq<Written>|
        report::trade_of_cells(row.map_values(|w: Written| html::stripped(w.body)), r);
    scans::rows_read_back(rows, tail);
    assert forall|i: int| 0 <= i < bodies.len() implies f(#[trigger] bodies[i]) == g(cells[i]) by {
        assert(rows[i].body == scans::document(cells[i]) + ends[i]);
        assert forall|k: int| 0 <= k < cells[i].len() implies (
        #[trigger] cells[i][k]).is_cell() by {}
        scans::cells_read_back(cells[i], ends[i]);
    }
    filter_map_alike(bodies, cells, f, g);
}

/// The filer's name on every trade is the first name, a space and the last name, but for white
/// space at either end.
pub proof fn trades_name_their_filer(page: Seq<char>, r: ReportRefView, i: int)
    requires
        0 <= i < report::trades_of(page, r).len(),
    ensures
        ({
            let name = report::trades_of(page, r)[i].member_name;
            let whole = r.first + seq![' '] + r.last;
            &&& seams::bare(name)
            &&& exists|a: Seq<char>, b: Seq<char>|
                seams::all_white(a) && seams::all_white(b) && whole == #[trigger] (a + name + b)
            &&& seams::bare(r.first) && seams::bare(r.last) ==> if r.first.len() == 0 {
                name == r.last
            } else if r.last.len() == 0 {
                name == r.first
            } else {
                name == whole
            }
        }),
{
    reveal_strlit(" ");
    trades_belong_to_their_report(page, r);
    let name = report::trades_of(page, r)[i].member_name;
    let whole = r.first + seq![' '] + r.last;
    let none = Seq::<char>::empty();
    assert(name == report::full_name(r));
    assert(whole =~= r.first + " "@ + r.last);
    let (a, b) = seams::trimmed_off_parts(whole);
    assert(whole == a + name + b);
    if seams::bare(r.first) && seams::bare(r.last) {
        if r.first.len() == 0 {
            assert(whole =~= seq![' '] + r.last + none);
            seams::trimming_takes_off_white_space(seq![' '], r.last, none);
        } else if r.last.len() == 0 {
            assert(whole =~= none + r.first + seq![' ']);
            seams::trimming_takes_off_white_space(none, r.first, seq![' ']);
        } else {
            assert(whole[0] == r.first[0]);
            assert(whole[whole.len() - 1] == r.last[r.last.len() - 1]);
            assert(whole =~= none + whole + none);
            seams::trimming_takes_off_white_space(none, whole, none);
        }
    }
}

/// Every trade carries the identifier at the end of its report's URL.
pub proof fn trades_carry_the_identifier(
    page: Seq<char>,
    r: ReportRefView,
    path: Seq<char>,
    id: Seq<char>,
    slashes: Seq<char>,
    i: int,
)
    requires
        0 <= i < report::trades_of(page, r).len(),
        r.url == path + seq!['/'] + id + slashes,
        id.len() > 0,
        seams::lacks(id, '/'),
        forall|k: int| 0 <= k < slashes.len() ==> #[trigger] slashes[k] == '/',
    ensures
        report::trades_of(page, r)[i].doc_id == id,
{
    trades_belong_to_their_report(page, r);
    crate::laws::fields::identifier_reads_back(path, id, slashes);
}

/// A row stands for a trade just when it has nine cells or more, its sixth cell names a type and
/// its eighth cell a date.
pub proof fn rows_with_type_and_date_are_trades(cells: Seq<Seq<char>>, r: ReportRefView)
    ensures
        report::trade_of_cells(cells, r) is Some <==> {
            &&& cells.len() >= 9
            &&& !crate::laws::fields::names_no_type(cells[5]) || html::cleaned(cells[5]) == seq!['P']
                || html::cleaned(cells[5]) == seq!['S'] || html::cleaned(cells[5]) == seq!['E']
            &&& fields::date_value(cells[7]) != 0
        },
{
    if cells.len() >= 9 {
        let label = cells[5];
        crate::laws::fields::types_by_their_words(label);
        if crate::laws::fields::names_no_type(label) {
            crate::laws::fields::unnamed_types_are_single_letters(label);
        }
    }
}

/// The type of a trade is the one whose word its sixth cell mentions, in whatever case; where it
/// mentions none, the one whose letter it is.
pub proof fn trades_have_the_type_of_their_row(cells: Seq<Seq<char>>, r: ReportRefView)
    requires
        report::trade_of_cells(cells, r) is Some,
    ensures
        ({
            let t = report::trade_of_cells(cells, r)->0;
            let label = cells[5];
            let partial = seams::mentions(label, "partial"@);
            let purchase = seams::mentions(label, "purchase"@);
            let exchange = seams::mentions(label, "exchange"@);
            let sale = seams::mentions(label, "sale"@) || seams::mentions(label, "sold"@);
            &&& t.txn_type == TxnType::PartialSale <==> partial
            &&& t.txn_type == TxnType::Purchase <==> !partial && (purchase || (!exchange && !sale
                && html::cleaned(label) == seq!['P']))
            &&& t.txn_type == TxnType::Exchange <==> !partial && !purchase && (exchange || (!sale
                && html::cleaned(label) == seq!['E']))
            &&& t.txn_type == TxnType::Sale <==> !partial && !purchase && !exchange && (sale
                || html::cleaned(label) == seq!['S'])
        }),
{
    let label = cells[5];
    crate::laws::fields::types_by_their_words(label);
    if crate::laws::fields::names_no_type(label) {
        crate::laws::fields::unnamed_types_are_single_letters(label);
        assert(seq!['P'][0] != seq!['S'][0] && seq!['P'][0] != seq!['E'][0] && seq!['S'][0]
            != seq!['E'][0]);
    }
}

/// The owner of a trade is the one that its second cell mentions, in whatever case.
pub proof fn trades_have_the_owner_of_their_row(cells: Seq<Seq<char>>, r: ReportRefView)
    requires
        report::trade_of_cells(cells, r) is Some,
    ensures
        ({
            let t = report::trade_of_cells(cells, r)->0;
            let spouse = seams::mentions(cells[1], "spouse"@);
            let child = seams::mentions(cells[1], "child"@) || seams::mentions(
                cells[1],
                "dependent"@,
            );
            let joint = seams::mentions(cells[1], "joint"@);
            &&& t.owner == Owner::Spouse <==> spouse
            &&& t.owner == Owner::Child <==> !spouse && child
            &&& t.owner == Owner::Joint <==> !spouse && !child && joint
            &&& t.owner == Owner::SelfFiler <==> !spouse && !child && !joint
        }),
{
    crate::laws::fields::owners_by_their_words(cells[1]);
}

/// The asset of a trade is named by its fourth cell, cleaned, and classed by its fifth cell, else
/// by its name.
pub proof fn trades_have_the_asset_of_their_row(cells: Seq<Seq<char>>, r: ReportRefView)
    requires
        report::trade_of_cells(cells, r) is Some,
    ensures
        ({
            let t = report::trade_of_cells(cells, r)->0;
            let name = html::cleaned(cells[3]);
            let by_type = seams::mentions(cells[4], "stock"@) || seams::mentions(
                cells[4],
                "option"@,
            );
            &&& t.asset_description == name
            &&& seams::mentions(cells[4], "stock"@) ==> t.asset_type == "stock"@
            &&& by_type && !seams::mentions(cells[4], "stock"@) ==> t.asset_type == "option"@
            &&& !by_type && seams::mentions(name, "[st]"@) ==> t.asset_type == "stock"@
            &&& !by_type && !seams::mentions(name, "[st]"@) && seams::mentions(name, "option"@)
                ==> t.asset_type == "option"@
            &&& !by_type && !seams::mentions(name, "[st]"@) && !seams::mentions(name, "option"@)
                ==> t.asset_type == "other"@
        }),
{
    crate::laws::fields::assets_by_their_words(cells[4], html::cleaned(cells[3]));
}

/// The ticker of a trade is its third cell, cleaned, where that is not two dashes; else there is
/// none.
pub proof fn trades_have_the_ticker_of_their_row(cells: Seq<Seq<char>>, r: ReportRefView)
    requires
        report::trade_of_cells(cells, r) is Some,
    ensures
        ({
            let t = report::trade_of_cells(cells, r)->0;
            let ticker = html::cleaned(cells[2]);
            if ticker == seq!['-', '-'] {
                t.ticker.len() == 0
            } else {
                t.ticker == ticker
            }
        }),
{
    reveal_strlit("--");
    assert("--"@ =~= seq!['-', '-']);
}

/// The date of a trade is that of its eighth cell, and its amounts are those of its ninth.
pub proof fn trades_have_the_date_and_amounts_of_their_row(
    cells: Seq<Seq<char>>,
    r: ReportRefView,
)
    requires
        report::trade_of_cells(cells, r) is Some,
    ensures
        ({
            let t = report::trade_of_cells(cells, r)->0;
            &&& t.txn_date == fields::date_value(cells[7])
            &&& (t.amount_low, t.amount_high) == fields::amount_band(cells[8])
        }),
{
}

/// Number, comment and further cells of a row make no difference to its trade.
pub proof fn other_cells_make_no_difference(
    a: Seq<Seq<char>>,
    b: Seq<Seq<char>>,
    r: ReportRefView,
)
    requires
        a.len() >= 9,
        b.len() >= 9,
        forall|i: int| 1 <= i <= 8 && i != 6 ==> #[trigger] a[i] == b[i],
    ensures
        report::trade_of_cells(a, r) == report::trade_of_cells(b, r),
{
    assert(a[1] == b[1] && a[2] == b[2] && a[3] == b[3] && a[4] == b[4] && a[5] == b[5] && a[7]
        == b[7] && a[8] == b[8]);
}

} // verus!

//! The list of reports, and the transactions of one report.

use vstd::prelude::*;
use crate::fields;
use crate::fields::{
    classify_asset, normalize_type, parse_amount, parse_efd_date, parse_owner, report_id,
};
use crate::html;
use crate::html::{clean, clean_chars, extract_href, row_cells, table_rows};
use crate::text;
use crate::text::{begins, chars_of, same, text_of, trimmed};
use crate::trade;
use crate::trade::{Chamber, Trade, TradeView, TxnType};

verus! {

/// The disclosure site.
pub const BASE: &'static str = "https://efdsearch.senate.gov";

// ---------------------------------------------------------------------------
// The list of reports
// ---------------------------------------------------------------------------

/// One entry of the report list: the filer's name and state, a link to the report, its date.
#[derive(Debug, PartialEq)]
pub struct ReportRef {
    pub first: String,
    pub last: String,
    pub state: String,
    /// Absolute URL of the report's page.
    pub url: String,
    /// When the report was filed, as `YYYYMMDD`; 0 where the list gives no date.
    pub filing_date: i32,
}

/// What a [`ReportRef`] holds.
pub struct ReportRefView {
    pub first: Seq<char>,
    pub last: Seq<char>,
    pub state: Seq<char>,
    pub url: Seq<char>,
    pub filing_date: int,
}

impl View for ReportRef {
    type V = ReportRefView;

    open spec fn view(&self) -> ReportRefView {
        ReportRefView {
            first: self.first@,
            last: self.last@,
            state: self.state@,
            url: self.url@,
            filing_date: self.filing_date as int,
        }
    }
}

/// What a list of report entries holds.
pub open spec fn report_views(rows: Seq<ReportRef>) -> Seq<ReportRefView> {
    rows.map_values(|r: ReportRef| r@)
}

/// One page of the report list.
pub struct ReportPage {
    pub rows: Vec<ReportRef>,
    /// How many records the page held, with or without a readable report entry.
    pub records: usize,
    /// How many reports the whole list holds.
    pub records_filtered: usize,
}

/// What a [`ReportPage`] holds.
pub struct ReportPageView {
    pub rows: Seq<ReportRefView>,
    pub records: nat,
    pub records_filtered: nat,
}

impl View for ReportPage {
    type V = ReportPageView;

    open spec fn view(&self) -> ReportPageView {
        ReportPageView {
            rows: report_views(self.rows@),
            records: self.records as nat,
            records_filtered: self.records_filtered as nat,
        }
    }
}

impl ReportPage {
    /// A page has no more report entries than records.
    pub open spec fn well_formed(&self) -> bool {
        self.rows@.len() <= self.records
    }
}

/// The answer of the report search as it is encoded: rows of cells, and how many rows the whole
/// list holds.
pub struct RawDataTables {
    pub data: Vec<Vec<String>>,
    pub records_filtered: usize,
}

impl RawDataTables {
    /// The rows of cells.
    pub open spec fn cells(&self) -> Seq<Seq<Seq<char>>> {
        self.data@.map_values(|row: Vec<String>| text::texts(row@))
    }
}

/// `href` as an absolute URL: as it is where it begins with `http`, else on the disclosure site.
pub open spec fn absolute_url(href: Seq<char>) -> Seq<char> {
    if text::occurs_at(href, "http"@, 0) {
        href
    } else {
        BASE@ + href
    }
}

/// The report entry that a row of cells stands for: first name, last name, state or office, link,
/// date. A row with fewer than five cells or without a link stands for none.
pub open spec fn report_of(cells: Seq<Seq<char>>) -> Option<ReportRefView> {
    if cells.len() < 5 {
        None
    } else {
        match html::href_value(cells[3]) {
            None => None,
            Some(href) => Some(
                ReportRefView {
                    first: text::trim(cells[0]),
                    last: text::trim(cells[1]),
                    state: text::trim(cells[2]),
                    url: absolute_url(href),
                    filing_date: fields::date_value(cells[4]),
                },
            ),
        }
    }
}

/// The report entries of a list of rows, in order.
pub open spec fn reports_of(data: Seq<Seq<Seq<char>>>) -> Seq<ReportRefView> {
    data.filter_map(|cells: Seq<Seq<char>>| report_of(cells))
}

/// The report entry that a row of cells stands for.
fn report_from(cells: &Vec<String>) -> (r: Option<ReportRef>)
    ensures
        match r {
            Some(report) => report_of(text::texts(cells@)) == Some(report@),
            None => report_of(text::texts(cells@)) is None,
        },
{
    if cells.len() < 5 {
        return None;
    }
    match extract_href(cells[3].as_str()) {
        None => None,
        Some(href) => {
            let url = if begins(chars_of(href.as_str()).as_slice(), "http") {
                href
            } else {
                let mut url = chars_of(BASE);
                let mut path = chars_of(href.as_str());
                url.append(&mut path);
                text_of(url.as_slice())
            };
            Some(
                ReportRef {
                    first: trimmed(chars_of(cells[0].as_str()).as_slice()),
                    last: trimmed(chars_of(cells[1].as_str()).as_slice()),
                    state: trimmed(chars_of(cells[2].as_str()).as_slice()),
                    url,
                    filing_date: parse_efd_date(cells[4].as_str()),
                },
            )
        },
    }
}

/// Reads a decoded answer of the report search; an answer that could not be decoded stays an
/// error.
///
/// Each row of `data` is `[first, last, state_or_office, report_link_html, date]`. The link holds
/// `<a href="/search/view/ptr/<id>/">…</a>`.
pub fn parse_report_list_json<E>(decoded: Result<RawDataTables, E>) -> (r: Result<ReportPage, E>)
    ensures
        match decoded {
            Ok(raw) => r matches Ok(page) && page@ == (ReportPageView {
                rows: reports_of(raw.cells()),
                records: raw.cells().len(),
                records_filtered: raw.records_filtered as nat,
            }) && page.well_formed(),
            Err(e) => r == Err::<ReportPage, E>(e),
        },
{
    let raw = match decoded {
        Ok(raw) => raw,
        Err(e) => return Err(e),
    };
    let ghost all = raw.cells();
    let ghost f = |cells: Seq<Seq<char>>| report_of(cells);
    let mut rows: Vec<ReportRef> = Vec::new();
    let mut i: usize = 0;
    assert(all.take(0) =~= Seq::<Seq<Seq<char>>>::empty());
    while i < raw.data.len()
        invariant
            i <= raw.data@.len(),
            all == raw.cells(),
            f == (|cells: Seq<Seq<char>>| report_of(cells)),
            report_views(rows@) == all.take(i as int).filter_map(f),
            rows@.len() <= i,
        decreases raw.data@.len() - i,
    {
        let ghost before = rows@;
        proof {
            all.lemma_filter_map_take_succ(f, i as int);
        }
        match report_from(&raw.data[i]) {
            Some(report) => {
                rows.push(report);
                assert(report_views(before.push(report)) =~= report_views(before).push(report@));
            },
            None => {},
        }
        i = i + 1;
    }
    assert(all.take(i as int) =~= all);
    Ok(ReportPage { rows, records: raw.data.len(), records_filtered: raw.records_filtered })
}

// ---------------------------------------------------------------------------
// The transactions of a report
// ---------------------------------------------------------------------------

/// The filer's full name.
pub open spec fn full_name(report: ReportRefView) -> Seq<char> {
    text::trim(report.first + " "@ + report.last)
}

/// The ticker that a ticker cell names; two dashes stand for none.
pub open spec fn ticker_of(cell: Seq<char>) -> Seq<char> {
    if html::cleaned(cell) == "--"@ {
        Seq::empty()
    } else {
        html::cleaned(cell)
    }
}

/// The trade that a row of cells stands for: number, owner, ticker, asset name, asset type, type,
/// comment, date, amount. A row with fewer than nine cells, without a known type or without a
/// date stands for none.
pub open spec fn trade_of_cells(cells: Seq<Seq<char>>, report: ReportRefView) -> Option<TradeView> {
    if cells.len() < 9 {
        None
    } else {
        match trade::type_of_code(fields::code_of_label(cells[5])) {
            None => None,
            Some(txn_type) => if fields::date_value(cells[7]) == 0 {
                None
            } else {
                Some(
                    TradeView {
                        filing_date: report.filing_date,
                        doc_id: fields::last_segment(report.url),
                        chamber: Chamber::Senate,
                        member_name: full_name(report),
                        party: Seq::empty(),
                        bioguide_id: Seq::empty(),
                        state: report.state,
                        district: Seq::empty(),
                        txn_date: fields::date_value(cells[7]),
                        notification_date: 0,
                        ticker: ticker_of(cells[2]),
                        asset_description: html::cleaned(cells[3]),
                        asset_type: fields::asset_class(cells[4], html::cleaned(cells[3])),
                        txn_type,
                        amount_low: fields::amount_band(cells[8]).0,
                        amount_high: fields::amount_band(cells[8]).1,
                        owner: fields::owner_of(cells[1]),
                        source: "senate_efd"@,
                    },
                )
            },
        }
    }
}

/// The trade that the body of a table row stands for.
pub open spec fn trade_of_row(row: Seq<char>, report: ReportRefView) -> Option<TradeView> {
    trade_of_cells(html::cell_texts(row, 0), report)
}

/// The trades of a report's page, in order.
pub open spec fn trades_of(page: Seq<char>, report: ReportRefView) -> Seq<TradeView> {
    html::row_bodies(page, 0).filter_map(|row: Seq<char>| trade_of_row(row, report))
}

/// The trade that a row of cells stands for.
fn trade_from(cells: &Vec<String>, report: &ReportRef, member_name: &String) -> (r: Option<Trade>)
    requires
        member_name@ == full_name(report@),
    ensures
        match r {
            Some(t) => trade_of_cells(text::texts(cells@), report@) == Some(t@),
            None => trade_of_cells(text::texts(cells@), report@) is None,
        },
{
    if cells.len() < 9 {
        return None;
    }
    let txn_type = match TxnType::from_code(normalize_type(cells[5].as_str()).as_str()) {
        None => return None,
        Some(txn_type) => txn_type,
    };
    let txn_date = parse_efd_date(cells[7].as_str());
    if txn_date == 0 {
        // A header row, or another row without data.
        return None;
    }
    let ticker = clean_chars(chars_of(cells[2].as_str()).as_slice());
    let asset_description = clean(cells[3].as_str());
    let (amount_low, amount_high) = parse_amount(cells[8].as_str());
    let asset_type = classify_asset(cells[4].as_str(), asset_description.as_str());
    Some(
        Trade {
            filing_date: report.filing_date,
            doc_id: report_id(report.url.as_str()),
            chamber: Chamber::Senate,
            member_name: member_name.clone(),
            party: String::new(),
            bioguide_id: String::new(),
            state: report.state.clone(),
            district: String::new(),
            txn_date,
            notification_date: 0,
            ticker: if same(ticker.as_slice(), "--") {
                String::new()
            } else {
                text_of(ticker.as_slice())
            },
            asset_description,
            asset_type,
            txn_type,
            amount_low,
            amount_high,
            owner: parse_owner(cells[1].as_str()),
            source: "senate_efd".to_string(),
        },
    )
}

/// Reads the transaction table of an electronic report's page.
///
/// The table has one row per transaction with the cells, in order, `# | Owner | Ticker |
/// Asset Name | Asset Type | Type | Comment | Transaction Date | Amount`. Type is `Purchase`,
/// `Sale`, `Sale (Partial)` or `Exchange`; Owner names the filer, a spouse, a child or a joint
/// account.
pub fn parse_efd_ptr_html(html: &str, report: &ReportRef) -> (r: Vec<Trade>)
    ensures
        trade::trade_views(r@) == trades_of(html@, report@),
{
    let mut name = chars_of(report.first.as_str());
    let mut space = chars_of(" ");
    let mut last = chars_of(report.last.as_str());
    name.append(&mut space);
    name.append(&mut last);
    let member_name = trimmed(name.as_slice());
    let rows = table_rows(html);
    let ghost all = html::row_bodies(html@, 0);
    let ghost f = |row: Seq<char>| trade_of_row(row, report@);
    let mut out: Vec<Trade> = Vec::new();
    let mut i: usize = 0;
    assert(all.take(0) =~= Seq::<Seq<char>>::empty());
    while i < rows.len()
        invariant
            i <= rows@.len(),
            all == text::texts(rows@),
            member_name@ == full_name(report@),
            f == (|row: Seq<char>| trade_of_row(row, report@)),
            trade::trade_views(out@) == all.take(i as int).filter_map(f),
        decreases rows@.len() - i,
    {
        let ghost before = out@;
        proof {
            all.lemma_filter_map_take_succ(f, i as int);
        }
        let cells = row_cells(rows[i].as_str());
        match trade_from(&cells, report, &member_name) {
            Some(t) => {
                out.push(t);
                assert(trade::trade_views(before.push(t)) =~= trade::trade_views(before).push(t@));
            },
            None => {},
        }
        i = i + 1;
    }
    assert(all.take(i as int) =~= all);
    out
}

} // verus!

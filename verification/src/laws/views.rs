//! Laws of the views: what a value holds, each part under its own name and whole.

use vstd::prelude::*;
use crate::ingest;
use crate::ingest::{
    AgreementStep, AgreementStepView, FormPost, IngestStep, IngestStepView, PageAnswer,
    PageAnswerView, ReportOutcome, ReportOutcomeView, SenateYear,
};
use crate::report;
use crate::report::{RawDataTables, ReportPage, ReportRef};
use crate::text;
use crate::trade;
use crate::trade::Trade;

verus! {

/// A list of strings holds the text of each, in order.
pub proof fn texts_are_whole(list: Seq<String>)
    ensures
        text::texts(list).len() == list.len(),
        forall|i: int| 0 <= i < list.len() ==> #[trigger] text::texts(list)[i] == list[i]@,
{
}

/// A list of character vectors holds the text of each, in order.
pub proof fn vectors_are_whole(list: Seq<Vec<char>>)
    ensures
        text::views(list).len() == list.len(),
        forall|i: int| 0 <= i < list.len() ==> #[trigger] text::views(list)[i] == list[i]@,
{
}

/// A text or a token that may be missing holds its whole text where it is there.
pub proof fn optional_texts_are_whole(s: &str, token: String)
    ensures
        ingest::text_view(Some(s)) == Some(s@),
        ingest::text_view(None) is None,
        ingest::token_view(Some(token)) == Some(token@),
        ingest::token_view(None) is None,
{
}

/// A trade holds each of its fields.
pub proof fn trades_are_whole(t: Trade)
    ensures
        t@.filing_date == t.filing_date,
        t@.doc_id == t.doc_id@,
        t@.chamber == t.chamber,
        t@.member_name == t.member_name@,
        t@.party == t.party@,
        t@.bioguide_id == t.bioguide_id@,
        t@.state == t.state@,
        t@.district == t.district@,
        t@.txn_date == t.txn_date,
        t@.notification_date == t.notification_date,
        t@.ticker == t.ticker@,
        t@.asset_description == t.asset_description@,
        t@.asset_type == t.asset_type@,
        t@.txn_type == t.txn_type,
        t@.amount_low == t.amount_low,
        t@.amount_high == t.amount_high,
        t@.owner == t.owner,
        t@.source == t.source@,
{
}

/// A list of trades holds each of them, in order.
pub proof fn trade_lists_are_whole(list: Seq<Trade>)
    ensures
        trade::trade_views(list).len() == list.len(),
        forall|i: int| 0 <= i < list.len() ==> #[trigger] trade::trade_views(list)[i] == list[i]@,
{
}

/// A report entry holds each of its fields, and a list of entries each of them, in order.
pub proof fn report_entries_are_whole(r: ReportRef, list: Seq<ReportRef>)
    ensures
        r@.first == r.first@,
        r@.last == r.last@,
        r@.state == r.state@,
        r@.url == r.url@,
        r@.filing_date == r.filing_date,
        report::report_views(list).len() == list.len(),
        forall|i: int| 0 <= i < list.len() ==> #[trigger] report::report_views(list)[i] == list[i]@,
{
}

/// A page of the report list holds its entries and its two counts.
pub proof fn pages_are_whole(p: ReportPage)
    ensures
        p@.rows.len() == p.rows@.len(),
        forall|i: int| 0 <= i < p.rows@.len() ==> #[trigger] p@.rows[i] == p.rows@[i]@,
        p@.records == p.records,
        p@.records_filtered == p.records_filtered,
{
}

/// A decoded answer of the report search holds every cell of every row.
pub proof fn answers_are_whole(raw: RawDataTables)
    ensures
        raw.cells().len() == raw.data@.len(),
        forall|i: int|
            0 <= i < raw.data@.len() ==> (#[trigger] raw.cells()[i]).len() == raw.data@[i]@.len(),
        forall|i: int, k: int|
            0 <= i < raw.data@.len() && 0 <= k < raw.data@[i]@.len() ==> #[trigger] raw.cells()[i][k]
                == raw.data@[i]@[k]@,
{
}

/// A form holds its address and every named value, in order.
pub proof fn forms_are_whole(f: FormPost)
    ensures
        f@.url == f.url@,
        f@.headers.len() == f.headers@.len(),
        forall|i: int|
            0 <= i < f.headers@.len() ==> #[trigger] f@.headers[i] == (
                f.headers@[i].0@,
                f.headers@[i].1@,
            ),
        f@.form.len() == f.form@.len(),
        forall|i: int|
            0 <= i < f.form@.len() ==> #[trigger] f@.form[i] == (f.form@[i].0@, f.form@[i].1@),
{
}

/// A year holds its trades, its count of paper filings and whether it was blocked.
pub proof fn years_are_whole(y: SenateYear)
    ensures
        y@.trades.len() == y.trades@.len(),
        forall|i: int| 0 <= i < y.trades@.len() ==> #[trigger] y@.trades[i] == y.trades@[i]@,
        y@.skipped_paper == y.skipped_paper,
        y@.blocked == y.blocked,
{
}

/// What came of a report, of a search and of the agreement is told apart.
pub proof fn outcomes_are_whole(o: ReportOutcome, a: PageAnswer, s: AgreementStep, n: IngestStep)
    ensures
        match o {
            ReportOutcome::Trades(t) => o@ == ReportOutcomeView::Trades(trade::trade_views(t@)),
            ReportOutcome::Paper => o@ == ReportOutcomeView::Paper,
            ReportOutcome::Failed => o@ == ReportOutcomeView::Failed,
        },
        match a {
            PageAnswer::Page(p) => a@ == PageAnswerView::Page(p@),
            PageAnswer::Refused(status) => a@ == PageAnswerView::Refused(status as int),
            PageAnswer::Unreachable => a@ == PageAnswerView::Unreachable,
            PageAnswer::NotDecoded => a@ == PageAnswerView::NotDecoded,
        },
        match s {
            AgreementStep::GetHome => s@ == AgreementStepView::GetHome,
            AgreementStep::ReadHome => s@ == AgreementStepView::ReadHome,
            AgreementStep::PostTerms(p) => s@ == AgreementStepView::PostTerms(p@),
            AgreementStep::Done(Some(token)) => s@ == AgreementStepView::Done(Some(token@)),
            AgreementStep::Done(None) => s@ == AgreementStepView::Done(None),
        },
        match n {
            IngestStep::FetchPage(t) => n@ == IngestStepView::FetchPage(t@),
            IngestStep::FetchReport(t) => n@ == IngestStepView::FetchReport(t@),
            IngestStep::Done(year) => n@ == IngestStepView::Done(year@),
        },
{
}

} // verus!

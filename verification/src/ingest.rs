//! Collecting the periodic transaction reports of one year.
//!
//! Nothing here talks to the network. Each step says which request to make next; the answer to
//! that request is handed back and gives the next step.
//!
//! 1. Get the home page and take the anti-forgery token from its form.
//! 2. Post the agreement to the terms.
//! 3. Post searches that page through the reports of the year.
//! 4. Get each report of a page and read its transactions, or count it as a paper filing.

use vstd::prelude::*;
use crate::html;
use crate::html::extract_csrf;
use crate::number;
use crate::number::{decimal_of, decimal_of_i32};
use crate::report;
use crate::report::{parse_efd_ptr_html, ReportPage, ReportPageView, ReportRef, ReportRefView};
use crate::text;
use crate::text::{chars_of, has, text_of};
use crate::trade;
use crate::trade::{Trade, TradeView};

verus! {

/// The page with the terms of use.
pub const HOME_URL: &'static str = "https://efdsearch.senate.gov/search/home/";

/// The report search.
pub const DATA_URL: &'static str = "https://efdsearch.senate.gov/search/report/data/";

/// The page that the report search is posted from.
pub const SEARCH_URL: &'static str = "https://efdsearch.senate.gov/search/";

/// The code of a periodic transaction report in the report search.
pub const REPORT_TYPE_PTR: &'static str = "11";

/// How many records a full page of the report search holds.
pub const PAGE_LEN: usize = 100;

// ---------------------------------------------------------------------------
// What a year yields
// ---------------------------------------------------------------------------

/// What the attempt to collect a year came to.
pub struct SenateYear {
    pub trades: Vec<Trade>,
    /// Reports that are paper filings, without an electronic table.
    pub skipped_paper: usize,
    /// `true` when the host blocked the request or was unreachable.
    pub blocked: bool,
}

/// What a [`SenateYear`] holds.
pub struct SenateYearView {
    pub trades: Seq<TradeView>,
    pub skipped_paper: int,
    pub blocked: bool,
}

impl View for SenateYear {
    type V = SenateYearView;

    open spec fn view(&self) -> SenateYearView {
        SenateYearView {
            trades: trade::trade_views(self.trades@),
            skipped_paper: self.skipped_paper as int,
            blocked: self.blocked,
        }
    }
}

/// A year without trades or paper filings.
pub open spec fn empty_year(blocked: bool) -> SenateYearView {
    SenateYearView { trades: Seq::empty(), skipped_paper: 0, blocked }
}

impl SenateYear {
    /// The result of an attempt that the host blocked.
    pub fn blocked() -> (r: SenateYear)
        ensures
            r@ == empty_year(true),
    {
        let r = SenateYear { trades: Vec::new(), skipped_paper: 0, blocked: true };
        assert(r@.trades =~= Seq::<TradeView>::empty());
        r
    }
}

/// What one report came to.
pub enum ReportOutcome {
    Trades(Vec<Trade>),
    /// A paper filing, without an electronic table.
    Paper,
    Failed,
}

/// What a [`ReportOutcome`] holds.
pub enum ReportOutcomeView {
    Trades(Seq<TradeView>),
    Paper,
    Failed,
}

impl View for ReportOutcome {
    type V = ReportOutcomeView;

    open spec fn view(&self) -> ReportOutcomeView {
        match self {
            ReportOutcome::Trades(t) => ReportOutcomeView::Trades(trade::trade_views(t@)),
            ReportOutcome::Paper => ReportOutcomeView::Paper,
            ReportOutcome::Failed => ReportOutcomeView::Failed,
        }
    }
}

/// `year` with one more report: its trades follow those before, a paper filing is counted, and a
/// failure changes nothing.
pub open spec fn with_report(year: SenateYearView, outcome: ReportOutcomeView) -> SenateYearView {
    match outcome {
        ReportOutcomeView::Trades(t) => SenateYearView { trades: year.trades + t, ..year },
        ReportOutcomeView::Paper => SenateYearView {
            skipped_paper: year.skipped_paper + 1,
            ..year
        },
        ReportOutcomeView::Failed => year,
    }
}

// ---------------------------------------------------------------------------
// Requests
// ---------------------------------------------------------------------------

/// A form to be posted.
pub struct FormPost {
    pub url: String,
    pub headers: Vec<(String, String)>,
    pub form: Vec<(String, String)>,
}

/// What a [`FormPost`] holds.
pub struct FormPostView {
    pub url: Seq<char>,
    pub headers: Seq<(Seq<char>, Seq<char>)>,
    pub form: Seq<(Seq<char>, Seq<char>)>,
}

/// What a list of named values holds.
pub open spec fn pairs(list: Seq<(String, String)>) -> Seq<(Seq<char>, Seq<char>)> {
    list.map_values(|p: (String, String)| (p.0@, p.1@))
}

impl View for FormPost {
    type V = FormPostView;

    open spec fn view(&self) -> FormPostView {
        FormPostView {
            url: self.url@,
            headers: pairs(self.headers@),
            form: pairs(self.form@),
        }
    }
}

/// Adds a named value to a list.
fn put(list: &mut Vec<(String, String)>, name: &str, value: &str)
    ensures
        pairs(final(list)@) == pairs(old(list)@).push((name@, value@)),
{
    let pair = (name.to_string(), value.to_string());
    let ghost before = list@;
    list.push(pair);
    assert(pairs(before.push(pair)) =~= pairs(before).push((name@, value@)));
}

/// An empty list of named values.
fn no_pairs() -> (r: Vec<(String, String)>)
    ensures
        pairs(r@) == Seq::<(Seq<char>, Seq<char>)>::empty(),
{
    let r: Vec<(String, String)> = Vec::new();
    assert(pairs(r@) =~= Seq::<(Seq<char>, Seq<char>)>::empty());
    r
}

/// Whether a status is a success.
pub open spec fn is_success(status: int) -> bool {
    200 <= status < 300
}

/// Whether a status is a redirection.
pub open spec fn is_redirection(status: int) -> bool {
    300 <= status < 400
}

/// Whether an answer came, and with a success.
pub open spec fn succeeded(status: Option<u16>) -> bool {
    status matches Some(s) && is_success(s as int)
}

/// Whether an answer came, and with a success or a redirection.
pub open spec fn went_through(status: Option<u16>) -> bool {
    status matches Some(s) && (is_success(s as int) || is_redirection(s as int))
}

/// Whether an answer came, and with a success.
fn success(status: Option<u16>) -> (r: bool)
    ensures
        r == succeeded(status),
{
    match status {
        Some(s) => 200 <= s && s < 300,
        None => false,
    }
}

// ---------------------------------------------------------------------------
// The agreement
// ---------------------------------------------------------------------------

/// The next step towards the agreement.
pub enum AgreementStep {
    /// Get [`HOME_URL`] and hand its status to [`home_answered`].
    GetHome,
    /// Read the home page and hand it to [`home_read`].
    ReadHome,
    /// Post the agreement and hand its status to [`TermsPost::answered`].
    PostTerms(TermsPost),
    /// The token for the requests that follow; `None` when blocked or unreachable.
    Done(Option<String>),
}

/// The agreement, about to be posted.
pub struct TermsPost {
    csrf: String,
}

/// What an [`AgreementStep`] holds.
pub enum AgreementStepView {
    GetHome,
    ReadHome,
    PostTerms(Seq<char>),
    Done(Option<Seq<char>>),
}

impl View for TermsPost {
    type V = Seq<char>;

    closed spec fn view(&self) -> Seq<char> {
        self.csrf@
    }
}

impl View for AgreementStep {
    type V = AgreementStepView;

    open spec fn view(&self) -> AgreementStepView {
        match self {
            AgreementStep::GetHome => AgreementStepView::GetHome,
            AgreementStep::ReadHome => AgreementStepView::ReadHome,
            AgreementStep::PostTerms(p) => AgreementStepView::PostTerms(p@),
            AgreementStep::Done(Some(token)) => AgreementStepView::Done(Some(token@)),
            AgreementStep::Done(None) => AgreementStepView::Done(None),
        }
    }
}

/// The step after the home page has answered.
pub open spec fn after_home(status: Option<u16>) -> AgreementStepView {
    if succeeded(status) {
        AgreementStepView::ReadHome
    } else {
        AgreementStepView::Done(None)
    }
}

/// The step after the home page has been read; a page that could not be read holds no token.
pub open spec fn after_read(body: Option<Seq<char>>) -> AgreementStepView {
    match body {
        None => AgreementStepView::Done(None),
        Some(page) => match html::csrf_value(page) {
            Some(csrf) => AgreementStepView::PostTerms(csrf),
            None => AgreementStepView::Done(None),
        },
    }
}

/// The step after the agreement has been posted with the token `csrf`.
pub open spec fn after_post(csrf: Seq<char>, status: Option<u16>) -> AgreementStepView {
    if went_through(status) {
        AgreementStepView::Done(Some(csrf))
    } else {
        AgreementStepView::Done(None)
    }
}

/// The form that agrees to the terms.
pub open spec fn terms_form(csrf: Seq<char>) -> FormPostView {
    FormPostView {
        url: HOME_URL@,
        headers: seq![("Referer"@, HOME_URL@)],
        form: seq![("csrfmiddlewaretoken"@, csrf), ("prohibition_agreement"@, "1"@)],
    }
}

/// Begins the agreement to the terms.
pub fn accept_agreement() -> (r: AgreementStep)
    ensures
        r@ == AgreementStepView::GetHome,
{
    AgreementStep::GetHome
}

/// The home page has answered with `status`; `None` when it was unreachable.
pub fn home_answered(status: Option<u16>) -> (r: AgreementStep)
    ensures
        r@ == after_home(status),
{
    if success(status) {
        AgreementStep::ReadHome
    } else {
        AgreementStep::Done(None)
    }
}

/// What a text that may be missing holds.
pub open spec fn text_view(s: Option<&str>) -> Option<Seq<char>> {
    match s {
        Some(t) => Some(t@),
        None => None,
    }
}

/// The home page has been read; `None` when it could not be.
pub fn home_read(body: Option<&str>) -> (r: AgreementStep)
    ensures
        r@ == after_read(text_view(body)),
{
    match body {
        None => AgreementStep::Done(None),
        Some(page) => match extract_csrf(page) {
            Some(csrf) => AgreementStep::PostTerms(TermsPost { csrf }),
            None => AgreementStep::Done(None),
        },
    }
}

impl TermsPost {
    /// The form to post.
    pub fn request(&self) -> (r: FormPost)
        ensures
            r@ == terms_form(self@),
    {
        let mut headers = no_pairs();
        put(&mut headers, "Referer", HOME_URL);
        let mut form = no_pairs();
        put(&mut form, "csrfmiddlewaretoken", self.csrf.as_str());
        put(&mut form, "prohibition_agreement", "1");
        let r = FormPost { url: HOME_URL.to_string(), headers, form };
        assert(r@.headers =~= terms_form(self@).headers);
        assert(r@.form =~= terms_form(self@).form);
        r
    }

    /// The agreement has been answered with `status`; `None` when the post failed.
    pub fn answered(self, status: Option<u16>) -> (r: AgreementStep)
        ensures
            r@ == after_post(self@, status),
    {
        let through = match status {
            Some(s) => 200 <= s && s < 400,
            None => false,
        };
        if through {
            AgreementStep::Done(Some(self.csrf))
        } else {
            AgreementStep::Done(None)
        }
    }
}

// ---------------------------------------------------------------------------
// The report search
// ---------------------------------------------------------------------------

/// The form that searches for the periodic transaction reports of `year`, from record number
/// `start` on.
pub open spec fn search_form(csrf: Seq<char>, year: int, start: nat) -> FormPostView {
    FormPostView {
        url: DATA_URL@,
        headers: seq![("X-Requested-With"@, "XMLHttpRequest"@), ("Referer"@, SEARCH_URL@)],
        form: seq![
            ("start"@, number::decimal(start)),
            ("length"@, number::decimal(PAGE_LEN as nat)),
            ("report_types"@, REPORT_TYPE_PTR@),
            ("filer_types"@, ""@),
            ("submitted_start_date"@, "01/01/"@ + number::decimal_int(year) + " 00:00:00"@),
            ("submitted_end_date"@, "12/31/"@ + number::decimal_int(year) + " 23:59:59"@),
            ("candidate_state"@, ""@),
            ("senator_state"@, ""@),
            ("office_id"@, ""@),
            ("first_name"@, ""@),
            ("last_name"@, ""@),
            ("csrfmiddlewaretoken"@, csrf),
        ],
    }
}

/// `before`, the year, and `after`, as one text.
fn stamp(before: &str, year: i32, after: &str) -> (r: String)
    ensures
        r@ == before@ + number::decimal_int(year as int) + after@,
{
    let mut out = chars_of(before);
    let mut digits = decimal_of_i32(year);
    let mut tail = chars_of(after);
    out.append(&mut digits);
    out.append(&mut tail);
    text_of(out.as_slice())
}

/// The form that searches for the periodic transaction reports of `year`, from record number
/// `start` on.
pub fn fetch_report_page(csrf: &str, year: i32, start: usize) -> (r: FormPost)
    ensures
        r@ == search_form(csrf@, year as int, start as nat),
{
    let start_s = text_of(decimal_of(start as u64).as_slice());
    let len_s = text_of(decimal_of(PAGE_LEN as u64).as_slice());
    let from = stamp("01/01/", year, " 00:00:00");
    let to = stamp("12/31/", year, " 23:59:59");
    let mut headers = no_pairs();
    put(&mut headers, "X-Requested-With", "XMLHttpRequest");
    put(&mut headers, "Referer", SEARCH_URL);
    let mut form = no_pairs();
    put(&mut form, "start", start_s.as_str());
    put(&mut form, "length", len_s.as_str());
    put(&mut form, "report_types", REPORT_TYPE_PTR);
    put(&mut form, "filer_types", "");
    put(&mut form, "submitted_start_date", from.as_str());
    put(&mut form, "submitted_end_date", to.as_str());
    put(&mut form, "candidate_state", "");
    put(&mut form, "senator_state", "");
    put(&mut form, "office_id", "");
    put(&mut form, "first_name", "");
    put(&mut form, "last_name", "");
    put(&mut form, "csrfmiddlewaretoken", csrf);
    let r = FormPost { url: DATA_URL.to_string(), headers, form };
    assert(r@.headers =~= search_form(csrf@, year as int, start as nat).headers);
    assert(r@.form =~= search_form(csrf@, year as int, start as nat).form);
    r
}

/// What came of a search.
pub enum PageAnswer {
    Page(ReportPage),
    /// The host answered with a client or server error.
    Refused(u16),
    /// No answer came.
    Unreachable,
    /// The answer could not be read or decoded.
    NotDecoded,
}

/// What a [`PageAnswer`] holds.
pub enum PageAnswerView {
    Page(ReportPageView),
    Refused(int),
    Unreachable,
    NotDecoded,
}

impl View for PageAnswer {
    type V = PageAnswerView;

    open spec fn view(&self) -> PageAnswerView {
        match self {
            PageAnswer::Page(page) => PageAnswerView::Page(page@),
            PageAnswer::Refused(status) => PageAnswerView::Refused(*status as int),
            PageAnswer::Unreachable => PageAnswerView::Unreachable,
            PageAnswer::NotDecoded => PageAnswerView::NotDecoded,
        }
    }
}

/// The next step with a search.
pub enum SearchStep {
    /// Read the answer and decode it.
    Read,
    Done(PageAnswer),
}

/// What a [`SearchStep`] holds.
pub enum SearchStepView {
    Read,
    Done(PageAnswerView),
}

impl View for SearchStep {
    type V = SearchStepView;

    open spec fn view(&self) -> SearchStepView {
        match self {
            SearchStep::Read => SearchStepView::Read,
            SearchStep::Done(answer) => SearchStepView::Done(answer@),
        }
    }
}

/// Whether a status is a client or server error.
pub open spec fn is_error(status: int) -> bool {
    400 <= status < 600
}

/// The step after a search has been answered.
pub open spec fn after_search_status(status: Option<u16>) -> SearchStepView {
    match status {
        None => SearchStepView::Done(PageAnswerView::Unreachable),
        Some(s) => if is_error(s as int) {
            SearchStepView::Done(PageAnswerView::Refused(s as int))
        } else {
            SearchStepView::Read
        },
    }
}

/// A search has been answered with `status`; `None` when the host was unreachable.
pub fn search_answered(status: Option<u16>) -> (r: SearchStep)
    ensures
        r@ == after_search_status(status),
{
    match status {
        None => SearchStep::Done(PageAnswer::Unreachable),
        Some(s) => if 400 <= s && s < 600 {
            SearchStep::Done(PageAnswer::Refused(s))
        } else {
            SearchStep::Read
        },
    }
}

// ---------------------------------------------------------------------------
// One report
// ---------------------------------------------------------------------------

/// The next step with a report.
pub enum ReportStep {
    /// Get this URL and hand its status to [`report_answered`].
    Get(String),
    /// Read the page and hand it to [`report_read`].
    Read,
    Done(ReportOutcome),
}

/// What a [`ReportStep`] holds.
pub enum ReportStepView {
    Get(Seq<char>),
    Read,
    Done(ReportOutcomeView),
}

impl View for ReportStep {
    type V = ReportStepView;

    open spec fn view(&self) -> ReportStepView {
        match self {
            ReportStep::Get(url) => ReportStepView::Get(url@),
            ReportStep::Read => ReportStepView::Read,
            ReportStep::Done(outcome) => ReportStepView::Done(outcome@),
        }
    }
}

/// The first step with a report: a paper filing is known by its URL and is not fetched.
pub open spec fn first_report_step(report: ReportRefView) -> ReportStepView {
    if text::contains(report.url, "/paper/"@) {
        ReportStepView::Done(ReportOutcomeView::Paper)
    } else {
        ReportStepView::Get(report.url)
    }
}

/// The step after a report's page has answered.
pub open spec fn after_report_status(status: Option<u16>) -> ReportStepView {
    if succeeded(status) {
        ReportStepView::Read
    } else {
        ReportStepView::Done(ReportOutcomeView::Failed)
    }
}

/// What a report came to whose page has been read; a page without transactions counts as paper.
pub open spec fn read_outcome(
    body: Option<Seq<char>>,
    report: ReportRefView,
) -> ReportOutcomeView {
    match body {
        None => ReportOutcomeView::Failed,
        Some(page) => {
            let trades = report::trades_of(page, report);
            if trades.len() == 0 {
                ReportOutcomeView::Paper
            } else {
                ReportOutcomeView::Trades(trades)
            }
        },
    }
}

/// Begins with a report. Only electronic reports have a table that can be read; paper filings
/// live under `/search/view/paper/` and are scanned images.
pub fn fetch_report(report: &ReportRef) -> (r: ReportStep)
    ensures
        r@ == first_report_step(report@),
{
    if has(chars_of(report.url.as_str()).as_slice(), "/paper/") {
        ReportStep::Done(ReportOutcome::Paper)
    } else {
        ReportStep::Get(report.url.clone())
    }
}

/// A report's page has answered with `status`; `None` when it was unreachable.
pub fn report_answered(status: Option<u16>) -> (r: ReportStep)
    ensures
        r@ == after_report_status(status),
{
    if success(status) {
        ReportStep::Read
    } else {
        ReportStep::Done(ReportOutcome::Failed)
    }
}

/// A report's page has been read; `None` when it could not be.
pub fn report_read(body: Option<&str>, report: &ReportRef) -> (r: ReportOutcome)
    ensures
        r@ == read_outcome(text_view(body), report@),
{
    match body {
        None => ReportOutcome::Failed,
        Some(page) => {
            let trades = parse_efd_ptr_html(page, report);
            assert(trade::trade_views(trades@).len() == trades@.len());
            if trades.len() == 0 {
                ReportOutcome::Paper
            } else {
                ReportOutcome::Trades(trades)
            }
        },
    }
}

// ---------------------------------------------------------------------------
// The year
// ---------------------------------------------------------------------------

/// The next step of collecting a year.
pub enum IngestStep {
    /// Post a search, see [`search_answered`], and hand what came of it to [`PageTurn::answered`].
    FetchPage(PageTurn),
    /// Fetch a report and hand what it came to to [`ReportTurn::answered`].
    FetchReport(ReportTurn),
    Done(SenateYear),
}

/// A page of the report search is due.
pub struct PageTurn {
    csrf: String,
    year: i32,
    start: usize,
    out: SenateYear,
}

/// One of the reports of a page is due.
pub struct ReportTurn {
    csrf: String,
    year: i32,
    start: usize,
    out: SenateYear,
    rows: Vec<ReportRef>,
    records: usize,
    next: usize,
    records_filtered: usize,
}

/// What a [`PageTurn`] holds.
pub struct PageTurnView {
    pub csrf: Seq<char>,
    pub year: int,
    /// The number of records that the pages before held.
    pub start: nat,
    /// What the reports so far came to.
    pub out: SenateYearView,
}

/// What a [`ReportTurn`] holds.
pub struct ReportTurnView {
    pub csrf: Seq<char>,
    pub year: int,
    /// The number of records that the pages before held.
    pub start: nat,
    /// What the reports so far came to.
    pub out: SenateYearView,
    /// The reports of the page.
    pub rows: Seq<ReportRefView>,
    /// The number of records that the page held.
    pub records: nat,
    /// The report that is due.
    pub next: nat,
    /// The number of records of the whole list, as the page states it.
    pub records_filtered: nat,
}

/// What an [`IngestStep`] holds.
pub enum IngestStepView {
    FetchPage(PageTurnView),
    FetchReport(ReportTurnView),
    Done(SenateYearView),
}

impl View for PageTurn {
    type V = PageTurnView;

    closed spec fn view(&self) -> PageTurnView {
        PageTurnView {
            csrf: self.csrf@,
            year: self.year as int,
            start: self.start as nat,
            out: self.out@,
        }
    }
}

impl View for ReportTurn {
    type V = ReportTurnView;

    closed spec fn view(&self) -> ReportTurnView {
        ReportTurnView {
            csrf: self.csrf@,
            year: self.year as int,
            start: self.start as nat,
            out: self.out@,
            rows: report::report_views(self.rows@),
            records: self.records as nat,
            next: self.next as nat,
            records_filtered: self.records_filtered as nat,
        }
    }
}

impl View for IngestStep {
    type V = IngestStepView;

    open spec fn view(&self) -> IngestStepView {
        match self {
            IngestStep::FetchPage(t) => IngestStepView::FetchPage(t@),
            IngestStep::FetchReport(t) => IngestStepView::FetchReport(t@),
            IngestStep::Done(year) => IngestStepView::Done(year@),
        }
    }
}

/// The first step of collecting `year`, once the agreement has given a token or none.
pub open spec fn first_step(year: int, agreement: Option<Seq<char>>) -> IngestStepView {
    match agreement {
        None => IngestStepView::Done(empty_year(true)),
        Some(csrf) => IngestStepView::FetchPage(
            PageTurnView { csrf, year, start: 0, out: empty_year(false) },
        ),
    }
}

/// Whether a search came to a block: the host refused it as forbidden or was unreachable.
pub open spec fn is_block(answer: PageAnswerView) -> bool {
    answer == PageAnswerView::Refused(403) || answer == PageAnswerView::Unreachable
}

/// The step after a search. A block of the first search blocks the year. Any other failure ends
/// paging and keeps what was collected, as does a page without records. Else the first report of
/// the page is due, or what follows the page where none of its records has a report entry.
pub open spec fn after_answer(t: PageTurnView, answer: PageAnswerView) -> IngestStepView {
    match answer {
        PageAnswerView::Page(p) => if p.records == 0 {
            IngestStepView::Done(t.out)
        } else if p.rows.len() == 0 {
            after_records(t, p.records, p.records_filtered)
        } else {
            IngestStepView::FetchReport(
                ReportTurnView {
                    csrf: t.csrf,
                    year: t.year,
                    start: t.start,
                    out: t.out,
                    rows: p.rows,
                    records: p.records,
                    next: 0,
                    records_filtered: p.records_filtered,
                },
            )
        },
        _ => if t.start == 0 && is_block(answer) {
            IngestStepView::Done(empty_year(true))
        } else {
            IngestStepView::Done(t.out)
        },
    }
}

/// The step after a page with `records` records, asked for in turn `t`: the next page, unless this
/// one was the last, which shows when the whole list has been seen or when the page was not full.
pub open spec fn after_records(t: PageTurnView, records: nat, filtered: nat) -> IngestStepView {
    let start = t.start + records;
    if start >= filtered || records < PAGE_LEN {
        IngestStepView::Done(t.out)
    } else {
        IngestStepView::FetchPage(PageTurnView { start, ..t })
    }
}

/// The step after the last report of a page.
pub open spec fn after_last_report(t: ReportTurnView, out: SenateYearView) -> IngestStepView {
    after_records(
        PageTurnView { csrf: t.csrf, year: t.year, start: t.start, out },
        t.records,
        t.records_filtered,
    )
}

/// The step after a report: the next report of the page, or what follows the page.
pub open spec fn after_report(t: ReportTurnView, outcome: ReportOutcomeView) -> IngestStepView {
    let out = with_report(t.out, outcome);
    if t.next + 1 < t.rows.len() {
        IngestStepView::FetchReport(ReportTurnView { out, next: t.next + 1, ..t })
    } else {
        after_last_report(t, out)
    }
}

/// What a token that may be missing holds.
pub open spec fn token_view(token: Option<String>) -> Option<Seq<char>> {
    match token {
        Some(t) => Some(t@),
        None => None,
    }
}

/// Begins to collect `year`, with the token that the agreement gave, or without one.
pub fn ingest_year(year: i32, agreement: Option<String>) -> (r: IngestStep)
    ensures
        r@ == first_step(year as int, token_view(agreement)),
{
    match agreement {
        None => IngestStep::Done(SenateYear::blocked()),
        Some(csrf) => {
            let out = SenateYear { trades: Vec::new(), skipped_paper: 0, blocked: false };
            assert(out@.trades =~= Seq::<TradeView>::empty());
            IngestStep::FetchPage(PageTurn { csrf, year, start: 0, out })
        },
    }
}

impl PageTurn {
    #[verifier::type_invariant]
    spec fn sound(&self) -> bool {
        self.out.skipped_paper <= self.start
    }

    /// The number of records that the pages before held.
    pub fn start(&self) -> (r: usize)
        ensures
            r == self@.start,
    {
        self.start
    }

    /// The search to post.
    pub fn request(&self) -> (r: FormPost)
        ensures
            r@ == search_form(self@.csrf, self@.year, self@.start),
    {
        fetch_report_page(self.csrf.as_str(), self.year, self.start)
    }

    /// What came of the search.
    pub fn answered(self, answer: PageAnswer) -> (r: IngestStep)
        requires
            answer matches PageAnswer::Page(p) ==> p.well_formed() && self@.start + p.records
                <= usize::MAX,
        ensures
            r@ == after_answer(self@, answer@),
    {
        proof {
            use_type_invariant(&self);
        }
        match answer {
            PageAnswer::Page(p) => {
                assert(p@.rows.len() == p.rows@.len());
                if p.records == 0 {
                    IngestStep::Done(self.out)
                } else if p.rows.len() == 0 {
                    self.passed(p.records, p.records_filtered)
                } else {
                    IngestStep::FetchReport(
                        ReportTurn {
                            csrf: self.csrf,
                            year: self.year,
                            start: self.start,
                            out: self.out,
                            rows: p.rows,
                            records: p.records,
                            next: 0,
                            records_filtered: p.records_filtered,
                        },
                    )
                }
            },
            PageAnswer::Refused(status) => if self.start == 0 && status == 403 {
                IngestStep::Done(SenateYear::blocked())
            } else {
                IngestStep::Done(self.out)
            },
            PageAnswer::Unreachable => if self.start == 0 {
                IngestStep::Done(SenateYear::blocked())
            } else {
                IngestStep::Done(self.out)
            },
            PageAnswer::NotDecoded => IngestStep::Done(self.out),
        }
    }

    /// All records of the page that was due have been seen to.
    fn passed(self, records: usize, filtered: usize) -> (r: IngestStep)
        requires
            self@.start + records <= usize::MAX,
        ensures
            r@ == after_records(self@, records as nat, filtered as nat),
    {
        proof {
            use_type_invariant(&self);
        }
        let start = self.start + records;
        if start >= filtered || records < PAGE_LEN {
            IngestStep::Done(self.out)
        } else {
            IngestStep::FetchPage(PageTurn { csrf: self.csrf, year: self.year, start, out: self.out })
        }
    }
}

impl ReportTurn {
    #[verifier::type_invariant]
    spec fn sound(&self) -> bool {
        &&& self.next < self.rows@.len() <= self.records
        &&& self.start + self.records <= usize::MAX
        &&& self.out.skipped_paper <= self.start + self.next
    }

    /// The report that is due.
    pub fn report(&self) -> (r: &ReportRef)
        ensures
            self@.next < self@.rows.len(),
            r@ == self@.rows[self@.next as int],
    {
        proof {
            use_type_invariant(self);
        }
        &self.rows[self.next]
    }

    /// What the report came to.
    pub fn answered(self, outcome: ReportOutcome) -> (r: IngestStep)
        ensures
            r@ == after_report(self@, outcome@),
    {
        proof {
            use_type_invariant(&self);
        }
        let mut out = self.out;
        match outcome {
            ReportOutcome::Trades(t) => {
                let mut trades = t;
                let ghost before = out.trades@;
                out.trades.append(&mut trades);
                assert(trade::trade_views(before + t@) =~= trade::trade_views(before)
                    + trade::trade_views(t@));
            },
            ReportOutcome::Paper => {
                out.skipped_paper = out.skipped_paper + 1;
            },
            ReportOutcome::Failed => {},
        }
        let len: usize = self.rows.len();
        if self.next + 1 < len {
            return IngestStep::FetchReport(
                ReportTurn {
                    csrf: self.csrf,
                    year: self.year,
                    start: self.start,
                    out,
                    rows: self.rows,
                    records: self.records,
                    next: self.next + 1,
                    records_filtered: self.records_filtered,
                },
            );
        }
        let start = self.start + self.records;
        if start >= self.records_filtered || self.records < PAGE_LEN {
            IngestStep::Done(out)
        } else {
            IngestStep::FetchPage(PageTurn { csrf: self.csrf, year: self.year, start, out })
        }
    }
}

} // verus!

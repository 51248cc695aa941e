//! Laws of collecting a year.

use vstd::prelude::*;
use crate::html;
use crate::ingest;
use crate::ingest::{
    AgreementStepView, IngestStepView, PageAnswerView, PageTurnView, ReportOutcomeView,
    ReportStepView, ReportTurnView, SearchStepView, SenateYearView,
};
use crate::laws::html as scans;
use crate::laws::number as numbers;
use crate::laws::text as seams;
use crate::number;
use crate::report;
use crate::report::{ReportPageView, ReportRefView};
use crate::text;
use crate::trade::TradeView;

verus! {

// ---------------------------------------------------------------------------
// The agreement
// ---------------------------------------------------------------------------

/// What the agreement ends with when the requests are answered so.
pub open spec fn agreement(
    home: Option<u16>,
    body: Option<Seq<char>>,
    post: Option<u16>,
) -> Option<Seq<char>> {
    match ingest::after_home(home) {
        AgreementStepView::ReadHome => match ingest::after_read(body) {
            AgreementStepView::PostTerms(csrf) => match ingest::after_post(csrf, post) {
                AgreementStepView::Done(token) => token,
                _ => None,
            },
            _ => None,
        },
        _ => None,
    }
}

/// The agreement gives the token of the home page's form, and it gives one just when the home
/// page comes with a success, holds a token, and the agreement is answered with a success or a
/// redirection.
pub proof fn agreement_gives_the_token(
    home: Option<u16>,
    body: Option<Seq<char>>,
    post: Option<u16>,
    token: Seq<char>,
)
    ensures
        agreement(home, body, post) == Some(token) <==> {
            &&& ingest::succeeded(home)
            &&& body matches Some(page) && html::csrf_value(page) == Some(token)
            &&& ingest::went_through(post)
        },
{
}

/// An attempt without a token yields an empty, blocked year at once.
pub proof fn blocked_years_are_empty(
    year: int,
    home: Option<u16>,
    body: Option<Seq<char>>,
    post: Option<u16>,
)
    requires
        !ingest::succeeded(home) || body is None || html::csrf_value(body->0) is None
            || !ingest::went_through(post),
    ensures
        ingest::first_step(year, agreement(home, body, post)) == IngestStepView::Done(
            SenateYearView { trades: Seq::empty(), skipped_paper: 0, blocked: true },
        ),
{
}

/// Whether a form carries `value` under `name`, and nothing else under that name.
pub open spec fn carries(
    form: Seq<(Seq<char>, Seq<char>)>,
    name: Seq<char>,
    value: Seq<char>,
) -> bool {
    &&& exists|i: int| 0 <= i < form.len() && #[trigger] form[i] == (name, value)
    &&& forall|i: int| 0 <= i < form.len() && (#[trigger] form[i]).0 == name ==> form[i].1 == value
}

/// The agreement is posted to the page with the terms. It carries, whole, the token that stands on
/// that page, and the agreement itself.
pub proof fn agreement_carries_the_token(
    pre: Seq<char>,
    mid: Seq<char>,
    token: Seq<char>,
    post: Seq<char>,
)
    requires
        !text::contains(pre, "name=\"csrfmiddlewaretoken\""@),
        !text::contains("name=\"csrfmiddlewaretoken\""@ + mid, "value=\""@),
        seams::lacks(token, '"'),
    ensures
        ({
            let page = pre + "name=\"csrfmiddlewaretoken\""@ + mid + "value=\""@ + token + seq![
                '"',
            ] + post;
            ingest::after_read(Some(page)) matches AgreementStepView::PostTerms(csrf) && {
                let request = ingest::terms_form(csrf);
                &&& carries(request.form, "csrfmiddlewaretoken"@, token)
                &&& carries(request.form, "prohibition_agreement"@, seq!['1'])
                &&& request.form.len() == 2
            }
        }),
{
    scans::csrf_reads_back(pre, mid, token, post);
    terms_form_says(token);
}

/// Whatever the home page, the agreement that follows carries a text that stands on it between
/// the quotation marks of a value behind the field's name.
pub proof fn agreement_token_stands_on_the_page(page: Seq<char>, csrf: Seq<char>)
    requires
        ingest::after_read(Some(page)) == AgreementStepView::PostTerms(csrf),
    ensures
        exists|a: Seq<char>, token: Seq<char>, b: Seq<char>|
            page == #[trigger] (a + "value=\""@ + token + seq!['"'] + b) && seams::lacks(token, '"')
                && text::contains(a + "value=\""@, "name=\"csrfmiddlewaretoken\""@) && carries(
                ingest::terms_form(csrf).form,
                "csrfmiddlewaretoken"@,
                token,
            ),
{
    scans::token_stands_on_the_page(page, csrf);
    terms_form_says(csrf);
    let (a, b) = choose|a: Seq<char>, b: Seq<char>|
        page == #[trigger] (a + "value=\""@ + csrf + seq!['"'] + b) && text::contains(
            a + "value=\""@,
            "name=\"csrfmiddlewaretoken\""@,
        );
    assert(page == a + "value=\""@ + csrf + seq!['"'] + b);
}

/// The form of the agreement: where it goes, and what it carries.
pub proof fn terms_form_says(csrf: Seq<char>)
    ensures
        ({
            let request = ingest::terms_form(csrf);
            &&& ingest::HOME_URL@ == "https://efdsearch.senate.gov/search/home/"@
            &&& request.url == "https://efdsearch.senate.gov/search/home/"@
            &&& request.headers.len() == 1
            &&& carries(request.headers, "Referer"@, "https://efdsearch.senate.gov/search/home/"@)
            &&& request.form.len() == 2
            &&& carries(request.form, "csrfmiddlewaretoken"@, csrf)
            &&& carries(request.form, "prohibition_agreement"@, seq!['1'])
        }),
{
    reveal_strlit("csrfmiddlewaretoken");
    reveal_strlit("prohibition_agreement");
    reveal_strlit("1");
    let request = ingest::terms_form(csrf);
    assert("1"@ =~= seq!['1']);
    assert(request.headers[0] == ("Referer"@, "https://efdsearch.senate.gov/search/home/"@));
    assert(request.form[0] == ("csrfmiddlewaretoken"@, csrf));
    assert(request.form[1] == ("prohibition_agreement"@, seq!['1']));
    assert("csrfmiddlewaretoken"@.len() != "prohibition_agreement"@.len());
}

// ---------------------------------------------------------------------------
// The report search
// ---------------------------------------------------------------------------

/// Whether `s` is a moment of the year `year`: `day`, the year as it is usually written, `time`.
pub open spec fn is_moment(s: Seq<char>, day: Seq<char>, year: int, time: Seq<char>) -> bool {
    exists|y: Seq<char>| s == #[trigger] (day + y + time) && numbers::writes(y, year)
}

/// Every search asks for a full page of periodic transaction reports from record number `start`
/// on, submitted from the first to the last second of the year, whoever filed them, and carries
/// the token.
pub proof fn search_form_says(csrf: Seq<char>, year: int, start: nat)
    ensures
        ({
            let request = ingest::search_form(csrf, year, start);
            let form = request.form;
            &&& request.url == "https://efdsearch.senate.gov/search/report/data/"@
            &&& request.headers.len() == 2
            &&& carries(request.headers, "X-Requested-With"@, "XMLHttpRequest"@)
            &&& carries(request.headers, "Referer"@, "https://efdsearch.senate.gov/search/"@)
            &&& form.len() == 12
            &&& exists|v: Seq<char>| #[trigger]
                carries(form, "start"@, v) && numbers::writes(v, start as int)
            &&& exists|v: Seq<char>| #[trigger]
                carries(form, "length"@, v) && numbers::writes(v, ingest::PAGE_LEN as int)
            &&& ingest::PAGE_LEN == 100
            &&& carries(form, "report_types"@, seq!['1', '1'])
            &&& exists|v: Seq<char>| #[trigger]
                carries(form, "submitted_start_date"@, v) && is_moment(
                    v,
                    "01/01/"@,
                    year,
                    " 00:00:00"@,
                )
            &&& exists|v: Seq<char>| #[trigger]
                carries(form, "submitted_end_date"@, v) && is_moment(
                    v,
                    "12/31/"@,
                    year,
                    " 23:59:59"@,
                )
            &&& carries(form, "csrfmiddlewaretoken"@, csrf)
            &&& carries(form, "filer_types"@, Seq::empty())
            &&& carries(form, "candidate_state"@, Seq::empty())
            &&& carries(form, "senator_state"@, Seq::empty())
            &&& carries(form, "office_id"@, Seq::empty())
            &&& carries(form, "first_name"@, Seq::empty())
            &&& carries(form, "last_name"@, Seq::empty())
        }),
{
    let request = ingest::search_form(csrf, year, start);
    let form = request.form;
    let from = "01/01/"@ + number::decimal_int(year) + " 00:00:00"@;
    let to = "12/31/"@ + number::decimal_int(year) + " 23:59:59"@;
    let first = number::decimal(start);
    let len = number::decimal(ingest::PAGE_LEN as nat);
    search_names();
    numbers::numbers_are_written_as_usual(year);
    numbers::numbers_are_written_as_usual(start as int);
    numbers::numbers_are_written_as_usual(ingest::PAGE_LEN as int);
    assert(request.headers[0] == ("X-Requested-With"@, "XMLHttpRequest"@));
    assert(request.headers[1] == ("Referer"@, "https://efdsearch.senate.gov/search/"@));
    assert(form[0] == ("start"@, first));
    assert(form[1] == ("length"@, len));
    assert(form[2] == ("report_types"@, seq!['1', '1']));
    assert(form[3] == ("filer_types"@, Seq::<char>::empty()));
    assert(form[4] == ("submitted_start_date"@, from));
    assert(form[5] == ("submitted_end_date"@, to));
    assert(form[6] == ("candidate_state"@, Seq::<char>::empty()));
    assert(form[7] == ("senator_state"@, Seq::<char>::empty()));
    assert(form[8] == ("office_id"@, Seq::<char>::empty()));
    assert(form[9] == ("first_name"@, Seq::<char>::empty()));
    assert(form[10] == ("last_name"@, Seq::<char>::empty()));
    assert(form[11] == ("csrfmiddlewaretoken"@, csrf));
    assert(carries(form, "start"@, first));
    assert(carries(form, "length"@, len));
    assert(carries(form, "submitted_start_date"@, from));
    assert(carries(form, "submitted_end_date"@, to));
    assert(is_moment(from, "01/01/"@, year, " 00:00:00"@));
    assert(is_moment(to, "12/31/"@, year, " 23:59:59"@));
}

/// The names in the form of a search all differ.
proof fn search_names()
    ensures
        "start"@.len() == 5,
        "length"@.len() == 6,
        "report_types"@.len() == 12,
        "filer_types"@.len() == 11,
        "submitted_start_date"@.len() == 20,
        "submitted_end_date"@.len() == 18,
        "candidate_state"@.len() == 15,
        "senator_state"@.len() == 13,
        "office_id"@.len() == 9,
        "first_name"@.len() == 10,
        "last_name"@.len() == 9,
        "csrfmiddlewaretoken"@.len() == 19,
        "office_id"@ != "last_name"@,
        "X-Requested-With"@ != "Referer"@,
        "11"@ == seq!['1', '1'],
        ""@ == Seq::<char>::empty(),
{
    reveal_strlit("start");
    reveal_strlit("length");
    reveal_strlit("report_types");
    reveal_strlit("filer_types");
    reveal_strlit("submitted_start_date");
    reveal_strlit("submitted_end_date");
    reveal_strlit("candidate_state");
    reveal_strlit("senator_state");
    reveal_strlit("office_id");
    reveal_strlit("first_name");
    reveal_strlit("last_name");
    reveal_strlit("csrfmiddlewaretoken");
    reveal_strlit("X-Requested-With");
    reveal_strlit("Referer");
    reveal_strlit("11");
    reveal_strlit("");
    assert("office_id"@[0] != "last_name"@[0]);
    assert("X-Requested-With"@.len() != "Referer"@.len());
    assert("11"@ =~= seq!['1', '1']);
    assert(""@ =~= Seq::<char>::empty());
}

/// Which statuses end a request: the home page and a report must come with a success, the
/// agreement with a success or a redirection, and a search with neither a client nor a server
/// error. An error of a search is handed on with its status.
pub proof fn statuses(s: u16)
    ensures
        ingest::after_home(Some(s)) == AgreementStepView::ReadHome <==> 200 <= s <= 299,
        ingest::after_home(Some(s)) == AgreementStepView::Done(None) <==> !(200 <= s <= 299),
        ingest::after_home(None) == AgreementStepView::Done(None),
        ingest::after_report_status(Some(s)) == ReportStepView::Read <==> 200 <= s <= 299,
        ingest::after_report_status(Some(s)) == ReportStepView::Done(ReportOutcomeView::Failed)
            <==> !(200 <= s <= 299),
        ingest::after_report_status(None) == ReportStepView::Done(ReportOutcomeView::Failed),
        forall|csrf: Seq<char>|
            #![trigger ingest::after_post(csrf, Some(s))]
            ingest::after_post(csrf, Some(s)) == AgreementStepView::Done(
                if 200 <= s <= 399 {
                    Some(csrf)
                } else {
                    None
                },
            ),
        forall|csrf: Seq<char>|
            #![trigger ingest::after_post(csrf, None)]
            ingest::after_post(csrf, None) == AgreementStepView::Done(None),
        ingest::after_search_status(Some(s)) == SearchStepView::Read <==> !(400 <= s <= 599),
        ingest::after_search_status(Some(s)) == SearchStepView::Done(
            PageAnswerView::Refused(s as int),
        ) <==> 400 <= s <= 599,
        ingest::after_search_status(None) == SearchStepView::Done(PageAnswerView::Unreachable),
{
}

/// A search came to a block just when it was refused as forbidden or the host was unreachable.
pub proof fn blocks(answer: PageAnswerView)
    ensures
        ingest::is_block(answer) <==> match answer {
            PageAnswerView::Refused(status) => status == 403,
            PageAnswerView::Unreachable => true,
            _ => false,
        },
        ingest::empty_year(true).blocked,
        ingest::empty_year(true).trades.len() == 0,
        ingest::empty_year(true).skipped_paper == 0,
{
}

// ---------------------------------------------------------------------------
// One report
// ---------------------------------------------------------------------------

/// What a report comes to when the requests are answered so.
pub open spec fn outcome(
    r: ReportRefView,
    status: Option<u16>,
    body: Option<Seq<char>>,
) -> ReportOutcomeView {
    match ingest::first_report_step(r) {
        ReportStepView::Done(o) => o,
        _ => match ingest::after_report_status(status) {
            ReportStepView::Done(o) => o,
            _ => ingest::read_outcome(body, r),
        },
    }
}

/// A report is fetched at its own URL, unless it is a paper filing.
pub proof fn reports_are_fetched_at_their_url(r: ReportRefView)
    ensures
        !text::contains(r.url, "/paper/"@) ==> ingest::first_report_step(r) == ReportStepView::Get(
            r.url,
        ),
        text::contains(r.url, "/paper/"@) ==> ingest::first_report_step(r) == ReportStepView::Done(
            ReportOutcomeView::Paper,
        ),
{
}

/// A paper filing is counted as paper whatever the host answers.
pub proof fn paper_filings_are_paper(
    r: ReportRefView,
    status: Option<u16>,
    body: Option<Seq<char>>,
)
    requires
        text::contains(r.url, "/paper/"@),
    ensures
        outcome(r, status, body) == ReportOutcomeView::Paper,
{
}

/// A link to a paper filing stays one when it is made absolute, so that the filing that it leads
/// to is counted and not fetched.
pub proof fn links_to_paper_filings_stay(r: ReportRefView, link: Seq<char>)
    requires
        text::contains(link, "/paper/"@),
        r.url == report::absolute_url(link),
    ensures
        ingest::first_report_step(r) == ReportStepView::Done(ReportOutcomeView::Paper),
{
    let i = choose|i: int| text::occurs_at(link, "/paper/"@, i);
    if r.url != link {
        let n = report::BASE@.len();
        assert(r.url.subrange(n + i, n + i + "/paper/"@.len()) =~= link.subrange(
            i,
            i + "/paper/"@.len(),
        ));
        assert(text::occurs_at(r.url, "/paper/"@, n + i));
    }
}

/// A report yields trades just when it is no paper filing, its page is read, and the page has a
/// transaction on it; the trades are then those of the page.
pub proof fn trades_come_from_the_page(
    r: ReportRefView,
    status: Option<u16>,
    body: Option<Seq<char>>,
    trades: Seq<TradeView>,
)
    ensures
        outcome(r, status, body) == ReportOutcomeView::Trades(trades) <==> {
            &&& !text::contains(r.url, "/paper/"@)
            &&& ingest::succeeded(status)
            &&& body matches Some(page) && report::trades_of(page, r) == trades
            &&& trades.len() > 0
        },
{
}

/// A report fails just when it is no paper filing and its page cannot be had.
pub proof fn failures_are_missing_pages(
    r: ReportRefView,
    status: Option<u16>,
    body: Option<Seq<char>>,
)
    ensures
        outcome(r, status, body) == ReportOutcomeView::Failed <==> {
            &&& !text::contains(r.url, "/paper/"@)
            &&& !ingest::succeeded(status) || body is None
        },
{
}

// ---------------------------------------------------------------------------
// A whole run
// ---------------------------------------------------------------------------

/// The answer to a request of the run.
pub enum Answer {
    /// What came of a search.
    Search(PageAnswerView),
    /// What a report came to.
    Report(ReportOutcomeView),
}

/// Whether `answer` answers what `step` asks for.
pub open spec fn fits(step: IngestStepView, answer: Answer) -> bool {
    match (step, answer) {
        (IngestStepView::FetchPage(_), Answer::Search(_)) => true,
        (IngestStepView::FetchReport(_), Answer::Report(_)) => true,
        _ => false,
    }
}

/// The step that follows `step` upon `answer`.
pub open spec fn next_step(step: IngestStepView, answer: Answer) -> IngestStepView {
    match (step, answer) {
        (IngestStepView::FetchPage(t), Answer::Search(page)) => ingest::after_answer(t, page),
        (IngestStepView::FetchReport(t), Answer::Report(o)) => ingest::after_report(t, o),
        _ => step,
    }
}

/// Where a run stands after these answers.
pub open spec fn run(step: IngestStepView, answers: Seq<Answer>) -> IngestStepView
    decreases answers.len(),
{
    if answers.len() == 0 {
        step
    } else {
        next_step(run(step, answers.drop_last()), answers.last())
    }
}

/// Whether each answer answers what was asked.
pub open spec fn fitting(step: IngestStepView, answers: Seq<Answer>) -> bool
    decreases answers.len(),
{
    answers.len() == 0 || (fitting(step, answers.drop_last()) && fits(
        run(step, answers.drop_last()),
        answers.last(),
    ))
}

/// What has been collected at a step.
pub open spec fn collected(step: IngestStepView) -> SenateYearView {
    match step {
        IngestStepView::FetchPage(t) => t.out,
        IngestStepView::FetchReport(t) => t.out,
        IngestStepView::Done(year) => year,
    }
}

/// What the reports among the answers came to, in order.
pub open spec fn reports(answers: Seq<Answer>) -> Seq<ReportOutcomeView>
    decreases answers.len(),
{
    if answers.len() == 0 {
        Seq::empty()
    } else {
        let before = reports(answers.drop_last());
        match answers.last() {
            Answer::Report(o) => before.push(o),
            Answer::Search(_) => before,
        }
    }
}

/// How many report entries the pages among the answers list.
pub open spec fn listed(answers: Seq<Answer>) -> nat
    decreases answers.len(),
{
    if answers.len() == 0 {
        0
    } else {
        let before = listed(answers.drop_last());
        match answers.last() {
            Answer::Search(PageAnswerView::Page(page)) => before + page.rows.len(),
            _ => before,
        }
    }
}

/// How many records the pages among the answers held.
pub open spec fn records_seen(answers: Seq<Answer>) -> nat
    decreases answers.len(),
{
    if answers.len() == 0 {
        0
    } else {
        let before = records_seen(answers.drop_last());
        match answers.last() {
            Answer::Search(PageAnswerView::Page(page)) => before + page.records,
            _ => before,
        }
    }
}

/// Whether every page among the answers has no more report entries than records.
pub open spec fn pages_are_sound(answers: Seq<Answer>) -> bool {
    forall|i: int|
        0 <= i < answers.len() ==> (#[trigger] answers[i] matches Answer::Search(
            PageAnswerView::Page(page),
        ) ==> page.rows.len() <= page.records)
}

/// The trades of these reports, one report after the other.
pub open spec fn all_trades(outcomes: Seq<ReportOutcomeView>) -> Seq<TradeView>
    decreases outcomes.len(),
{
    if outcomes.len() == 0 {
        Seq::empty()
    } else {
        let before = all_trades(outcomes.drop_last());
        match outcomes.last() {
            ReportOutcomeView::Trades(t) => before + t,
            _ => before,
        }
    }
}

/// How many of these reports are paper filings.
pub open spec fn paper_count(outcomes: Seq<ReportOutcomeView>) -> nat
    decreases outcomes.len(),
{
    if outcomes.len() == 0 {
        0
    } else {
        let before = paper_count(outcomes.drop_last());
        match outcomes.last() {
            ReportOutcomeView::Paper => before + 1,
            _ => before,
        }
    }
}

/// Whether the first search came to a block.
pub open spec fn blocked_at_first(answers: Seq<Answer>) -> bool {
    answers.len() > 0 && (answers[0] matches Answer::Search(a) && ingest::is_block(a))
}

/// After its first answer a run with a token is at record number 0 no more, unless it has ended.
proof fn later_searches_start_later(year: int, csrf: Seq<char>, answers: Seq<Answer>)
    requires
        fitting(ingest::first_step(year, Some(csrf)), answers),
        answers.len() > 0,
    ensures
        run(ingest::first_step(year, Some(csrf)), answers) matches IngestStepView::FetchPage(t)
            ==> t.start > 0,
    decreases answers.len(),
{
    let before = answers.drop_last();
    if before.len() > 0 {
        later_searches_start_later(year, csrf, before);
    }
}

/// A run whose first search came to a block ends there, and it ends with an empty, blocked year.
pub proof fn block_at_first_ends_the_run(year: int, csrf: Seq<char>, answers: Seq<Answer>)
    requires
        fitting(ingest::first_step(year, Some(csrf)), answers),
        blocked_at_first(answers),
    ensures
        answers.len() == 1,
        run(ingest::first_step(year, Some(csrf)), answers) == IngestStepView::Done(
            ingest::empty_year(true),
        ),
    decreases answers.len(),
{
    let step = ingest::first_step(year, Some(csrf));
    let before = answers.drop_last();
    if before.len() > 0 {
        assert(before[0] == answers[0]);
        block_at_first_ends_the_run(year, csrf, before);
    } else {
        assert(run(step, before) == step);
        assert(answers.last() == answers[0]);
    }
}

/// What a run with a token has collected are the trades of all reports so far, in order, and the
/// number of paper filings among them; failures leave no trace. The year is blocked just when the
/// first search came to a block.
pub proof fn year_is_what_its_reports_came_to(year: int, csrf: Seq<char>, answers: Seq<Answer>)
    requires
        fitting(ingest::first_step(year, Some(csrf)), answers),
    ensures
        collected(run(ingest::first_step(year, Some(csrf)), answers)) == (SenateYearView {
            trades: all_trades(reports(answers)),
            skipped_paper: paper_count(reports(answers)) as int,
            blocked: blocked_at_first(answers),
        }),
    decreases answers.len(),
{
    let step = ingest::first_step(year, Some(csrf));
    if answers.len() > 0 {
        let before = answers.drop_last();
        year_is_what_its_reports_came_to(year, csrf, before);
        if before.len() > 0 {
            assert(before[0] == answers[0]);
            later_searches_start_later(year, csrf, before);
        } else {
            assert(run(step, before) == step);
            assert(answers.last() == answers[0]);
        }
        match answers.last() {
            Answer::Report(o) => {
                let all = reports(answers);
                assert(all.drop_last() =~= reports(before));
                assert(all.last() == o);
            },
            Answer::Search(a) => {
                assert(reports(answers) == reports(before));
                if before.len() == 0 {
                    assert(reports(before) =~= Seq::<ReportOutcomeView>::empty());
                    assert(all_trades(reports(before)) =~= Seq::<TradeView>::empty());
                }
            },
        }
    }
}

/// Without a token nothing is asked for.
proof fn no_answers_without_token(year: int, answers: Seq<Answer>)
    requires
        fitting(ingest::first_step(year, None), answers),
    ensures
        answers.len() == 0,
    decreases answers.len(),
{
    if answers.len() > 0 {
        no_answers_without_token(year, answers.drop_last());
    }
}

/// A year is blocked just when the agreement gave no token or the first search came to a block,
/// and a blocked year is empty.
pub proof fn only_a_block_blocks_the_year(
    year: int,
    token: Option<Seq<char>>,
    answers: Seq<Answer>,
)
    requires
        fitting(ingest::first_step(year, token), answers),
    ensures
        ({
            let end = collected(run(ingest::first_step(year, token), answers));
            &&& end.blocked <==> token is None || blocked_at_first(answers)
            &&& end.blocked ==> end == ingest::empty_year(true)
        }),
{
    match token {
        None => no_answers_without_token(year, answers),
        Some(csrf) => {
            year_is_what_its_reports_came_to(year, csrf, answers);
            if blocked_at_first(answers) {
                block_at_first_ends_the_run(year, csrf, answers);
            }
        },
    }
}

/// A run asks for every listed report once: when it asks for a page or has ended, as many reports
/// have been answered as were listed. Each page is asked for from the first record on that the
/// pages before did not hold.
pub proof fn every_listed_report_is_asked_for_once(t: PageTurnView, answers: Seq<Answer>)
    requires
        t.start == 0,
        fitting(IngestStepView::FetchPage(t), answers),
        pages_are_sound(answers),
    ensures
        match run(IngestStepView::FetchPage(t), answers) {
            IngestStepView::FetchPage(p) => p.start == records_seen(answers) && reports(
                answers,
            ).len() == listed(answers),
            IngestStepView::FetchReport(p) => p.next < p.rows.len() && p.start + p.records
                == records_seen(answers) && reports(answers).len() + (p.rows.len() - p.next)
                == listed(answers),
            IngestStepView::Done(_) => reports(answers).len() == listed(answers),
        },
    decreases answers.len(),
{
    if answers.len() > 0 {
        let before = answers.drop_last();
        assert(pages_are_sound(before)) by {
            assert forall|i: int| 0 <= i < before.len() implies (
            #[trigger] before[i] matches Answer::Search(PageAnswerView::Page(page))
                ==> page.rows.len() <= page.records) by {
                assert(before[i] == answers[i]);
            }
        }
        every_listed_report_is_asked_for_once(t, before);
        assert(answers.last() == answers[answers.len() - 1]);
    }
}

/// A run keeps its token and its year, so every page is asked for with the same two.
pub proof fn runs_keep_token_and_year(t: PageTurnView, answers: Seq<Answer>)
    requires
        fitting(IngestStepView::FetchPage(t), answers),
    ensures
        match run(IngestStepView::FetchPage(t), answers) {
            IngestStepView::FetchPage(p) => p.csrf == t.csrf && p.year == t.year,
            IngestStepView::FetchReport(p) => p.csrf == t.csrf && p.year == t.year,
            IngestStepView::Done(_) => true,
        },
    decreases answers.len(),
{
    if answers.len() > 0 {
        runs_keep_token_and_year(t, answers.drop_last());
    }
}

/// The reports of a page are asked for in order: after some of them have been answered, the next
/// one is due, and after all of them, the page is done.
pub proof fn reports_are_asked_for_in_order(t: ReportTurnView, outcomes: Seq<ReportOutcomeView>)
    requires
        t.next + outcomes.len() <= t.rows.len(),
        t.next < t.rows.len(),
    ensures
        ({
            let answers = outcomes.map_values(|o: ReportOutcomeView| Answer::Report(o));
            let end = run(IngestStepView::FetchReport(t), answers);
            &&& fitting(IngestStepView::FetchReport(t), answers)
            &&& if t.next + outcomes.len() < t.rows.len() {
                end matches IngestStepView::FetchReport(p) && p == (ReportTurnView {
                    next: t.next + outcomes.len(),
                    out: p.out,
                    ..t
                })
            } else {
                end == ingest::after_last_report(t, collected(end))
            }
        }),
    decreases outcomes.len(),
{
    let answers = outcomes.map_values(|o: ReportOutcomeView| Answer::Report(o));
    if outcomes.len() > 0 {
        let before = outcomes.drop_last();
        reports_are_asked_for_in_order(t, before);
        assert(before.map_values(|o: ReportOutcomeView| Answer::Report(o))
            =~= answers.drop_last());
        assert(answers.last() == Answer::Report(outcomes.last()));
    }
}

/// Whether a page with `records` records from `start` on is the last of a list of `filtered`: it
/// is empty or not full, or the list ends with it.
pub open spec fn is_last_page(start: nat, records: nat, filtered: nat) -> bool {
    records < ingest::PAGE_LEN || start + records >= filtered
}

/// A page ends the paging just when it is the last one; else the next page is asked for, from the
/// record behind it on. That some of its records have no report entry makes no difference.
pub proof fn paging_covers_the_list(t: PageTurnView, page: ReportPageView)
    ensures
        page.rows.len() == 0 ==> if is_last_page(t.start, page.records, page.records_filtered) {
            ingest::after_answer(t, PageAnswerView::Page(page)) == IngestStepView::Done(t.out)
        } else {
            ingest::after_answer(t, PageAnswerView::Page(page)) == IngestStepView::FetchPage(
                PageTurnView { start: t.start + page.records, ..t },
            )
        },
        page.rows.len() > 0 && page.records > 0 ==> (ingest::after_answer(
            t,
            PageAnswerView::Page(page),
        ) matches IngestStepView::FetchReport(r) && r.rows == page.rows && r.next == 0),
{
}

/// The last report of a page ends the paging just when the page is the last one; else the next
/// page is asked for, from the record behind it on.
pub proof fn paging_goes_on_after_reports(t: ReportTurnView, o: ReportOutcomeView)
    requires
        t.next + 1 >= t.rows.len(),
    ensures
        ingest::after_report(t, o) is Done <==> is_last_page(t.start, t.records, t.records_filtered),
        !is_last_page(t.start, t.records, t.records_filtered) ==> (ingest::after_report(
            t,
            o,
        ) matches IngestStepView::FetchPage(p) && p.start == t.start + t.records),
{
}

/// Every further page begins at least a full page behind the one before.
pub proof fn paging_advances(t: ReportTurnView, o: ReportOutcomeView)
    ensures
        ingest::after_report(t, o) matches IngestStepView::FetchPage(p) ==> {
            &&& p.start >= t.start + ingest::PAGE_LEN
            &&& p.start < t.records_filtered
        },
{
}

/// A failed search ends the run. It blocks the year just when it is the first search and came to
/// a block; else what was collected is kept.
pub proof fn failed_searches_end_the_run(t: PageTurnView, answer: PageAnswerView)
    requires
        !(answer is Page),
    ensures
        ingest::after_answer(t, answer) == IngestStepView::Done(
            if t.start == 0 && ingest::is_block(answer) {
                ingest::empty_year(true)
            } else {
                t.out
            },
        ),
{
}

/// Every search of a year carries the token that the agreement gave, asks for that year, and
/// begins with the first record that the pages before did not hold.
pub proof fn searches_carry_token_year_and_place(
    year: int,
    csrf: Seq<char>,
    answers: Seq<Answer>,
)
    requires
        fitting(ingest::first_step(year, Some(csrf)), answers),
        pages_are_sound(answers),
        run(ingest::first_step(year, Some(csrf)), answers) is FetchPage,
    ensures
        run(ingest::first_step(year, Some(csrf)), answers) matches IngestStepView::FetchPage(p) && {
            let form = ingest::search_form(p.csrf, p.year, p.start).form;
            &&& carries(form, "csrfmiddlewaretoken"@, csrf)
            &&& exists|v: Seq<char>| #[trigger]
                carries(form, "start"@, v) && numbers::writes(v, records_seen(answers) as int)
            &&& exists|v: Seq<char>| #[trigger]
                carries(form, "submitted_start_date"@, v) && is_moment(
                    v,
                    "01/01/"@,
                    year,
                    " 00:00:00"@,
                )
        },
{
    let t = PageTurnView { csrf, year, start: 0, out: ingest::empty_year(false) };
    assert(ingest::first_step(year, Some(csrf)) == IngestStepView::FetchPage(t));
    runs_keep_token_and_year(t, answers);
    every_listed_report_is_asked_for_once(t, answers);
    if let IngestStepView::FetchPage(p) = run(IngestStepView::FetchPage(t), answers) {
        search_form_says(p.csrf, p.year, p.start);
    }
}

/// The reports of a page are asked for from the first one on, each as the page lists it.
pub proof fn pages_are_followed_as_listed(t: PageTurnView, page: ReportPageView)
    requires
        page.records > 0,
        page.rows.len() > 0,
    ensures
        ingest::after_answer(t, PageAnswerView::Page(page)) == IngestStepView::FetchReport(
            ReportTurnView {
                csrf: t.csrf,
                year: t.year,
                start: t.start,
                out: t.out,
                rows: page.rows,
                records: page.records,
                next: 0,
                records_filtered: page.records_filtered,
            },
        ),
{
}

} // verus!

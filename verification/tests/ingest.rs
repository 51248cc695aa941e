use senate_efd::ingest::{
    accept_agreement, fetch_report, fetch_report_page, home_answered, home_read, ingest_year,
    report_answered, report_read, search_answered, AgreementStep, FormPost, IngestStep, PageAnswer,
    ReportOutcome, ReportStep, SearchStep, SenateYear,
};
use senate_efd::report::{parse_report_list_json, RawDataTables, ReportPage, ReportRef};
use senate_efd::trade::Trade;

const HOME: &str = r#"<input type="hidden" name="csrfmiddlewaretoken" value="tok">"#;

fn report(url: &str) -> ReportRef {
    ReportRef {
        first: "A".into(),
        last: "B".into(),
        state: "DE".into(),
        url: url.into(),
        filing_date: 20240115,
    }
}

fn transaction(ticker: &str) -> String {
    format!(
        "<tr><td>1</td><td>Self</td><td>{ticker}</td><td>x</td><td>Stock</td><td>Sale</td>\
         <td></td><td>01/02/2024</td><td>$5</td></tr>"
    )
}

fn trades(ticker: &str) -> Vec<Trade> {
    match report_read(Some(&transaction(ticker)), &report("u")) {
        ReportOutcome::Trades(t) => t,
        _ => panic!("no trades"),
    }
}

fn pairs(list: &[(String, String)]) -> Vec<(&str, &str)> {
    list.iter().map(|(a, b)| (a.as_str(), b.as_str())).collect()
}

/// What the agreement ends with when the requests are answered so.
fn agreement(home: Option<u16>, body: Option<&str>, post: Option<u16>) -> Option<String> {
    let mut step = accept_agreement();
    loop {
        step = match step {
            AgreementStep::GetHome => home_answered(home),
            AgreementStep::ReadHome => home_read(body),
            AgreementStep::PostTerms(terms) => terms.answered(post),
            AgreementStep::Done(token) => return token,
        }
    }
}

#[test]
fn the_agreement_gives_the_token() {
    for home in [200, 204, 299] {
        for post in [200, 299, 300, 302, 399] {
            assert_eq!(agreement(Some(home), Some(HOME), Some(post)).as_deref(), Some("tok"));
        }
    }
}

#[test]
fn a_block_gives_no_token() {
    for status in [None, Some(199), Some(300), Some(302), Some(403), Some(500)] {
        assert_eq!(agreement(status, Some(HOME), Some(200)), None);
    }
    for status in [None, Some(199), Some(400), Some(403), Some(503)] {
        assert_eq!(agreement(Some(200), Some(HOME), status), None);
    }
    assert_eq!(agreement(Some(200), None, Some(200)), None);
    assert_eq!(agreement(Some(200), Some("<form></form>"), Some(200)), None);
}

#[test]
fn the_agreement_form() {
    let request: FormPost = match home_read(Some(HOME)) {
        AgreementStep::PostTerms(terms) => terms.request(),
        _ => panic!("no form"),
    };
    assert_eq!(request.url, "https://efdsearch.senate.gov/search/home/");
    assert_eq!(
        pairs(&request.headers),
        vec![("Referer", "https://efdsearch.senate.gov/search/home/")]
    );
    assert_eq!(
        pairs(&request.form),
        vec![("csrfmiddlewaretoken", "tok"), ("prohibition_agreement", "1")]
    );
}

#[test]
fn the_search_form() {
    let request = fetch_report_page("tok", 2024, 300);
    assert_eq!(request.url, "https://efdsearch.senate.gov/search/report/data/");
    assert_eq!(
        pairs(&request.headers),
        vec![
            ("X-Requested-With", "XMLHttpRequest"),
            ("Referer", "https://efdsearch.senate.gov/search/"),
        ]
    );
    assert_eq!(
        pairs(&request.form),
        vec![
            ("start", "300"),
            ("length", "100"),
            ("report_types", "11"),
            ("filer_types", ""),
            ("submitted_start_date", "01/01/2024 00:00:00"),
            ("submitted_end_date", "12/31/2024 23:59:59"),
            ("candidate_state", ""),
            ("senator_state", ""),
            ("office_id", ""),
            ("first_name", ""),
            ("last_name", ""),
            ("csrfmiddlewaretoken", "tok"),
        ]
    );
    assert_eq!(fetch_report_page("", -5, 0).form[4].1, "01/01/-5 00:00:00");
}

#[test]
fn paper_filings_are_not_fetched() {
    let paper = report("https://efdsearch.senate.gov/search/view/paper/X/");
    assert!(matches!(fetch_report(&paper), ReportStep::Done(ReportOutcome::Paper)));
    let electronic = report("https://efdsearch.senate.gov/search/view/ptr/X/");
    match fetch_report(&electronic) {
        ReportStep::Get(url) => assert_eq!(url, electronic.url),
        _ => panic!("not fetched"),
    }
}

#[test]
fn listed_paper_filings_are_not_fetched() {
    let row = ["A", "B", "C", "<a href=\"/search/view/paper/X/\">", "01/02/2024"];
    let data = vec![row.iter().map(|c| c.to_string()).collect()];
    let raw = RawDataTables { data, records_filtered: 1 };
    match parse_report_list_json::<()>(Ok(raw)) {
        Ok(page) => {
            assert!(matches!(fetch_report(&page.rows[0]), ReportStep::Done(ReportOutcome::Paper)))
        }
        Err(()) => panic!("no page"),
    }
}

#[test]
fn reports_that_cannot_be_read_fail() {
    for status in [None, Some(199), Some(302), Some(403), Some(404), Some(500)] {
        assert!(matches!(report_answered(status), ReportStep::Done(ReportOutcome::Failed)));
    }
    assert!(matches!(report_answered(Some(200)), ReportStep::Read));
    assert!(matches!(report_read(None, &report("u")), ReportOutcome::Failed));
}

#[test]
fn a_page_without_transactions_counts_as_paper() {
    assert!(matches!(report_read(Some("<html></html>"), &report("u")), ReportOutcome::Paper));
    assert_eq!(trades("T")[0].ticker, "T");
}

#[test]
fn a_blocked_year_is_empty() {
    for year in [
        SenateYear::blocked(),
        match ingest_year(2024, None) {
            IngestStep::Done(year) => year,
            _ => panic!("not done"),
        },
    ] {
        assert!(year.trades.is_empty());
        assert_eq!(year.skipped_paper, 0);
        assert!(year.blocked);
    }
}

#[test]
fn searches_that_are_refused_are_not_read() {
    for status in [Some(100), Some(200), Some(302), Some(399), Some(600), Some(999)] {
        assert!(matches!(search_answered(status), SearchStep::Read));
    }
    for status in [400, 403, 404, 499, 500, 503, 599] {
        match search_answered(Some(status)) {
            SearchStep::Done(PageAnswer::Refused(s)) => assert_eq!(s, status),
            _ => panic!("not refused"),
        }
    }
    assert!(matches!(search_answered(None), SearchStep::Done(PageAnswer::Unreachable)));
}

/// A page with `usable` report entries, numbered from `first` on, among `records` records.
fn listing(first: usize, usable: usize, records: usize, records_filtered: usize) -> PageAnswer {
    PageAnswer::Page(ReportPage {
        rows: (first..first + usable).map(|n| report(&n.to_string())).collect(),
        records,
        records_filtered,
    })
}

/// A page whose records all have a report entry.
fn full(first: usize, records: usize, records_filtered: usize) -> PageAnswer {
    listing(first, records, records, records_filtered)
}

/// Runs a year: `pages` answers the searches in turn, and each report is answered by its URL.
fn run(mut pages: Vec<PageAnswer>) -> (SenateYear, Vec<usize>, usize) {
    pages.reverse();
    let mut starts: Vec<usize> = Vec::new();
    let mut asked: usize = 0;
    let mut step = ingest_year(2024, Some("tok".to_string()));
    loop {
        step = match step {
            IngestStep::FetchPage(turn) => {
                starts.push(turn.start());
                assert_eq!(turn.request().form[0].1, turn.start().to_string());
                assert_eq!(turn.request().form[4].1, "01/01/2024 00:00:00");
                assert_eq!(turn.request().form[11].1, "tok");
                turn.answered(pages.pop().expect("one more page"))
            }
            IngestStep::FetchReport(turn) => {
                assert_eq!(turn.report().url, asked.to_string());
                asked += 1;
                let outcome = match asked % 3 {
                    0 => ReportOutcome::Paper,
                    1 => ReportOutcome::Trades(trades(&turn.report().url)),
                    _ => ReportOutcome::Failed,
                };
                turn.answered(outcome)
            }
            IngestStep::Done(year) => {
                assert!(pages.is_empty());
                return (year, starts, asked);
            }
        }
    }
}

#[test]
fn a_year_holds_what_its_reports_came_to() {
    let (year, starts, asked) = run(vec![full(0, 7, 7)]);
    assert_eq!(starts, vec![0]);
    assert_eq!(asked, 7);
    assert_eq!(year.skipped_paper, 2);
    assert!(!year.blocked);
    let tickers: Vec<&str> = year.trades.iter().map(|t| t.ticker.as_str()).collect();
    assert_eq!(tickers, vec!["0", "3", "6"]);
}

#[test]
fn paging_goes_on_while_pages_are_full_and_more_is_listed() {
    let starts = |pages: Vec<PageAnswer>| run(pages).1;
    assert_eq!(
        starts(vec![full(0, 100, 250), full(100, 100, 250), full(200, 50, 250)]),
        vec![0, 100, 200]
    );
    assert_eq!(starts(vec![full(0, 100, 200), full(100, 100, 200)]), vec![0, 100]);
    assert_eq!(starts(vec![full(0, 99, 250)]), vec![0]);
    assert_eq!(starts(vec![full(0, 100, 100)]), vec![0]);
    assert_eq!(starts(vec![full(0, 100, 101), full(100, 0, 101)]), vec![0, 100]);
    assert_eq!(starts(vec![full(0, 130, 131), full(130, 1, 131)]), vec![0, 130]);
}

#[test]
fn records_without_a_report_count_for_paging() {
    let (year, starts, asked) = run(vec![listing(0, 99, 100, 150), full(99, 50, 150)]);
    assert_eq!(starts, vec![0, 100]);
    assert_eq!(asked, 149);
    assert_eq!(year.trades.len() + year.skipped_paper, 99);
    let (_, starts, asked) = run(vec![listing(0, 0, 100, 150), full(0, 50, 150)]);
    assert_eq!(starts, vec![0, 100]);
    assert_eq!(asked, 50);
    let (_, starts, asked) = run(vec![listing(0, 0, 99, 150)]);
    assert_eq!(starts, vec![0]);
    assert_eq!(asked, 0);
}

#[test]
fn every_listed_report_is_asked_for_once() {
    let (_, _, asked) = run(vec![full(0, 100, 250), full(100, 100, 250), full(200, 50, 250)]);
    assert_eq!(asked, 250);
}

#[test]
fn a_block_at_the_first_search_blocks_the_year() {
    for answer in [PageAnswer::Refused(403), PageAnswer::Unreachable] {
        let (year, starts, asked) = run(vec![answer]);
        assert_eq!(starts, vec![0]);
        assert_eq!(asked, 0);
        assert!(year.blocked);
        assert!(year.trades.is_empty());
        assert_eq!(year.skipped_paper, 0);
    }
}

#[test]
fn other_failures_of_the_first_search_do_not_block_the_year() {
    for answer in [PageAnswer::Refused(404), PageAnswer::Refused(500), PageAnswer::NotDecoded] {
        let (year, starts, asked) = run(vec![answer]);
        assert_eq!(starts, vec![0]);
        assert_eq!(asked, 0);
        assert!(!year.blocked);
        assert!(year.trades.is_empty());
    }
    assert!(!run(vec![full(0, 0, 9)]).0.blocked);
}

#[test]
fn a_later_failure_ends_paging_and_keeps_what_was_collected() {
    for answer in [
        PageAnswer::Refused(403),
        PageAnswer::Refused(500),
        PageAnswer::Unreachable,
        PageAnswer::NotDecoded,
    ] {
        let (year, starts, asked) = run(vec![full(0, 100, 250), answer]);
        assert_eq!(starts, vec![0, 100]);
        assert_eq!(asked, 100);
        assert_eq!(year.trades.len(), 34);
        assert_eq!(year.skipped_paper, 33);
        assert!(!year.blocked);
    }
}

use senate_efd::report::{
    parse_efd_ptr_html, parse_report_list_json, RawDataTables, ReportPage, ReportRef,
};
use senate_efd::trade::{Chamber, Owner, Trade, TxnType};
use serde_json::Value;

const LIST: &str = r#"{
    "draw": 1,
    "recordsTotal": 2,
    "recordsFiltered": 2,
    "data": [
        [" Thomas ", "Carper\n", "DE",
         "<a href=\"/search/view/ptr/abc-123/\" target=\"_blank\">Periodic Transaction Report</a>",
         "01/15/2024"],
        ["Jane", "Doe", "Senator",
         "<a href=\"/search/view/paper/FEED/\">Periodic Transaction Report</a>",
         "02/01/2024"]
    ],
    "result": "ok"
}"#;

/// Decodes an answer of the report search.
fn decode(body: &str) -> Result<RawDataTables, serde_json::Error> {
    let mut value: Value = serde_json::from_str(body)?;
    let data = serde_json::from_value(value["data"].take())?;
    let records_filtered = match value.get("recordsFiltered") {
        Some(n) => serde_json::from_value(n.clone())?,
        None => 0,
    };
    Ok(RawDataTables { data, records_filtered })
}

fn page(body: &str) -> ReportPage {
    match parse_report_list_json(decode(body)) {
        Ok(page) => page,
        Err(e) => panic!("{e}"),
    }
}

#[test]
fn parses_report_list_fixture() {
    let page = page(LIST);
    assert_eq!(page.records_filtered, 2);
    assert_eq!(page.rows.len(), 2);
    let r = &page.rows[0];
    assert_eq!(r.first, "Thomas");
    assert_eq!(r.last, "Carper");
    assert_eq!(r.state, "DE");
    assert_eq!(r.filing_date, 20240115);
    assert!(
        r.url
            .starts_with("https://efdsearch.senate.gov/search/view/ptr/"),
        "got {}",
        r.url
    );
    // The paper filing keeps its /paper/ url so the fetcher counts it skipped.
    assert!(page.rows[1].url.contains("/paper/"));
}

fn rows(cells: &[&[&str]]) -> Vec<ReportRef> {
    let data = cells.iter().map(|row| row.iter().map(|c| c.to_string()).collect()).collect();
    let raw = RawDataTables { data, records_filtered: 7 };
    match parse_report_list_json::<()>(Ok(raw)) {
        Ok(page) => {
            assert_eq!(page.records_filtered, 7);
            assert_eq!(page.records, cells.len());
            page.rows
        }
        Err(()) => panic!("no page"),
    }
}

#[test]
fn rows_without_link_or_cells_are_passed_over() {
    let link = "<a href=\"/x/\">";
    let list = rows(&[
        &["a", "b", "c", link],
        &["a", "b", "c", "no link", "01/01/2024"],
        &["a", "b", "c", link, "soon", "more", "still more"],
        &[],
    ]);
    assert_eq!(
        list,
        vec![ReportRef {
            first: "a".to_string(),
            last: "b".to_string(),
            state: "c".to_string(),
            url: "https://efdsearch.senate.gov/x/".to_string(),
            filing_date: 0,
        }]
    );
}

#[test]
fn report_lists_are_read_row_by_row() {
    let one: &[&str] = &["a", "b", "c", "<a href=\"/1\">", "01/01/2024"];
    let two: &[&str] = &["d", "e", "f", "<a href=\"/2\">", "01/02/2024"];
    let bad: &[&str] = &["g"];
    let mut separate = rows(&[one, bad]);
    separate.append(&mut rows(&[two]));
    assert_eq!(rows(&[one, bad, two]), separate);
}

#[test]
fn urls_are_absolute() {
    let list = rows(&[
        &["a", "b", "c", "<a href=\"http://host/x\">", "01/01/2024"],
        &["a", "b", "c", "<a href=\"https://host/x\">", "01/01/2024"],
        &["a", "b", "c", "<a href=\"/x\">", "01/01/2024"],
        &["a", "b", "c", "<a href=\"\">", "01/01/2024"],
    ]);
    let urls: Vec<&str> = list.iter().map(|r| r.url.as_str()).collect();
    assert_eq!(
        urls,
        vec![
            "http://host/x",
            "https://host/x",
            "https://efdsearch.senate.gov/x",
            "https://efdsearch.senate.gov",
        ]
    );
}

#[test]
fn an_answer_that_is_not_decoded_stays_an_error() {
    assert!(matches!(parse_report_list_json(Err::<RawDataTables, u8>(5)), Err(5)));
    assert!(parse_report_list_json(decode("{")).is_err());
    assert!(parse_report_list_json(decode("{}")).is_err());
    assert!(parse_report_list_json(decode(r#"{"data": [[1]]}"#)).is_err());
    assert_eq!(page(r#"{"data": []}"#).records_filtered, 0);
    assert!(page(r#"{"data": []}"#).rows.is_empty());
}

fn report() -> ReportRef {
    ReportRef {
        first: "Thomas".into(),
        last: "Carper".into(),
        state: "DE".into(),
        url: "https://efdsearch.senate.gov/search/view/ptr/abc-123/".into(),
        filing_date: 20240115,
    }
}

const PAGE: &str = r#"<html><body><table class="table">
<thead><tr class="header"><th>#</th><th>Owner</th><th>Ticker</th><th>Asset Name</th>
<th>Asset Type</th><th>Type</th><th>Comment</th><th>Transaction Date</th><th>Amount</th></tr></thead>
<tbody>
<tr><td>1</td><td>Spouse</td><td><a href="https://finance.yahoo.com/q?s=AAPL">AAPL</a></td>
<td>Apple Inc.</td><td>Stock</td><td>Purchase</td><td>--</td><td>01/03/2024</td>
<td>$1,001 - $15,000</td></tr>
<TR><TD>2</TD><TD>Self</TD><TD>MSFT</TD><TD>Microsoft&nbsp;Corporation</TD><TD>Stock</TD>
<TD>Sale (Full)</TD><TD>--</TD><TD>01/04/2024</TD><TD>$15,001 - $50,000</TD></TR>
<tr><td>3</td><td>Joint</td><td>NVDA</td><td>NVIDIA [OP]</td><td>Stock Option</td>
<td>Sale (Partial)</td><td>--</td><td>01/05/2024</td><td>$50,001 - $100,000</td></tr>
</tbody></table></body></html>"#;

#[test]
fn parses_electronic_ptr_html_fixture() {
    let report = report();
    let trades = parse_efd_ptr_html(PAGE, &report);
    assert_eq!(trades.len(), 3, "expected 3 transactions");

    let aapl = trades.iter().find(|t| t.ticker == "AAPL").expect("AAPL");
    assert_eq!(aapl.txn_type, TxnType::Purchase);
    assert_eq!(aapl.amount_low, 1001);
    assert_eq!(aapl.amount_high, 15000);
    assert_eq!(aapl.txn_date, 20240103);
    assert_eq!(aapl.owner, Owner::Spouse);
    assert_eq!(aapl.chamber, Chamber::Senate);
    assert_eq!(aapl.source, "senate_efd");
    assert_eq!(aapl.asset_type, "stock");
    assert_eq!(aapl.doc_id, "abc-123");

    let msft = trades.iter().find(|t| t.ticker == "MSFT").expect("MSFT");
    assert_eq!(msft.txn_type, TxnType::Sale);
    assert_eq!(msft.amount_low, 15001);
    assert_eq!(msft.amount_high, 50000);

    let nvda = trades.iter().find(|t| t.ticker == "NVDA").expect("NVDA");
    assert_eq!(nvda.txn_type, TxnType::PartialSale);
}

#[test]
fn a_whole_trade() {
    let mut filer = report();
    filer.first = "  Jane ".into();
    filer.last = "".into();
    let html = "<tr><td>9</td><td>Dependent</td><td> -- </td><td>X &amp;amp; Y  Option</td>\
                <td>Other</td><td>Exchange</td><td></td><td>2/29/2024 9:00</td><td>$7</td></tr>";
    assert_eq!(
        parse_efd_ptr_html(html, &filer),
        vec![Trade {
            filing_date: 20240115,
            doc_id: "abc-123".into(),
            chamber: Chamber::Senate,
            member_name: "Jane".into(),
            party: "".into(),
            bioguide_id: "".into(),
            state: "DE".into(),
            district: "".into(),
            txn_date: 20240229,
            notification_date: 0,
            ticker: "".into(),
            asset_description: "X & Y Option".into(),
            asset_type: "option".into(),
            txn_type: TxnType::Exchange,
            amount_low: 7,
            amount_high: 7,
            owner: Owner::Child,
            source: "senate_efd".into(),
        }]
    );
}

fn row(cells: &[&str]) -> String {
    let mut out = String::from("<tr>");
    for cell in cells {
        out.push_str(&format!("<td>{cell}</td>"));
    }
    out.push_str("</tr>");
    out
}

#[test]
fn rows_that_are_no_transactions_are_passed_over() {
    let good = ["1", "Self", "T", "AT&amp;T", "Stock", "Sale", "", "01/02/2024", "$1"];
    let report = report();
    assert_eq!(parse_efd_ptr_html(&row(&good), &report).len(), 1);
    assert_eq!(parse_efd_ptr_html(&row(&good[..8]), &report).len(), 0);
    let mut bad = good;
    bad[5] = "Gift";
    assert_eq!(parse_efd_ptr_html(&row(&bad), &report).len(), 0);
    let mut bad = good;
    bad[7] = "Transaction Date";
    assert_eq!(parse_efd_ptr_html(&row(&bad), &report).len(), 0);
    assert_eq!(parse_efd_ptr_html("<p>scanned</p>", &report).len(), 0);
    let mut coded = good;
    coded[5] = "P";
    assert_eq!(parse_efd_ptr_html(&row(&coded), &report)[0].txn_type, TxnType::Purchase);
}

#[test]
fn written_transactions_are_read_back_in_order() {
    let one = ["1", "Self", "A", "a", "Stock", "Sale", "", "01/02/2024", "$1"];
    let two = ["2", "Self", "B", "b", "Stock", "Purchase", "", "01/03/2024", "$2"];
    let html = format!("<h1>{}</h1>{}{}", "x", row(&one), row(&two));
    let tickers: Vec<String> =
        parse_efd_ptr_html(&html, &report()).into_iter().map(|t| t.ticker).collect();
    assert_eq!(tickers, vec!["A", "B"]);
}

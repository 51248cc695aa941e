use senate_efd::html::{clean, extract_csrf, extract_href, row_cells, strip_tags, table_rows};

#[test]
fn extracts_csrf_token() {
    let html = r#"<input type="hidden" name="csrfmiddlewaretoken" value="abc123XYZ">"#;
    assert_eq!(extract_csrf(html).as_deref(), Some("abc123XYZ"));
    assert_eq!(extract_csrf("<form></form>"), None);
}

#[test]
fn csrf_token_edge_cases() {
    assert_eq!(
        extract_csrf(r#"<input value="early" name="csrfmiddlewaretoken" value="late">"#).as_deref(),
        Some("late")
    );
    assert_eq!(extract_csrf(r#"name="csrfmiddlewaretoken" value="open"#), None);
    assert_eq!(extract_csrf(r#"name="csrfmiddlewaretoken">"#), None);
    assert_eq!(extract_csrf(r#"name="csrfmiddlewaretoken" value="""#).as_deref(), Some(""));
    assert_eq!(extract_csrf(""), None);
}

#[test]
fn first_link() {
    assert_eq!(
        extract_href(r#"<a href="/a/" target="x"><b href="/b/"></a>"#).as_deref(),
        Some("/a/")
    );
    assert_eq!(extract_href(r#"<a href="/é/">"#).as_deref(), Some("/é/"));
    assert_eq!(extract_href(r#"<a href='/a/'>"#), None);
    assert_eq!(extract_href(r#"<a href="/a/>"#), None);
    assert_eq!(extract_href(r#"<a HREF="/a/">"#), None);
    assert_eq!(extract_href("hrefhref=\"x\"").as_deref(), Some("x"));
}

fn collapse(s: &str) -> String {
    s.replace("&amp;", "&")
        .replace("&nbsp;", " ")
        .split_whitespace()
        .collect::<Vec<_>>()
        .join(" ")
}

#[test]
fn cleaning_agrees_with_std() {
    for s in [
        "",
        " ",
        "a",
        "  a \t\n b  ",
        "A&amp;B",
        "&amp;amp;",
        "&amp;nbsp;x",
        "&nbsp;&nbsp;x&nbsp;y&nbsp;",
        "&am&amp;p;",
        "&amp",
        "&AMP; &NBSP;",
        "é\u{a0}ü\u{2003}\u{3000}ß\u{200b}z",
        "\u{85}x\u{1680}y\u{2028}z\u{2029}\u{202f}\u{205f}",
        "&&amp;&amp;&",
    ] {
        assert_eq!(clean(s), collapse(s), "{s:?}");
    }
    assert_eq!(clean("  Sale \u{a0} &amp;  Co.&nbsp;"), "Sale & Co.");
}

#[test]
fn cleaning_twice_changes_nothing() {
    for s in ["  a  b ", "x&nbsp;y", "P &amp; G", "\t", "&nb&nbsp;sp;", "&amp;nbsp;"] {
        let once = clean(s);
        assert_eq!(clean(&once), once);
    }
    assert_eq!(clean("&amp;amp;"), "&amp;");
    assert_eq!(clean(&clean("&amp;amp;")), "&");
}

#[test]
fn tags_are_stripped() {
    assert_eq!(strip_tags("<a href=\"x\">AAPL</a>"), "AAPL");
    assert_eq!(strip_tags(" a <br/> b "), "a b");
    assert_eq!(strip_tags("a<b"), "a");
    assert_eq!(strip_tags("a>b"), "ab");
    assert_eq!(strip_tags("<<x>y>z"), "yz");
    assert_eq!(strip_tags("plain"), "plain");
    assert_eq!(strip_tags("AT<b>&amp;</b>T"), "AT&T");
}

#[test]
fn rows_of_a_table() {
    assert_eq!(
        table_rows("<table><tr><td>1</td></tr>\n<TR class=\"x\">Two</tR></table>"),
        vec!["<td>1</td>", "Two"]
    );
    assert_eq!(table_rows("<tr>a<tr>b</tr>c</tr>"), vec!["a<tr>b"]);
    assert_eq!(table_rows("<tr>a</tr><tr>b"), vec!["a"]);
    assert_eq!(table_rows("<tr"), Vec::<String>::new());
    assert_eq!(table_rows("<tr></tr>"), vec![""]);
    assert_eq!(table_rows("no table"), Vec::<String>::new());
    assert_eq!(table_rows("ÄÖ<tr>é</tr>ß<tr>ü</tr>"), vec!["é", "ü"]);
}

#[test]
fn rows_do_not_depend_on_the_case_of_tags() {
    let upper = "<TR>Ab</TR><TR>Cd</TR>";
    let lower = "<tr>Ab</tr><tr>Cd</tr>";
    assert_eq!(table_rows(upper), table_rows(lower));
    assert_eq!(row_cells("<TD>Ab</TD>"), row_cells("<td>Ab</td>"));
}

#[test]
fn written_rows_and_cells_are_read_back() {
    let cells = ["1", "Spouse", "P &amp; G", "", "a  b"];
    let mut row = String::new();
    for cell in cells {
        row.push_str(&format!("<td>{cell}</td>"));
    }
    let page = format!("<h1>x</h1><tr>{row}</tr><tr>{row}</tr>");
    assert_eq!(table_rows(&page), vec![row.clone(), row.clone()]);
    assert_eq!(row_cells(&row), vec!["1", "Spouse", "P & G", "", "a b"]);
}

#[test]
fn cells_of_a_row() {
    assert_eq!(
        row_cells("<td>1</td> x <td class=\"c\"><a href=\"u\"> A\nB </a></td>"),
        vec!["1", "A B"]
    );
    assert_eq!(row_cells("<TD>a</Td><td>b"), vec!["a"]);
    assert_eq!(row_cells("<td"), Vec::<String>::new());
    assert_eq!(row_cells(""), Vec::<String>::new());
}

#[test]
fn header_cells_are_cells() {
    assert_eq!(row_cells("<th>#</th><th>Owner</th>"), vec!["#", "Owner"]);
    assert_eq!(row_cells("<th>1</th><td>a</td><th>2</th>"), vec!["1", "a", "2"]);
    assert_eq!(row_cells("<th>x<td>a</td>"), vec!["a"]);
    assert_eq!(row_cells("<td>x<th>a</th>"), vec!["a"]);
}

#[test]
fn longer_tag_names_are_no_header_cells() {
    assert_eq!(row_cells("<thead><td>a</td><th>b</th>"), vec!["a", "b"]);
    assert_eq!(row_cells("<THEAD><TH\nscope=\"col\">a</TH></THEAD>"), vec!["a"]);
    assert_eq!(row_cells("<theader>x</th>"), Vec::<String>::new());
    assert_eq!(row_cells("<th"), Vec::<String>::new());
}

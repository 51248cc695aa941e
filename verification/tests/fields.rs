use senate_efd::fields::{
    classify_asset, normalize_type, parse_amount, parse_efd_date, parse_owner, report_id,
};
use senate_efd::trade::{Owner, TxnType};

#[test]
fn amount_band_parses() {
    assert_eq!(parse_amount("$1,001 - $15,000"), (1001, 15000));
    assert_eq!(parse_amount("$50,001 - $100,000"), (50001, 100000));
    assert_eq!(parse_amount("--"), (0, 0));
}

#[test]
fn type_and_owner_normalize() {
    assert_eq!(normalize_type("Purchase"), "P");
    assert_eq!(normalize_type("Sale (Full)"), "S");
    assert_eq!(normalize_type("Sale (Partial)"), "S (partial)");
    assert_eq!(parse_owner("Spouse"), Owner::Spouse);
    assert_eq!(parse_owner("Self"), Owner::SelfFiler);
    assert_eq!(parse_owner("Dependent Child"), Owner::Child);
}

#[test]
fn amount_edge_cases() {
    assert_eq!(parse_amount("$250"), (250, 250));
    assert_eq!(parse_amount(""), (0, 0));
    assert_eq!(parse_amount("1,001 - 15,000"), (0, 0));
    assert_eq!(parse_amount("$ 5"), (0, 0));
    assert_eq!(parse_amount("Over $50,000,000"), (50000000, 50000000));
    assert_eq!(parse_amount("$,1,,2, - $3"), (12, 3));
    assert_eq!(parse_amount("$1 $2 $3"), (1, 2));
    assert_eq!(parse_amount("$$7"), (7, 7));
    assert_eq!(parse_amount("$1.99 - $2.50"), (1, 2));
    assert_eq!(parse_amount("&nbsp;$10&nbsp;-&nbsp;$20"), (10, 20));
    assert_eq!(
        parse_amount("$9,223,372,036,854,775,807"),
        (9223372036854775807, 9223372036854775807)
    );
    assert_eq!(parse_amount("$9223372036854775808 - $4"), (4, 4));
    assert_eq!(parse_amount("$000000000000000000000000000012"), (12, 12));
}

#[test]
fn dates() {
    assert_eq!(parse_efd_date("01/15/2024"), 20240115);
    assert_eq!(parse_efd_date("1/5/2024"), 20240105);
    assert_eq!(parse_efd_date("  12/31/1999 10:20:30 PM"), 19991231);
    assert_eq!(parse_efd_date("\u{a0}12/31/1999\u{3000}x"), 19991231);
    assert_eq!(parse_efd_date("+1/+2/+2024"), 20240102);
    assert_eq!(parse_efd_date("02/31/2024"), 20240231);
    assert_eq!(parse_efd_date("01/01/1900"), 19000101);
    assert_eq!(parse_efd_date("12/31/214748"), 2147481231);
}

#[test]
fn texts_without_a_date_give_zero() {
    for s in [
        "", " ", "2024", "1/2", "1/2/2024/3", "0/1/2024", "13/1/2024", "1/0/2024", "1/32/2024",
        "1/1/1899", "-1/1/2024", "1/1/-2024", "a/1/2024", "1/b/2024", "1/1/c", "//", "1//2024",
        "+/1/2024", "1/1/2024x", "1 /1/2024", "Transaction Date", "1/1/2147483648",
        "1/1/214749", "1/1/2147483647",
    ] {
        assert_eq!(parse_efd_date(s), 0, "{s:?}");
    }
}

#[test]
fn dates_keep_calendar_order() {
    let days = ["12/31/2022", "01/01/2023", "01/02/2023", "02/01/2023", "12/01/2023", "01/01/2024"];
    for pair in days.windows(2) {
        assert!(parse_efd_date(pair[0]) < parse_efd_date(pair[1]));
    }
}

#[test]
fn owners() {
    assert_eq!(parse_owner("<b>JOINT</b>"), Owner::Joint);
    assert_eq!(parse_owner("Child"), Owner::Child);
    assert_eq!(parse_owner("dependent"), Owner::Child);
    assert_eq!(parse_owner("Joint with spouse"), Owner::Spouse);
    assert_eq!(parse_owner("SPO&amp;USE"), Owner::SelfFiler);
    assert_eq!(parse_owner(""), Owner::SelfFiler);
}

#[test]
fn type_labels() {
    assert_eq!(normalize_type("EXCHANGE"), "E");
    assert_eq!(normalize_type("Sold"), "S");
    assert_eq!(normalize_type("Partial purchase"), "S (partial)");
    assert_eq!(normalize_type("  S   (partial) "), "S (partial)");
    assert_eq!(normalize_type("  Gift \n received "), "Gift received");
    assert_eq!(normalize_type("P"), "P");
}

#[test]
fn codes() {
    assert_eq!(TxnType::from_code("P"), Some(TxnType::Purchase));
    assert_eq!(TxnType::from_code("S"), Some(TxnType::Sale));
    assert_eq!(TxnType::from_code("S (partial)"), Some(TxnType::PartialSale));
    assert_eq!(TxnType::from_code("E"), Some(TxnType::Exchange));
    assert_eq!(TxnType::from_code(""), None);
    assert_eq!(TxnType::from_code("Gift"), None);
}

#[test]
fn every_named_type_has_a_code() {
    for label in ["Purchase", "Sale", "Sale (Full)", "Sale (Partial)", "Exchange", "sold"] {
        assert!(TxnType::from_code(&normalize_type(label)).is_some(), "{label}");
    }
    assert_eq!(TxnType::from_code(&normalize_type("Type")), None);
}

#[test]
fn assets() {
    assert_eq!(classify_asset("Stock", "Apple Inc."), "stock");
    assert_eq!(classify_asset("", "Apple Inc. [ST]"), "stock");
    assert_eq!(classify_asset("Stock Option", ""), "stock");
    assert_eq!(classify_asset("Option", ""), "option");
    assert_eq!(classify_asset("Option", "Acme [ST]"), "option");
    assert_eq!(classify_asset("Other", "Call OPTION on X"), "option");
    assert_eq!(classify_asset("Other", "Option on Acme [ST]"), "stock");
    assert_eq!(classify_asset("Municipal Security", "Bond"), "other");
}

#[test]
fn identifiers() {
    assert_eq!(report_id("https://efdsearch.senate.gov/search/view/ptr/abc-123/"), "abc-123");
    assert_eq!(report_id("https://efdsearch.senate.gov/search/view/ptr/abc-123"), "abc-123");
    assert_eq!(report_id("/x/abc///"), "abc");
    assert_eq!(report_id("abc"), "abc");
    assert_eq!(report_id("///"), "");
    assert_eq!(report_id(""), "");
}

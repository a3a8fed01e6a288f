use std::io::Write;

use tsv_search::gzip::find_row_in_gzipped_tsv;
use tsv_search::query::get_query_param;
use tsv_search::respond;
use tsv_search::scan::{scan_text, SearchOutcome};

fn gz(data: &str) -> Vec<u8> {
    let mut enc = flate2::write::GzEncoder::new(Vec::new(), flate2::Compression::default());
    enc.write_all(data.as_bytes()).unwrap();
    enc.finish().unwrap()
}

const DATASET: &str = "1.1.1.1\t100\tUS\tHostA\n2.2.2.2\t200\tDE\tHostB\n";

#[test]
fn param_simple() {
    assert_eq!(get_query_param("search_term=abc", "search_term"), Some("abc".to_string()));
}

#[test]
fn param_first_occurrence_wins() {
    let q = "a=1&search_term=X&search_term=Y&b=2";
    assert_eq!(get_query_param(q, "search_term"), Some("X".to_string()));
}

#[test]
fn param_verbatim_no_decoding() {
    let q = "search_term=hello%20world%26x";
    assert_eq!(get_query_param(q, "search_term"), Some("hello%20world%26x".to_string()));
}

#[test]
fn param_value_keeps_later_equals() {
    assert_eq!(get_query_param("search_term=a=b=c", "search_term"), Some("a=b=c".to_string()));
}

#[test]
fn param_segment_without_equals_skipped() {
    assert_eq!(get_query_param("search_term&search_term=v", "search_term"), Some("v".to_string()));
}

#[test]
fn param_absent() {
    assert_eq!(get_query_param("a=1&b=2", "search_term"), None);
    assert_eq!(get_query_param("", "search_term"), None);
    assert_eq!(get_query_param("searchterm=1", "search_term"), None);
}

#[test]
fn param_empty_value() {
    assert_eq!(get_query_param("search_term=", "search_term"), Some(String::new()));
}

#[test]
fn missing_param_envelope() {
    let out = respond("a=1&b=2", &Ok(gz(DATASET)));
    assert_eq!(out, "{\"result\":null,\"error\":\"Missing 'search_term' query parameter.\"}");
}

#[test]
fn found_row_envelope() {
    let out = respond("search_term=200", &Ok(gz(DATASET)));
    assert_eq!(
        out,
        "{\"result\":{\"IP\":\"2.2.2.2\",\"Number\":\"200\",\"Country\":\"DE\",\"Host\":\"HostB\"},\"error\":null}"
    );
}

#[test]
fn found_row_fields() {
    match find_row_in_gzipped_tsv(&gz(DATASET), "200") {
        SearchOutcome::Found(row) => {
            assert_eq!(row.ip, "2.2.2.2");
            assert_eq!(row.number, "200");
            assert_eq!(row.country, "DE");
            assert_eq!(row.host, "HostB");
        }
        _ => panic!("expected a found row"),
    }
}

#[test]
fn first_matching_line_wins() {
    let data = "1.1.1.1\t100\tUS\tHostA\n9.9.9.9\t100\tFR\tHostC\n";
    match find_row_in_gzipped_tsv(&gz(data), "100") {
        SearchOutcome::Found(row) => assert_eq!(row.ip, "1.1.1.1"),
        _ => panic!("expected a found row"),
    }
}

#[test]
fn no_match_envelope() {
    let out = respond("search_term=ZZZ", &Ok(gz(DATASET)));
    assert_eq!(out, "{\"result\":null,\"error\":\"No matching row found.\"}");
}

#[test]
fn schema_mismatch_three_fields() {
    let data = "1.1.1.1\t100\tUS\tHostA\nbad\t200\tDE\n";
    let out = respond("search_term=200", &Ok(gz(data)));
    assert_eq!(
        out,
        "{\"result\":null,\"error\":\"Error: Expected 4 columns, but got 3: bad\\u0009200\\u0009DE\"}"
    );
}

#[test]
fn schema_mismatch_five_fields() {
    let data = "1.1.1.1\t100\tUS\tHostA\textra\n";
    match find_row_in_gzipped_tsv(&gz(data), "100") {
        SearchOutcome::SchemaMismatch { got, line } => {
            assert_eq!(got, 5);
            assert_eq!(line, "1.1.1.1\t100\tUS\tHostA\textra");
        }
        _ => panic!("expected a schema mismatch"),
    }
}

#[test]
fn fetch_error_envelope() {
    let out = respond("search_term=200", &Err("connection refused".to_string()));
    assert_eq!(out, "{\"result\":null,\"error\":\"Error: connection refused\"}");
}

#[test]
fn decompress_error_envelope() {
    let garbage: Vec<u8> = vec![0x00, 0x01, 0x02, 0x03];
    let out = respond("search_term=200", &Ok(garbage));
    assert!(out.starts_with("{\"result\":null,\"error\":\"Error: "));
    assert!(out.ends_with("\"}"));
}

#[test]
fn repeated_invocations_identical() {
    let fetch = Ok(gz(DATASET));
    let out1 = respond("search_term=200", &fetch);
    let out2 = respond("search_term=200", &fetch);
    assert_eq!(out1.as_bytes(), out2.as_bytes());
}

#[test]
fn exactly_one_side_null() {
    let outputs = vec![
        respond("search_term=200", &Ok(gz(DATASET))),
        respond("search_term=ZZZ", &Ok(gz(DATASET))),
        respond("a=1", &Ok(gz(DATASET))),
        respond("search_term=200", &Err("down".to_string())),
        respond("search_term=200", &Ok(vec![0xff, 0xfe])),
        respond("search_term=200", &Ok(gz("short\tline\tonly\n"))),
    ];
    for out in outputs {
        let result_null = out.starts_with("{\"result\":null,");
        let error_null = out.ends_with("\"error\":null}");
        assert!(result_null != error_null, "envelope not exclusive: {}", out);
    }
}

#[test]
fn json_escaping_in_fields() {
    let data = "q\"uo\\te\t1\tX\tY\n";
    let out = respond("search_term=quo", &Ok(gz(data)));
    assert_eq!(out, "{\"result\":null,\"error\":\"No matching row found.\"}");
    let out = respond("search_term=uo\\te", &Ok(gz(data)));
    assert_eq!(
        out,
        "{\"result\":{\"IP\":\"q\\\"uo\\\\te\",\"Number\":\"1\",\"Country\":\"X\",\"Host\":\"Y\"},\"error\":null}"
    );
}

#[test]
fn json_escaping_control_character() {
    let data = "a\u{1}b\t1\tX\tY\n";
    let out = respond("search_term=b", &Ok(gz(data)));
    assert_eq!(
        out,
        "{\"result\":{\"IP\":\"a\\u0001b\",\"Number\":\"1\",\"Country\":\"X\",\"Host\":\"Y\"},\"error\":null}"
    );
}

#[test]
fn crlf_line_endings_stripped() {
    let data = "1.1.1.1\t100\tUS\tHostA\r\n2.2.2.2\t200\tDE\tHostB\r\n";
    match find_row_in_gzipped_tsv(&gz(data), "HostB") {
        SearchOutcome::Found(row) => assert_eq!(row.host, "HostB"),
        _ => panic!("expected a found row"),
    }
}

#[test]
fn empty_dataset_not_found() {
    let out = respond("search_term=x", &Ok(gz("")));
    assert_eq!(out, "{\"result\":null,\"error\":\"No matching row found.\"}");
}

#[test]
fn last_line_without_newline() {
    let data = "1.1.1.1\t100\tUS\tHostA";
    match find_row_in_gzipped_tsv(&gz(data), "HostA") {
        SearchOutcome::Found(row) => assert_eq!(row.host, "HostA"),
        _ => panic!("expected a found row"),
    }
}

#[test]
fn scan_text_directly() {
    match scan_text("x\ty\tz\tw", "y") {
        SearchOutcome::Found(row) => {
            assert_eq!(row.ip, "x");
            assert_eq!(row.number, "y");
            assert_eq!(row.country, "z");
            assert_eq!(row.host, "w");
        }
        _ => panic!("expected a found row"),
    }
    assert!(matches!(scan_text("", "y"), SearchOutcome::NotFound));
}

#[test]
fn match_spans_no_field_boundary() {
    // the term must occur inside a single field, not across a tab
    let data = "ab\tcd\tE\tF\n";
    assert!(matches!(scan_text("ab\tcd\tE\tF", "bc"), SearchOutcome::NotFound));
    let out = respond("search_term=bc", &Ok(gz(data)));
    assert_eq!(out, "{\"result\":null,\"error\":\"No matching row found.\"}");
}

#[test]
fn empty_search_term_matches_first_line() {
    match find_row_in_gzipped_tsv(&gz(DATASET), "") {
        SearchOutcome::Found(row) => assert_eq!(row.ip, "1.1.1.1"),
        _ => panic!("expected a found row"),
    }
}

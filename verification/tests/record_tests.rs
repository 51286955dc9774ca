use evtxgrep::casefold::ascii_upper;
use evtxgrep::record_info::sort_records;
use evtxgrep::record_info::tabular_line;
use evtxgrep::record_info::RecordInfo;
use evtxgrep::text::str_eq;
use evtxgrep::text::u64_to_decimal;

fn rec(id: u64) -> RecordInfo {
    RecordInfo::new(format!("<Event>{}</Event>", id), id, format!("ts{}", id))
}

#[test]
fn buffered_sort_emits_ascending_by_record_id() {
    let records = vec![rec(5), rec(1), rec(3)];
    let sorted = sort_records(records);
    let ids: Vec<u64> = sorted.iter().map(|r| r.event_record_id).collect();
    assert_eq!(ids, vec![1, 3, 5]);
}

#[test]
fn sort_keeps_each_record_with_its_own_fields() {
    let records = vec![rec(20), rec(10)];
    let sorted = sort_records(records);
    assert_eq!(sorted[0].event_record_id, 10);
    assert_eq!(sorted[0].xml_data, "<Event>10</Event>");
    assert_eq!(sorted[0].timestamp, "ts10");
    assert_eq!(sorted[1].event_record_id, 20);
    assert_eq!(sorted[1].xml_data, "<Event>20</Event>");
}

#[test]
fn sort_handles_already_sorted_and_empty_input() {
    let sorted = sort_records(vec![rec(1), rec(2), rec(3)]);
    let ids: Vec<u64> = sorted.iter().map(|r| r.event_record_id).collect();
    assert_eq!(ids, vec![1, 2, 3]);
    assert_eq!(sort_records(Vec::new()).len(), 0);
}

#[test]
fn sort_is_total_on_larger_shuffles() {
    let records = vec![rec(8), rec(2), rec(9), rec(4), rec(7), rec(1), rec(6)];
    let sorted = sort_records(records);
    let ids: Vec<u64> = sorted.iter().map(|r| r.event_record_id).collect();
    assert_eq!(ids, vec![1, 2, 4, 6, 7, 8, 9]);
}

#[test]
fn tabular_line_joins_with_semicolons() {
    let line = tabular_line(42, "2021-01-01T00:00:00Z", "svc", "7036");
    assert_eq!(line, "42;2021-01-01T00:00:00Z;svc;7036");
}

#[test]
fn decimal_rendering_is_exact() {
    assert_eq!(u64_to_decimal(0), "0");
    assert_eq!(u64_to_decimal(7), "7");
    assert_eq!(u64_to_decimal(10), "10");
    assert_eq!(u64_to_decimal(4624), "4624");
    assert_eq!(u64_to_decimal(u64::MAX), "18446744073709551615");
}

#[test]
fn ascii_upper_folds_only_ascii_letters() {
    assert_eq!(ascii_upper("Service Control Manager"), "SERVICE CONTROL MANAGER");
    assert_eq!(ascii_upper("abcdefghijklmnopqrstuvwxyz"), "ABCDEFGHIJKLMNOPQRSTUVWXYZ");
    assert_eq!(ascii_upper("ALREADY"), "ALREADY");
    assert_eq!(ascii_upper("mix3d_4nd-Punct!"), "MIX3D_4ND-PUNCT!");
    assert_eq!(ascii_upper(""), "");
}

#[test]
fn str_eq_compares_by_characters() {
    assert!(str_eq("same", "same"));
    assert!(!str_eq("same", "Same"));
    assert!(!str_eq("short", "shorter"));
    assert!(str_eq("", ""));
}

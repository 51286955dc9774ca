use evtxgrep::document::DocNode;
use evtxgrep::filter::DataFilter;
use evtxgrep::filter::RecordFilterSection;
use evtxgrep::filter::SystemFilter;
use evtxgrep::filter::SystemFilterType;
use evtxgrep::filter::XPathFilter;
use evtxgrep::pipeline::get_result;

fn leaf(name: &str, attributes: Vec<(String, String)>, text: &str) -> DocNode {
    DocNode {
        name: name.to_string(),
        attributes,
        children: Vec::new(),
        text: text.to_string(),
    }
}

fn section(name: &str, children: Vec<DocNode>) -> DocNode {
    DocNode {
        name: name.to_string(),
        attributes: Vec::new(),
        children,
        text: String::new(),
    }
}

fn event(children: Vec<DocNode>) -> DocNode {
    section("Event", children)
}

fn attr(key: &str, value: &str) -> (String, String) {
    (key.to_string(), value.to_string())
}

fn sys(kind: SystemFilterType, value: &str, ignore_case: bool) -> RecordFilterSection {
    RecordFilterSection::System(SystemFilter::new(kind, value.to_string(), ignore_case))
}

fn data(name: &str, value: &str, ignore_case: bool) -> RecordFilterSection {
    RecordFilterSection::EventData(DataFilter::new(
        name.to_string(),
        value.to_string(),
        ignore_case,
    ))
}

#[test]
fn event_id_selector_matches_equal_text() {
    let doc = event(vec![section("System", vec![leaf("EventID", Vec::new(), "4624")])]);
    let f = XPathFilter::new(vec![sys(SystemFilterType::EventID, "4624", false)], false);
    assert!(f.matches(&doc));
}

#[test]
fn event_id_selector_rejects_other_text() {
    let doc = event(vec![section("System", vec![leaf("EventID", Vec::new(), "4625")])]);
    let f = XPathFilter::new(vec![sys(SystemFilterType::EventID, "4624", false)], false);
    assert!(!f.matches(&doc));
}

#[test]
fn provider_ignore_case_matches_other_case() {
    let doc = event(vec![section(
        "System",
        vec![leaf("Provider", vec![attr("Name", "admin")], "")],
    )]);
    let folded = XPathFilter::new(vec![sys(SystemFilterType::Provider, "Admin", true)], false);
    assert!(folded.matches(&doc));
    let exact = XPathFilter::new(vec![sys(SystemFilterType::Provider, "Admin", false)], false);
    assert!(!exact.matches(&doc));
}

#[test]
fn conjunction_needs_every_selector() {
    let doc = event(vec![section(
        "System",
        vec![
            leaf("Provider", vec![attr("Name", "Service Control Manager")], ""),
            leaf("EventID", Vec::new(), "7040"),
        ],
    )]);
    let f = XPathFilter::new(
        vec![
            sys(SystemFilterType::Provider, "Service Control Manager", false),
            sys(SystemFilterType::EventID, "7036", false),
        ],
        false,
    );
    assert!(!f.matches(&doc));
    let satisfied = event(vec![section(
        "System",
        vec![
            leaf("Provider", vec![attr("Name", "Service Control Manager")], ""),
            leaf("EventID", Vec::new(), "7036"),
        ],
    )]);
    assert!(f.matches(&satisfied));
}

#[test]
fn disjunction_needs_one_selector() {
    let doc = event(vec![section(
        "System",
        vec![
            leaf("Provider", vec![attr("Name", "Service Control Manager")], ""),
            leaf("EventID", Vec::new(), "7040"),
        ],
    )]);
    let f = XPathFilter::new(
        vec![
            sys(SystemFilterType::Provider, "Service Control Manager", false),
            sys(SystemFilterType::EventID, "7036", false),
        ],
        true,
    );
    assert!(f.matches(&doc));
}

#[test]
fn data_field_matches_named_entry_text() {
    let doc = event(vec![section(
        "EventData",
        vec![leaf("Entry", vec![attr("Name", "TargetUserName")], "bob")],
    )]);
    let f = XPathFilter::new(vec![data("TargetUserName", "bob", false)], false);
    assert!(f.matches(&doc));
    let other = event(vec![section(
        "EventData",
        vec![leaf("Entry", vec![attr("Name", "TargetUserName")], "alice")],
    )]);
    assert!(!f.matches(&other));
}

#[test]
fn data_field_ignore_case_folds_name_and_value() {
    let doc = event(vec![section(
        "EventData",
        vec![leaf("Entry", vec![attr("Name", "targetusername")], "BOB")],
    )]);
    let folded = XPathFilter::new(vec![data("TargetUserName", "bob", true)], false);
    assert!(folded.matches(&doc));
    let exact = XPathFilter::new(vec![data("TargetUserName", "bob", false)], false);
    assert!(!exact.matches(&doc));
}

#[test]
fn attribute_selector_reads_first_occurrence() {
    let doc = event(vec![section(
        "System",
        vec![leaf(
            "Provider",
            vec![attr("Name", "First"), attr("Name", "Second")],
            "",
        )],
    )]);
    let first = XPathFilter::new(vec![sys(SystemFilterType::Provider, "First", false)], false);
    assert!(first.matches(&doc));
    let second = XPathFilter::new(vec![sys(SystemFilterType::Provider, "Second", false)], false);
    assert!(!second.matches(&doc));
}

#[test]
fn a_quote_in_a_value_is_matched_verbatim() {
    let doc = event(vec![section(
        "System",
        vec![leaf("Provider", vec![attr("Name", "O'Brien")], "")],
    )]);
    let f = XPathFilter::new(vec![sys(SystemFilterType::Provider, "O'Brien", false)], false);
    assert!(f.matches(&doc));
    let g = XPathFilter::new(vec![sys(SystemFilterType::Provider, "O'", false)], false);
    assert!(!g.matches(&doc));
}

#[test]
fn wrong_top_level_element_never_matches() {
    let doc = section("Report", vec![section("System", vec![leaf("EventID", Vec::new(), "1")])]);
    let f = XPathFilter::new(vec![sys(SystemFilterType::EventID, "1", false)], false);
    assert!(!f.matches(&doc));
}

#[test]
fn no_filter_passes_every_record() {
    let doc = event(vec![section("System", vec![leaf("EventID", Vec::new(), "77")])]);
    let r = get_result(&doc, &None, 9, "t0".to_string());
    assert!(r.is_some());
    let info = r.unwrap();
    assert_eq!(info.event_record_id, 9);
    assert_eq!(info.timestamp, "t0");
}

#[test]
fn filter_decides_get_result() {
    let doc = event(vec![section("System", vec![leaf("EventID", Vec::new(), "77")])]);
    let yes = Some(XPathFilter::new(vec![sys(SystemFilterType::EventID, "77", false)], false));
    assert!(get_result(&doc, &yes, 1, "t".to_string()).is_some());
    let no = Some(XPathFilter::new(vec![sys(SystemFilterType::EventID, "78", false)], false));
    assert!(get_result(&doc, &no, 1, "t".to_string()).is_none());
}

#[test]
fn get_result_serializes_the_tree_form() {
    let doc = event(vec![section("System", vec![leaf("EventID", Vec::new(), "77")])]);
    let r = get_result(&doc, &None, 1, "t".to_string()).unwrap();
    assert_eq!(
        r.xml_data,
        "<Event>\n  <System>\n    <EventID>77</EventID>\n  </System>\n</Event>"
    );
}

use evtxgrep::filter::DataFilter;
use evtxgrep::filter::RecordFilterSection;
use evtxgrep::filter::SystemFilter;
use evtxgrep::filter::SystemFilterType;
use evtxgrep::filter::XPathFilter;
use evtxgrep::pipeline::compile_filter;

#[test]
fn xpath_attribute_table() {
    assert_eq!(SystemFilterType::Provider.xpath_attribute(), "Provider/@Name");
    assert_eq!(SystemFilterType::EventID.xpath_attribute(), "EventID/text()");
    assert_eq!(SystemFilterType::Level.xpath_attribute(), "Level/text()");
    assert_eq!(SystemFilterType::Task.xpath_attribute(), "Task/text()");
    assert_eq!(SystemFilterType::Opcode.xpath_attribute(), "Opcode/text()");
    assert_eq!(SystemFilterType::Keywords.xpath_attribute(), "Keywords/text()");
    assert_eq!(
        SystemFilterType::TimeCreated.xpath_attribute(),
        "TimeCreated/@SystemTime"
    );
    assert_eq!(
        SystemFilterType::EventRecordID.xpath_attribute(),
        "EventRecordID/text()"
    );
    assert_eq!(
        SystemFilterType::ActivityID.xpath_attribute(),
        "Correlation/@ActivityID"
    );
    assert_eq!(
        SystemFilterType::RelatedActivityID.xpath_attribute(),
        "Correlation/@RelatedActivityID"
    );
    assert_eq!(
        SystemFilterType::ProcessID.xpath_attribute(),
        "Execution/@ProcessID"
    );
    assert_eq!(
        SystemFilterType::ThreadID.xpath_attribute(),
        "Execution/@ThreadID"
    );
    assert_eq!(SystemFilterType::Channel.xpath_attribute(), "Channel/text()");
    assert_eq!(SystemFilterType::Computer.xpath_attribute(), "Computer/text()");
    assert_eq!(SystemFilterType::UserID.xpath_attribute(), "Security/@UserID");
}

#[test]
fn the_closed_set_has_fifteen_named_fields() {
    let all = SystemFilterType::all();
    assert_eq!(all.len(), 15);
    let names: Vec<&str> = all.iter().map(|t| t.name()).collect();
    assert_eq!(
        names,
        vec![
            "Provider",
            "EventID",
            "Level",
            "Task",
            "Opcode",
            "Keywords",
            "TimeCreated",
            "EventRecordID",
            "ActivityID",
            "RelatedActivityID",
            "ProcessID",
            "ThreadID",
            "Channel",
            "Computer",
            "UserID"
        ]
    );
}

#[test]
fn a_quote_in_a_value_changes_only_the_diagnostic_text() {
    let f = SystemFilter::new(SystemFilterType::Provider, "O'Brien".to_string(), false);
    assert_eq!(f.to_string(), "System/Provider/@Name='O'Brien'");
}

#[test]
fn system_filter_renders_exact_path_and_value() {
    let f = SystemFilter::new(SystemFilterType::Provider, "Admin".to_string(), false);
    assert_eq!(f.to_string(), "System/Provider/@Name='Admin'");
}

#[test]
fn system_filter_ignore_case_folds_both_sides() {
    let f = SystemFilter::new(SystemFilterType::Provider, "Admin".to_string(), true);
    assert_eq!(
        f.to_string(),
        "translate(System/Provider/@Name,'abcdefghijklmnopqrstuvwxyz','ABCDEFGHIJKLMNOPQRSTUVWXYZ')='ADMIN'"
    );
}

#[test]
fn data_filter_renders_entry_lookup() {
    let f = DataFilter::new("TargetUserName".to_string(), "bob".to_string(), false);
    assert_eq!(f.to_string(), "EventData/Entry[@Name='TargetUserName']='bob'");
}

#[test]
fn data_filter_ignore_case_folds_name_and_value() {
    let f = DataFilter::new("TargetUserName".to_string(), "bob".to_string(), true);
    assert_eq!(
        f.to_string(),
        "translate(EventData/Entry[translate(@Name,'abcdefghijklmnopqrstuvwxyz','ABCDEFGHIJKLMNOPQRSTUVWXYZ')='TARGETUSERNAME'],'abcdefghijklmnopqrstuvwxyz','ABCDEFGHIJKLMNOPQRSTUVWXYZ')='BOB'"
    );
}

#[test]
fn filters_join_with_and() {
    let sections = vec![
        RecordFilterSection::System(SystemFilter::new(
            SystemFilterType::Provider,
            "Service Control Manager".to_string(),
            false,
        )),
        RecordFilterSection::System(SystemFilter::new(
            SystemFilterType::EventID,
            "7036".to_string(),
            false,
        )),
    ];
    let f = XPathFilter::new(sections, false);
    assert_eq!(
        f.filter(),
        "//Event[System/Provider/@Name='Service Control Manager' and System/EventID/text()='7036']"
    );
}

#[test]
fn filters_join_with_or() {
    let sections = vec![
        RecordFilterSection::System(SystemFilter::new(
            SystemFilterType::EventID,
            "4624".to_string(),
            false,
        )),
        RecordFilterSection::EventData(DataFilter::new(
            "TargetUserName".to_string(),
            "bob".to_string(),
            false,
        )),
    ];
    let f = XPathFilter::new(sections, true);
    assert_eq!(
        f.filter(),
        "//Event[System/EventID/text()='4624' or EventData/Entry[@Name='TargetUserName']='bob']"
    );
}

#[test]
fn single_selector_has_no_separator() {
    let sections = vec![RecordFilterSection::System(SystemFilter::new(
        SystemFilterType::Channel,
        "Security".to_string(),
        false,
    ))];
    let f = XPathFilter::new(sections, false);
    assert_eq!(f.filter(), "//Event[System/Channel/text()='Security']");
}

#[test]
fn zero_selectors_compile_to_no_filter() {
    let r = compile_filter(Vec::new(), false);
    assert!(r.is_none());
}

#[test]
fn nonempty_selectors_compile_to_some_filter() {
    let sections = vec![RecordFilterSection::System(SystemFilter::new(
        SystemFilterType::EventID,
        "1".to_string(),
        false,
    ))];
    let r = compile_filter(sections, false);
    assert!(r.is_some());
    assert_eq!(r.unwrap().filter(), "//Event[System/EventID/text()='1']");
}

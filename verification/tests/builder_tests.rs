use evtxgrep::document::DocNode;
use evtxgrep::events::build_document;
use evtxgrep::events::doc_events;
use evtxgrep::events::FieldEvent;
use evtxgrep::events::TreeBuilder;

fn start(name: &str, attributes: Vec<(String, String)>) -> FieldEvent {
    FieldEvent::StartElement {
        name: name.to_string(),
        attributes,
    }
}

fn empty(name: &str, attributes: Vec<(String, String)>) -> FieldEvent {
    FieldEvent::EmptyElement {
        name: name.to_string(),
        attributes,
    }
}

fn simple(name: &str, attributes: Vec<(String, String)>, content: &str) -> FieldEvent {
    FieldEvent::SimpleElement {
        name: name.to_string(),
        attributes,
        content: content.to_string(),
    }
}

fn chars(text: &str) -> FieldEvent {
    FieldEvent::Characters {
        text: text.to_string(),
    }
}

fn end(name: &str) -> FieldEvent {
    FieldEvent::EndElement {
        name: name.to_string(),
    }
}

fn attr(key: &str, value: &str) -> (String, String) {
    (key.to_string(), value.to_string())
}

fn count_nodes(d: &DocNode) -> usize {
    let mut total = 1;
    for c in d.children.iter() {
        total += count_nodes(c);
    }
    total
}

#[test]
fn well_nested_events_build_one_root_with_matching_count() {
    let events = vec![
        start("Event", vec![attr("xmlns", "ns")]),
        empty("Marker", Vec::new()),
        simple("EventID", Vec::new(), "4624"),
        start("System", Vec::new()),
        simple("Channel", Vec::new(), "Security"),
        end("System"),
        end("Event"),
    ];
    let doc = build_document(&events).expect("well-nested events must build");
    assert_eq!(doc.name, "Event");
    assert_eq!(doc.attributes, vec![attr("xmlns", "ns")]);
    // five element events: Event, Marker, EventID, System, Channel
    assert_eq!(count_nodes(&doc), 5);
    assert_eq!(doc.children.len(), 3);
    assert_eq!(doc.children[0].name, "Marker");
    assert_eq!(doc.children[1].name, "EventID");
    assert_eq!(doc.children[1].text, "4624");
    assert_eq!(doc.children[2].name, "System");
    assert_eq!(doc.children[2].children[0].name, "Channel");
}

#[test]
fn attribute_order_is_event_supplied_order() {
    let events = vec![
        start("Event", vec![attr("b", "2"), attr("a", "1"), attr("c", "3")]),
        end("Event"),
    ];
    let doc = build_document(&events).unwrap();
    assert_eq!(
        doc.attributes,
        vec![attr("b", "2"), attr("a", "1"), attr("c", "3")]
    );
}

#[test]
fn characters_append_to_open_element() {
    let events = vec![start("Data", Vec::new()), chars("one"), chars("-two"), end("Data")];
    let doc = build_document(&events).unwrap();
    assert_eq!(doc.text, "one-two");
}

#[test]
fn unbalanced_end_is_rejected() {
    let events = vec![start("Event", Vec::new()), end("Event"), end("Event")];
    assert!(build_document(&events).is_none());
}

#[test]
fn leading_characters_are_rejected() {
    let events = vec![chars("stray"), start("Event", Vec::new()), end("Event")];
    assert!(build_document(&events).is_none());
}

#[test]
fn second_top_level_element_is_rejected() {
    let events = vec![
        start("Event", Vec::new()),
        end("Event"),
        start("Event", Vec::new()),
        end("Event"),
    ];
    assert!(build_document(&events).is_none());
}

#[test]
fn open_stack_at_the_end_yields_no_document() {
    let events = vec![start("Event", Vec::new()), start("System", Vec::new())];
    assert!(build_document(&events).is_none());
}

#[test]
fn builder_methods_mirror_event_replay() {
    let mut b = TreeBuilder::new();
    b.visit_start_element("Event".to_string(), vec![attr("k", "v")]);
    b.visit_simple_element("EventID".to_string(), Vec::new(), "7036".to_string());
    b.visit_characters("tail");
    b.visit_end_element("Event");
    let doc = b.finalize();
    assert_eq!(doc.name, "Event");
    assert_eq!(doc.text, "tail");
    assert_eq!(doc.children[0].name, "EventID");
    assert_eq!(doc.children[0].text, "7036");
}

#[test]
fn round_trip_rebuilds_an_identical_document() {
    let events = vec![
        start("Event", vec![attr("b", "2"), attr("a", "1")]),
        start("System", Vec::new()),
        simple("Provider", vec![attr("Name", "svc")], ""),
        simple("EventID", Vec::new(), "7036"),
        end("System"),
        start("EventData", Vec::new()),
        simple("Entry", vec![attr("Name", "param1")], "running"),
        end("EventData"),
        chars("trailing"),
        end("Event"),
    ];
    let doc = build_document(&events).unwrap();
    let replay = doc_events(&doc);
    let rebuilt = build_document(&replay).expect("replay must be well-nested");
    assert!(doc == rebuilt);
}

#[test]
fn round_trip_of_single_empty_element() {
    let events = vec![start("Event", Vec::new()), end("Event")];
    let doc = build_document(&events).unwrap();
    let rebuilt = build_document(&doc_events(&doc)).unwrap();
    assert!(doc == rebuilt);
    assert_eq!(rebuilt.children.len(), 0);
    assert_eq!(rebuilt.text, "");
}

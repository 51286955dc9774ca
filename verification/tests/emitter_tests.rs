use evtxgrep::document::DocNode;
use evtxgrep::emitter::join_lines;
use evtxgrep::emitter::serialize_tree;
use evtxgrep::emitter::XmlOutputVisitor;

fn leaf(name: &str, attributes: Vec<(String, String)>, text: &str) -> DocNode {
    DocNode {
        name: name.to_string(),
        attributes,
        children: Vec::new(),
        text: text.to_string(),
    }
}

fn node(name: &str, attributes: Vec<(String, String)>, children: Vec<DocNode>) -> DocNode {
    DocNode {
        name: name.to_string(),
        attributes,
        children,
        text: String::new(),
    }
}

fn attr(key: &str, value: &str) -> (String, String) {
    (key.to_string(), value.to_string())
}

#[test]
fn empty_element_renders_self_closed() {
    let d = leaf("Marker", vec![attr("k", "v")], "");
    let lines = serialize_tree(&d);
    assert_eq!(lines, vec!["<Marker k=\"v\"/>".to_string()]);
}

#[test]
fn short_text_renders_inline() {
    let d = leaf("EventID", Vec::new(), "4624");
    let lines = serialize_tree(&d);
    assert_eq!(lines, vec!["<EventID>4624</EventID>".to_string()]);
}

#[test]
fn ninety_character_content_forces_three_lines() {
    let content: String = std::iter::repeat('x').take(90).collect();
    let d = leaf("Data", Vec::new(), &content);
    let lines = serialize_tree(&d);
    assert_eq!(lines.len(), 3);
    assert_eq!(lines[0], "<Data>");
    assert_eq!(lines[1], content);
    assert_eq!(lines[2], "</Data>");
}

#[test]
fn exactly_eighty_characters_stays_inline() {
    // "<Data>" (6) + content (67) + "</Data>" (7) == 80: not over the limit
    let content: String = std::iter::repeat('y').take(67).collect();
    let d = leaf("Data", Vec::new(), &content);
    let lines = serialize_tree(&d);
    assert_eq!(lines.len(), 1);
    assert_eq!(lines[0], format!("<Data>{}</Data>", content));
}

#[test]
fn eighty_one_characters_goes_long() {
    // "<Data>" (6) + content (68) + "</Data>" (7) == 81: over the limit
    let content: String = std::iter::repeat('y').take(68).collect();
    let d = leaf("Data", Vec::new(), &content);
    let lines = serialize_tree(&d);
    assert_eq!(lines.len(), 3);
}

#[test]
fn special_characters_are_wrapped_before_the_length_decision() {
    let d = leaf("Data", Vec::new(), "a<b");
    let lines = serialize_tree(&d);
    assert_eq!(lines, vec!["<Data><[!CDATA[a<b]]></Data>".to_string()]);
}

#[test]
fn ampersand_and_gt_also_force_the_escape_block() {
    let d = leaf("Data", Vec::new(), "a&b");
    assert_eq!(serialize_tree(&d), vec!["<Data><[!CDATA[a&b]]></Data>".to_string()]);
    let e = leaf("Data", Vec::new(), "a>b");
    assert_eq!(serialize_tree(&e), vec!["<Data><[!CDATA[a>b]]></Data>".to_string()]);
}

#[test]
fn escaped_length_decides_wrapping() {
    // content of 60 chars fits inline, but the escape block adds 13 more:
    // 6 + 73 + 7 == 86 > 80, so the escaped form goes long.
    let mut content: String = std::iter::repeat('z').take(59).collect();
    content.push('&');
    let d = leaf("Data", Vec::new(), &content);
    let lines = serialize_tree(&d);
    assert_eq!(lines.len(), 3);
    assert_eq!(lines[1], format!("<[!CDATA[{}]]>", content));
}

#[test]
fn children_indent_by_two_spaces_per_level() {
    let d = node(
        "Event",
        Vec::new(),
        vec![node(
            "System",
            Vec::new(),
            vec![leaf("Channel", Vec::new(), "Security")],
        )],
    );
    let lines = serialize_tree(&d);
    assert_eq!(
        lines,
        vec![
            "<Event>".to_string(),
            "  <System>".to_string(),
            "    <Channel>Security</Channel>".to_string(),
            "  </System>".to_string(),
            "</Event>".to_string(),
        ]
    );
}

#[test]
fn attributes_render_in_insertion_order() {
    let v = XmlOutputVisitor::new();
    let s = v.format_attributes(&vec![attr("b", "2"), attr("a", "1")]);
    assert_eq!(s, " b=\"2\" a=\"1\"");
}

#[test]
fn visitor_tracks_indentation() {
    let mut v = XmlOutputVisitor::new();
    assert_eq!(v.indent(), "");
    v.enter();
    v.enter();
    assert_eq!(v.indent(), "    ");
    v.leave();
    assert_eq!(v.indent(), "  ");
}

#[test]
fn visitor_emits_nested_lines() {
    let mut v = XmlOutputVisitor::new();
    v.visit_start_element("Event", &Vec::new());
    v.visit_empty_element("Marker", &vec![attr("k", "v")]);
    v.visit_simple_element("EventID", &Vec::new(), "7036");
    v.visit_end_element("Event");
    assert_eq!(
        v.lines,
        vec![
            "<Event>".to_string(),
            "  <Marker k=\"v\"/>".to_string(),
            "  <EventID>7036</EventID>".to_string(),
            "</Event>".to_string(),
        ]
    );
}

#[test]
fn join_lines_inserts_single_newlines() {
    let lines = vec!["a".to_string(), "b".to_string(), "c".to_string()];
    assert_eq!(join_lines(&lines), "a\nb\nc");
    assert_eq!(join_lines(&vec!["only".to_string()]), "only");
    assert_eq!(join_lines(&Vec::new()), "");
}

//! One record's pass through the core: evaluate the optional compiled
//! filter against the rebuilt document and serialize a match.
//!
//! The compiled filter is built once per invocation and passed read-only
//! into every record's processing; it is never ambient state.

use vstd::prelude::*;

use crate::document::tree_of;
use crate::document::DocNode;
use crate::emitter::join_lines;
use crate::emitter::joined_lines;
use crate::emitter::render_tree;
use crate::emitter::serialize_tree;
use crate::eval::doc_matches;
use crate::filter::spec_filter_string;
use crate::filter::RecordFilterSection;
use crate::filter::XPathFilter;
use crate::record_info::RecordInfo;

verus! {

/// Compiles a filter specification once, up front.  Zero selectors
/// compile to no filter at all: the evaluator is then skipped entirely
/// and every record passes, rather than evaluating an always-true
/// predicate.
pub fn compile_filter(sections: Vec<RecordFilterSection>, use_or: bool) -> (r: Option<XPathFilter>)
    ensures
        match r {
            None => sections@.len() == 0,
            Some(f) => {
                &&& sections@.len() > 0
                &&& f.filter@ == spec_filter_string(sections@, use_or)
                &&& f.sections@ == sections@
                &&& f.use_or == use_or
            },
        },
{
    if sections.len() == 0 {
        None
    } else {
        Some(XPathFilter::new(sections, use_or))
    }
}

/// Processes one rebuilt record: with no compiled filter the record
/// passes outright; otherwise it passes exactly when the filter matches
/// its document.  A passing record is serialized to its tree form, lines
/// joined with newlines, and carries its id and timestamp.
pub fn get_result(
    doc: &DocNode,
    filter: &Option<XPathFilter>,
    event_record_id: u64,
    timestamp: String,
) -> (r: Option<RecordInfo>)
    ensures
        match filter {
            None => r is Some,
            Some(f) => r is Some <==> doc_matches(f.sections@, f.use_or, *doc),
        },
        match r {
            Some(info) => {
                &&& info.event_record_id == event_record_id
                &&& info.timestamp == timestamp
                &&& info.xml_data@ == joined_lines(render_tree(tree_of(*doc), Seq::<char>::empty()))
            },
            None => true,
        },
{
    let matched = match filter {
        None => true,
        Some(f) => f.matches(doc),
    };
    if matched {
        let lines = serialize_tree(doc);
        let xml = join_lines(&lines);
        Some(RecordInfo::new(xml, event_record_id, timestamp))
    } else {
        None
    }
}

} // verus!

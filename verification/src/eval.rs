//! The filter evaluator: runs a compiled filter against a rebuilt document.
//!
//! A record's document matches when its top-level element carries the
//! record tag and the joined selector predicate holds there: conjunctively
//! every selector, disjunctively at least one, each selector comparing the
//! field at its fixed path (metadata section) or the named data-section
//! entry with its literal value, case-folded when the selector asks for it.

use vstd::prelude::*;

use crate::casefold::ascii_upper;
use crate::casefold::upper_seq;
use crate::document::DocNode;
use crate::filter::DataFilter;
use crate::filter::RecordFilterSection;
use crate::filter::SystemFilter;
use crate::filter::XPathFilter;
use crate::text::str_eq;

verus! {

/// The value of the first attribute named `key` among `attrs[k..]`.
pub open spec fn attr_from(attrs: Seq<(String, String)>, key: Seq<char>, k: int) -> Option<
    Seq<char>,
>
    decreases attrs.len() - k,
{
    if k < 0 || k >= attrs.len() {
        None
    } else if attrs[k].0@ == key {
        Some(attrs[k].1@)
    } else {
        attr_from(attrs, key, k + 1)
    }
}

/// The value of the element's attribute named `key`, first occurrence.
pub open spec fn attr_value(n: DocNode, key: Seq<char>) -> Option<Seq<char>> {
    attr_from(n.attributes@, key, 0)
}

/// Equality of a field's runtime text with a selector's literal, folded
/// on both sides when the selector ignores case.
pub open spec fn value_matches(actual: Seq<char>, literal: Seq<char>, ignore_case: bool) -> bool {
    if ignore_case {
        upper_seq(actual) == upper_seq(literal)
    } else {
        actual == literal
    }
}

/// Whether one metadata element carries the selector's field with a
/// matching value.
pub open spec fn sys_elem_matches(c: DocNode, f: SystemFilter) -> bool {
    c.name@ == f.filter_type.spec_element_name() && match f.filter_type.spec_attr_name() {
        Some(a) => match attr_value(c, a) {
            Some(v) => value_matches(v, f.value@, f.ignore_case),
            None => false,
        },
        None => value_matches(c.text@, f.value@, f.ignore_case),
    }
}

/// Whether a metadata section holds an element matching the selector.
pub open spec fn sys_section_matches(sys: DocNode, f: SystemFilter) -> bool {
    exists|j: int| 0 <= j < sys.children@.len() && sys_elem_matches(#[trigger] sys.children@[j], f)
}

/// Whether the record's document satisfies one system-field selector.
pub open spec fn system_matches(f: SystemFilter, doc: DocNode) -> bool {
    exists|i: int|
        0 <= i < doc.children@.len() && (#[trigger] doc.children@[i]).name@ == "System"@
            && sys_section_matches(doc.children@[i], f)
}

/// Whether one data-section entry carries the selector's name and value.
/// The entry's name is the value of its `Name` attribute; name and value
/// are folded together when the selector ignores case.
pub open spec fn entry_matches(c: DocNode, d: DataFilter) -> bool {
    c.name@ == "Entry"@ && match attr_value(c, "Name"@) {
        Some(n) => value_matches(n, d.field_name@, d.ignore_case) && value_matches(
            c.text@,
            d.field_value@,
            d.ignore_case,
        ),
        None => false,
    }
}

/// Whether a data section holds an entry matching the selector.
pub open spec fn data_section_matches(sec: DocNode, d: DataFilter) -> bool {
    exists|j: int| 0 <= j < sec.children@.len() && entry_matches(#[trigger] sec.children@[j], d)
}

/// Whether the record's document satisfies one data-field selector.
pub open spec fn data_matches(d: DataFilter, doc: DocNode) -> bool {
    exists|i: int|
        0 <= i < doc.children@.len() && (#[trigger] doc.children@[i]).name@ == "EventData"@
            && data_section_matches(doc.children@[i], d)
}

/// Whether the record's document satisfies one selector.
pub open spec fn section_matches(s: RecordFilterSection, doc: DocNode) -> bool {
    match s {
        RecordFilterSection::System(f) => system_matches(f, doc),
        RecordFilterSection::EventData(d) => data_matches(d, doc),
    }
}

/// The joined predicate: every selector conjunctively, at least one
/// disjunctively.
pub open spec fn pred_holds(ss: Seq<RecordFilterSection>, use_or: bool, doc: DocNode) -> bool {
    if use_or {
        exists|k: int| 0 <= k < ss.len() && section_matches(#[trigger] ss[k], doc)
    } else {
        forall|k: int| 0 <= k < ss.len() ==> section_matches(#[trigger] ss[k], doc)
    }
}

/// Whether the document matches the whole compiled filter: its top-level
/// element is the record tag and the joined predicate holds there.
pub open spec fn doc_matches(ss: Seq<RecordFilterSection>, use_or: bool, doc: DocNode) -> bool {
    doc.name@ == "Event"@ && pred_holds(ss, use_or, doc)
}

/// Looks up the first attribute named `key`.
fn attr_lookup<'a>(attrs: &'a Vec<(String, String)>, key: &str) -> (r: Option<&'a String>)
    ensures
        match r {
            Some(v) => attr_from(attrs@, key@, 0) == Some(v@),
            None => attr_from(attrs@, key@, 0) is None,
        },
{
    let n = attrs.len();
    let mut i: usize = 0;
    while i < n
        invariant
            n == attrs@.len(),
            i <= n,
            attr_from(attrs@, key@, 0) == attr_from(attrs@, key@, i as int),
        decreases n - i,
    {
        if str_eq(attrs[i].0.as_str(), key) {
            return Some(&attrs[i].1);
        }
        i = i + 1;
    }
    None
}

/// Compares a field's text with a selector's literal, case-folded on
/// both sides when asked.
fn value_check(actual: &str, literal: &str, ignore_case: bool) -> (r: bool)
    ensures
        r == value_matches(actual@, literal@, ignore_case),
{
    if ignore_case {
        let a = ascii_upper(actual);
        let b = ascii_upper(literal);
        str_eq(a.as_str(), b.as_str())
    } else {
        str_eq(actual, literal)
    }
}

/// Tests one metadata element against a system-field selector.
fn sys_elem_check(c: &DocNode, f: &SystemFilter) -> (r: bool)
    ensures
        r == sys_elem_matches(*c, *f),
{
    if !str_eq(c.name.as_str(), f.filter_type.element_name()) {
        return false;
    }
    match f.filter_type.attr_name() {
        Some(a) => match attr_lookup(&c.attributes, a) {
            Some(v) => value_check(v.as_str(), f.value.as_str(), f.ignore_case),
            None => false,
        },
        None => value_check(c.text.as_str(), f.value.as_str(), f.ignore_case),
    }
}

/// Tests the whole document against a system-field selector.
fn system_check(f: &SystemFilter, doc: &DocNode) -> (r: bool)
    ensures
        r == system_matches(*f, *doc),
{
    let n = doc.children.len();
    let mut i: usize = 0;
    while i < n
        invariant
            n == doc.children@.len(),
            i <= n,
            forall|p: int|
                0 <= p < i ==> !((#[trigger] doc.children@[p]).name@ == "System"@
                    && sys_section_matches(doc.children@[p], *f)),
        decreases n - i,
    {
        let c = &doc.children[i];
        if str_eq(c.name.as_str(), "System") {
            let m = c.children.len();
            let mut j: usize = 0;
            while j < m
                invariant
                    n == doc.children@.len(),
                    i < n,
                    *c == doc.children@[i as int],
                    c.name@ == "System"@,
                    m == c.children@.len(),
                    j <= m,
                    forall|q: int| 0 <= q < j ==> !sys_elem_matches(#[trigger] c.children@[q], *f),
                decreases m - j,
            {
                if sys_elem_check(&c.children[j], f) {
                    proof {
                        assert(sys_elem_matches(c.children@[j as int], *f));
                        assert(sys_section_matches(doc.children@[i as int], *f));
                    }
                    return true;
                }
                j = j + 1;
            }
            proof {
                assert(!sys_section_matches(doc.children@[i as int], *f));
            }
        }
        i = i + 1;
    }
    false
}

/// Tests one data-section entry against a data-field selector.
fn entry_check(c: &DocNode, d: &DataFilter) -> (r: bool)
    ensures
        r == entry_matches(*c, *d),
{
    if !str_eq(c.name.as_str(), "Entry") {
        return false;
    }
    match attr_lookup(&c.attributes, "Name") {
        Some(n) => {
            if value_check(n.as_str(), d.field_name.as_str(), d.ignore_case) {
                value_check(c.text.as_str(), d.field_value.as_str(), d.ignore_case)
            } else {
                false
            }
        },
        None => false,
    }
}

/// Tests the whole document against a data-field selector.
fn data_check(d: &DataFilter, doc: &DocNode) -> (r: bool)
    ensures
        r == data_matches(*d, *doc),
{
    let n = doc.children.len();
    let mut i: usize = 0;
    while i < n
        invariant
            n == doc.children@.len(),
            i <= n,
            forall|p: int|
                0 <= p < i ==> !((#[trigger] doc.children@[p]).name@ == "EventData"@
                    && data_section_matches(doc.children@[p], *d)),
        decreases n - i,
    {
        let c = &doc.children[i];
        if str_eq(c.name.as_str(), "EventData") {
            let m = c.children.len();
            let mut j: usize = 0;
            while j < m
                invariant
                    n == doc.children@.len(),
                    i < n,
                    *c == doc.children@[i as int],
                    c.name@ == "EventData"@,
                    m == c.children@.len(),
                    j <= m,
                    forall|q: int| 0 <= q < j ==> !entry_matches(#[trigger] c.children@[q], *d),
                decreases m - j,
            {
                if entry_check(&c.children[j], d) {
                    proof {
                        assert(entry_matches(c.children@[j as int], *d));
                        assert(data_section_matches(doc.children@[i as int], *d));
                    }
                    return true;
                }
                j = j + 1;
            }
            proof {
                assert(!data_section_matches(doc.children@[i as int], *d));
            }
        }
        i = i + 1;
    }
    false
}

/// Tests the document against one selector.
fn section_check(s: &RecordFilterSection, doc: &DocNode) -> (r: bool)
    ensures
        r == section_matches(*s, *doc),
{
    match s {
        RecordFilterSection::System(f) => system_check(f, doc),
        RecordFilterSection::EventData(d) => data_check(d, doc),
    }
}

impl XPathFilter {
    /// Runs the compiled filter against a document: true iff the predicate
    /// selects the record's top-level element.
    pub fn matches(&self, doc: &DocNode) -> (r: bool)
        ensures
            r == doc_matches(self.sections@, self.use_or, *doc),
    {
        if !str_eq(doc.name.as_str(), "Event") {
            return false;
        }
        let n = self.sections.len();
        if self.use_or {
            let mut k: usize = 0;
            while k < n
                invariant
                    n == self.sections@.len(),
                    k <= n,
                    self.use_or,
                    doc.name@ == "Event"@,
                    forall|p: int| 0 <= p < k ==> !section_matches(#[trigger] self.sections@[p], *doc),
                decreases n - k,
            {
                if section_check(&self.sections[k], doc) {
                    proof {
                        assert(section_matches(self.sections@[k as int], *doc));
                    }
                    return true;
                }
                k = k + 1;
            }
            false
        } else {
            let mut k: usize = 0;
            while k < n
                invariant
                    n == self.sections@.len(),
                    k <= n,
                    !self.use_or,
                    doc.name@ == "Event"@,
                    forall|p: int| 0 <= p < k ==> section_matches(#[trigger] self.sections@[p], *doc),
                decreases n - k,
            {
                if !section_check(&self.sections[k], doc) {
                    proof {
                        assert(!section_matches(self.sections@[k as int], *doc));
                    }
                    return false;
                }
                k = k + 1;
            }
            true
        }
    }
}

/// With conjunctive combination a record matches iff its top-level element
/// is the record tag and every selector matches it; with disjunctive
/// combination, iff at least one does.
pub proof fn lemma_combine_semantics(ss: Seq<RecordFilterSection>, doc: DocNode)
    ensures
        doc_matches(ss, false, doc) <==> (doc.name@ == "Event"@ && forall|k: int|
            0 <= k < ss.len() ==> section_matches(#[trigger] ss[k], doc)),
        doc_matches(ss, true, doc) <==> (doc.name@ == "Event"@ && exists|k: int|
            0 <= k < ss.len() && section_matches(#[trigger] ss[k], doc)),
{
}

/// Without case folding a field value satisfies a selector exactly when it
/// equals the literal; with folding, exactly when the two differ at most
/// in ASCII letter case.
pub proof fn lemma_case_sensitivity(actual: Seq<char>, literal: Seq<char>)
    ensures
        value_matches(actual, literal, false) <==> actual == literal,
        value_matches(actual, literal, true) <==> upper_seq(actual) == upper_seq(literal),
{
}

/// A record that satisfies a system selector also satisfies every
/// case-folded variant of it whose literal differs at most in ASCII
/// letter case.
pub proof fn lemma_ignore_case_widens_system(f: SystemFilter, g: SystemFilter, doc: DocNode)
    requires
        g.filter_type == f.filter_type,
        g.ignore_case,
        upper_seq(g.value@) == upper_seq(f.value@),
        system_matches(f, doc),
    ensures
        system_matches(g, doc),
{
    let i = choose|i: int|
        0 <= i < doc.children@.len() && (#[trigger] doc.children@[i]).name@ == "System"@
            && sys_section_matches(doc.children@[i], f);
    let sys = doc.children@[i];
    let j = choose|j: int|
        0 <= j < sys.children@.len() && sys_elem_matches(#[trigger] sys.children@[j], f);
    let c = sys.children@[j];
    assert(sys_elem_matches(c, g)) by {
        match f.filter_type.spec_attr_name() {
            Some(a) => {
                let v = attr_value(c, a)->Some_0;
                lemma_fold_transfer(v, f.value@, f.ignore_case, g.value@);
            },
            None => {
                lemma_fold_transfer(c.text@, f.value@, f.ignore_case, g.value@);
            },
        }
    }
    assert(sys_section_matches(sys, g));
}

/// A record that satisfies a data selector also satisfies every
/// case-folded variant of it whose name and literal differ at most in
/// ASCII letter case.
pub proof fn lemma_ignore_case_widens_data(d: DataFilter, e: DataFilter, doc: DocNode)
    requires
        e.ignore_case,
        upper_seq(e.field_name@) == upper_seq(d.field_name@),
        upper_seq(e.field_value@) == upper_seq(d.field_value@),
        data_matches(d, doc),
    ensures
        data_matches(e, doc),
{
    let i = choose|i: int|
        0 <= i < doc.children@.len() && (#[trigger] doc.children@[i]).name@ == "EventData"@
            && data_section_matches(doc.children@[i], d);
    let sec = doc.children@[i];
    let j = choose|j: int|
        0 <= j < sec.children@.len() && entry_matches(#[trigger] sec.children@[j], d);
    let c = sec.children@[j];
    assert(entry_matches(c, e)) by {
        let n = attr_value(c, "Name"@)->Some_0;
        lemma_fold_transfer(n, d.field_name@, d.ignore_case, e.field_name@);
        lemma_fold_transfer(c.text@, d.field_value@, d.ignore_case, e.field_value@);
    }
    assert(data_section_matches(sec, e));
}

/// A value that matches a literal, folded or not, matches any literal with
/// the same folded image once folding is on.
proof fn lemma_fold_transfer(actual: Seq<char>, lit1: Seq<char>, ic1: bool, lit2: Seq<char>)
    requires
        value_matches(actual, lit1, ic1),
        upper_seq(lit2) == upper_seq(lit1),
    ensures
        value_matches(actual, lit2, true),
{
}

} // verus!

//! Field events and the tree builder.
//!
//! The external decoder delivers one record as an ordered sequence of
//! field events.  The builder owns a stack of in-progress elements and
//! the finished root; replaying the record's events against a fresh
//! builder and finalizing it is the only way to obtain the document.
//!
//! The ghost transition system (`BState`, `step`, `run`) is the model
//! every builder method is proved against: an element is pushed when it
//! starts, and attached to its parent (or recorded as the root) when it
//! ends, so a partially built tree can never escape.

use vstd::prelude::*;

use crate::document::attrs_view;
use crate::document::forest_count;
use crate::document::forest_of;
use crate::document::lemma_forest_count_prefix;
use crate::document::lemma_forest_count_push;
use crate::document::lemma_forest_count_update;
use crate::document::lemma_forest_of_eq;
use crate::document::tree_count;
use crate::document::tree_of;
use crate::document::DocNode;
use crate::document::DocTree;

verus! {

broadcast use vstd::std_specs::vec::group_vec_axioms;

/// One structural callback of the external decoder.
#[derive(PartialEq, Eq)]
pub enum FieldEvent {
    StartElement { name: String, attributes: Vec<(String, String)> },
    EmptyElement { name: String, attributes: Vec<(String, String)> },
    SimpleElement { name: String, attributes: Vec<(String, String)>, content: String },
    Characters { text: String },
    EndElement { name: String },
}

/// The mathematical image of one field event.
#[verifier::ext_equal]
pub ghost enum Ev {
    Start { name: Seq<char>, attrs: Seq<(Seq<char>, Seq<char>)> },
    Empty { name: Seq<char>, attrs: Seq<(Seq<char>, Seq<char>)> },
    Simple { name: Seq<char>, attrs: Seq<(Seq<char>, Seq<char>)>, content: Seq<char> },
    Chars { text: Seq<char> },
    End { name: Seq<char> },
}

/// The image of an exec event.
pub open spec fn ev_of(e: FieldEvent) -> Ev {
    match e {
        FieldEvent::StartElement { name, attributes } => Ev::Start {
            name: name@,
            attrs: attrs_view(attributes@),
        },
        FieldEvent::EmptyElement { name, attributes } => Ev::Empty {
            name: name@,
            attrs: attrs_view(attributes@),
        },
        FieldEvent::SimpleElement { name, attributes, content } => Ev::Simple {
            name: name@,
            attrs: attrs_view(attributes@),
            content: content@,
        },
        FieldEvent::Characters { text } => Ev::Chars { text: text@ },
        FieldEvent::EndElement { name } => Ev::End { name: name@ },
    }
}

/// The images of a sequence of exec events.
pub open spec fn evs_of(s: Seq<FieldEvent>) -> Seq<Ev> {
    s.map_values(|e: FieldEvent| ev_of(e))
}

/// The builder's ghost state: the open-element stack, outermost first,
/// and the finished root once the top-level element has ended.
#[verifier::ext_equal]
pub ghost struct BState {
    pub stack: Seq<DocTree>,
    pub root: Option<DocTree>,
}

/// The state of a fresh builder.
pub open spec fn init_state() -> BState {
    BState { stack: Seq::empty(), root: None }
}

/// A leaf element as delivered by one event.
pub open spec fn new_tree(
    name: Seq<char>,
    attrs: Seq<(Seq<char>, Seq<char>)>,
    text: Seq<char>,
) -> DocTree {
    DocTree { name, attrs, children: Seq::empty(), text }
}

/// `p` with `c` appended as its last child.
pub open spec fn with_child(p: DocTree, c: DocTree) -> DocTree {
    DocTree { children: p.children.push(c), ..p }
}

/// `p` with `cs` appended after its children.
pub open spec fn with_children(p: DocTree, cs: Seq<DocTree>) -> DocTree {
    DocTree { children: p.children + cs, ..p }
}

/// `p` with `t` appended to its text.
pub open spec fn with_text(p: DocTree, t: Seq<char>) -> DocTree {
    DocTree { text: p.text + t, ..p }
}

/// `s` with its topmost open element replaced by `t`.
pub open spec fn with_top(s: BState, t: DocTree) -> BState {
    BState { stack: s.stack.update(s.stack.len() - 1, t), root: s.root }
}

/// A finished child attached to the topmost open element.
pub open spec fn attach_leaf(s: BState, c: DocTree) -> BState {
    with_top(s, with_child(s.stack.last(), c))
}

/// Whether the builder may consume this event: every event but the first
/// start of a record needs an open element, and only one top-level
/// element may ever be started.
pub open spec fn step_ok(s: BState, e: Ev) -> bool {
    match e {
        Ev::Start { .. } => s.stack.len() > 0 || s.root is None,
        _ => s.stack.len() > 0,
    }
}

/// The builder's transition for one event.
pub open spec fn step(s: BState, e: Ev) -> BState {
    match e {
        Ev::Start { name, attrs } => BState {
            stack: s.stack.push(new_tree(name, attrs, Seq::empty())),
            root: s.root,
        },
        Ev::Empty { name, attrs } => attach_leaf(s, new_tree(name, attrs, Seq::empty())),
        Ev::Simple { name, attrs, content } => attach_leaf(s, new_tree(name, attrs, content)),
        Ev::Chars { text } => with_top(s, with_text(s.stack.last(), text)),
        Ev::End { .. } => {
            let t = s.stack.last();
            let rest = s.stack.drop_last();
            if rest.len() == 0 {
                BState { stack: rest, root: Some(t) }
            } else {
                BState { stack: rest.update(rest.len() - 1, with_child(rest.last(), t)), root: s.root }
            }
        },
    }
}

/// The builder's state after a sequence of events.
pub open spec fn run(s: BState, es: Seq<Ev>) -> BState
    decreases es.len(),
{
    if es.len() == 0 {
        s
    } else {
        run(step(s, es[0]), es.drop_first())
    }
}

/// Whether every event of the sequence is consumed in a legal state.
pub open spec fn run_ok(s: BState, es: Seq<Ev>) -> bool
    decreases es.len(),
{
    es.len() == 0 || (step_ok(s, es[0]) && run_ok(step(s, es[0]), es.drop_first()))
}

/// Running a concatenation runs its parts in order.
pub proof fn lemma_run_append(s: BState, a: Seq<Ev>, b: Seq<Ev>)
    ensures
        run(s, a + b) == run(run(s, a), b),
        run_ok(s, a + b) == (run_ok(s, a) && run_ok(run(s, a), b)),
    decreases a.len(),
{
    if a.len() == 0 {
        assert(a + b =~= b);
    } else {
        assert((a + b).drop_first() =~= a.drop_first() + b);
        lemma_run_append(step(s, a[0]), a.drop_first(), b);
    }
}

/// The tree builder: exclusive owner of the open-element stack and of
/// the finished root.  `finalize` is the only way to take the completed
/// document out.
pub struct TreeBuilder {
    stack: Vec<DocNode>,
    root: Option<DocNode>,
}

impl TreeBuilder {
    /// The ghost state this builder is in.
    pub closed spec fn state(self) -> BState {
        BState {
            stack: forest_of(self.stack@, self.stack@.len() as int),
            root: match self.root {
                Some(r) => Some(tree_of(r)),
                None => None,
            },
        }
    }

    /// A fresh builder; one is used per record.
    pub fn new() -> (r: Self)
        ensures
            r.state() == init_state(),
    {
        let r = Self { stack: Vec::new(), root: None };
        proof {
            assert(r.state() =~= init_state());
        }
        r
    }

    /// Opens an element: it will be attached when its end event arrives.
    pub fn visit_start_element(&mut self, name: String, attributes: Vec<(String, String)>)
        requires
            step_ok(old(self).state(), Ev::Start { name: name@, attrs: attrs_view(attributes@) }),
        ensures
            final(self).state() == step(
                old(self).state(),
                Ev::Start { name: name@, attrs: attrs_view(attributes@) },
            ),
    {
        let ghost pre = self.stack@;
        let node = DocNode { name, attributes, children: Vec::new(), text: String::new() };
        self.stack.push(node);
        proof {
            lemma_forest_of_eq(pre, pre.len() as int);
            lemma_forest_of_eq(self.stack@, self.stack@.len() as int);
            assert(forest_of(self.stack@, self.stack@.len() as int) =~= forest_of(
                pre,
                pre.len() as int,
            ).push(tree_of(self.stack@.last())));
            assert(tree_of(self.stack@.last()) =~= new_tree(name@, attrs_view(attributes@), Seq::empty()));
            assert(self.state() =~= step(
                BState { stack: forest_of(pre, pre.len() as int), root: self.state().root },
                Ev::Start { name: name@, attrs: attrs_view(attributes@) },
            ));
        }
    }

    /// Appends a finished childless element to the open element on top.
    pub fn visit_empty_element(&mut self, name: String, attributes: Vec<(String, String)>)
        requires
            old(self).state().stack.len() > 0,
        ensures
            final(self).state() == step(
                old(self).state(),
                Ev::Empty { name: name@, attrs: attrs_view(attributes@) },
            ),
    {
        let child = DocNode { name, attributes, children: Vec::new(), text: String::new() };
        self.attach(child);
    }

    /// Appends a finished element with text content to the open element
    /// on top.
    pub fn visit_simple_element(
        &mut self,
        name: String,
        attributes: Vec<(String, String)>,
        content: String,
    )
        requires
            old(self).state().stack.len() > 0,
        ensures
            final(self).state() == step(
                old(self).state(),
                Ev::Simple { name: name@, attrs: attrs_view(attributes@), content: content@ },
            ),
    {
        let child = DocNode { name, attributes, children: Vec::new(), text: content };
        self.attach(child);
    }

    /// Appends `child`, already finished, to the open element on top.
    fn attach(&mut self, child: DocNode)
        requires
            old(self).state().stack.len() > 0,
            tree_of(child).children.len() == 0,
        ensures
            final(self).state() == attach_leaf(old(self).state(), tree_of(child)),
    {
        let ghost pre = self.stack@;
        let mut parent = self.stack.pop().unwrap();
        let ghost oldparent = parent;
        parent.children.push(child);
        proof {
            lemma_forest_of_eq(pre, pre.len() as int);
        }
        self.stack.push(parent);
        proof {
            lemma_forest_of_eq(oldparent.children@, oldparent.children@.len() as int);
            lemma_forest_of_eq(parent.children@, parent.children@.len() as int);
            assert(forest_of(parent.children@, parent.children@.len() as int) =~= forest_of(
                oldparent.children@,
                oldparent.children@.len() as int,
            ).push(tree_of(child)));
            assert(tree_of(parent) =~= with_child(tree_of(oldparent), tree_of(child)));
            lemma_forest_of_eq(self.stack@, self.stack@.len() as int);
            assert(self.state().stack =~= forest_of(pre, pre.len() as int).update(
                pre.len() - 1,
                with_child(tree_of(oldparent), tree_of(child)),
            ));
            assert(self.state() =~= attach_leaf(
                BState { stack: forest_of(pre, pre.len() as int), root: self.state().root },
                tree_of(child),
            ));
        }
    }

    /// Appends text to the open element on top.
    pub fn visit_characters(&mut self, value: &str)
        requires
            old(self).state().stack.len() > 0,
        ensures
            final(self).state() == step(old(self).state(), Ev::Chars { text: value@ }),
    {
        let ghost pre = self.stack@;
        let mut top = self.stack.pop().unwrap();
        let ghost oldtop = top;
        top.text.append(value);
        proof {
            lemma_forest_of_eq(pre, pre.len() as int);
        }
        self.stack.push(top);
        proof {
            lemma_forest_of_eq(oldtop.children@, oldtop.children@.len() as int);
            lemma_forest_of_eq(top.children@, top.children@.len() as int);
            assert(forest_of(top.children@, top.children@.len() as int) =~= forest_of(
                oldtop.children@,
                oldtop.children@.len() as int,
            ));
            assert(tree_of(top) =~= with_text(tree_of(oldtop), value@));
            lemma_forest_of_eq(self.stack@, self.stack@.len() as int);
            assert(self.state().stack =~= forest_of(pre, pre.len() as int).update(
                pre.len() - 1,
                with_text(tree_of(oldtop), value@),
            ));
            assert(self.state() =~= step(
                BState { stack: forest_of(pre, pre.len() as int), root: self.state().root },
                Ev::Chars { text: value@ },
            ));
        }
    }

    /// Closes the open element on top: it is attached to its parent, or
    /// recorded as the document root when it was the top-level element.
    pub fn visit_end_element(&mut self, name: &str)
        requires
            old(self).state().stack.len() > 0,
        ensures
            final(self).state() == step(old(self).state(), Ev::End { name: name@ }),
    {
        let ghost pre = self.stack@;
        let t = self.stack.pop().unwrap();
        proof {
            lemma_forest_of_eq(pre, pre.len() as int);
            lemma_forest_of_eq(self.stack@, self.stack@.len() as int);
            assert(forest_of(self.stack@, self.stack@.len() as int) =~= forest_of(
                pre,
                pre.len() as int,
            ).drop_last());
        }
        if self.stack.is_empty() {
            self.root = Some(t);
            proof {
                assert(self.state() =~= step(
                    BState { stack: forest_of(pre, pre.len() as int), root: old(self).state().root },
                    Ev::End { name: name@ },
                ));
            }
        } else {
            let ghost mid = self.stack@;
            let mut parent = self.stack.pop().unwrap();
            let ghost oldparent = parent;
            parent.children.push(t);
            proof {
                lemma_forest_of_eq(mid, mid.len() as int);
            }
            self.stack.push(parent);
            proof {
                lemma_forest_of_eq(oldparent.children@, oldparent.children@.len() as int);
                lemma_forest_of_eq(parent.children@, parent.children@.len() as int);
                assert(forest_of(parent.children@, parent.children@.len() as int) =~= forest_of(
                    oldparent.children@,
                    oldparent.children@.len() as int,
                ).push(tree_of(t)));
                assert(tree_of(parent) =~= with_child(tree_of(oldparent), tree_of(t)));
                lemma_forest_of_eq(self.stack@, self.stack@.len() as int);
                assert(self.state().stack =~= forest_of(pre, pre.len() as int).drop_last().update(
                    mid.len() - 1,
                    with_child(tree_of(oldparent), tree_of(t)),
                ));
                assert(self.state() =~= step(
                    BState { stack: forest_of(pre, pre.len() as int), root: old(self).state().root },
                    Ev::End { name: name@ },
                ));
            }
        }
    }

    /// Consumes one event, cloning what it carries.
    pub fn apply(&mut self, e: &FieldEvent)
        requires
            step_ok(old(self).state(), ev_of(*e)),
        ensures
            final(self).state() == step(old(self).state(), ev_of(*e)),
    {
        match e {
            FieldEvent::StartElement { name, attributes } => {
                self.visit_start_element(name.clone(), clone_attrs(attributes))
            },
            FieldEvent::EmptyElement { name, attributes } => {
                self.visit_empty_element(name.clone(), clone_attrs(attributes))
            },
            FieldEvent::SimpleElement { name, attributes, content } => {
                self.visit_simple_element(name.clone(), clone_attrs(attributes), content.clone())
            },
            FieldEvent::Characters { text } => self.visit_characters(text.as_str()),
            FieldEvent::EndElement { name } => self.visit_end_element(name.as_str()),
        }
    }

    /// Takes ownership of the completed document.  Only a builder whose
    /// stack has been popped to empty by the record's final end event can
    /// be finalized, so a partially built tree cannot escape.
    pub fn finalize(self) -> (r: DocNode)
        requires
            self.state().stack.len() == 0,
            self.state().root is Some,
        ensures
            tree_of(r) == self.state().root->Some_0,
    {
        match self.root {
            Some(r) => r,
            None => unreached(),
        }
    }
}

/// Copies an attribute list.
fn clone_attrs(attrs: &Vec<(String, String)>) -> (r: Vec<(String, String)>)
    ensures
        r@ == attrs@,
{
    let n = attrs.len();
    let mut r: Vec<(String, String)> = Vec::new();
    let mut i: usize = 0;
    while i < n
        invariant
            n == attrs@.len(),
            i <= n,
            r@ == attrs@.subrange(0, i as int),
        decreases n - i,
    {
        r.push((attrs[i].0.clone(), attrs[i].1.clone()));
        proof {
            assert(r@ =~= attrs@.subrange(0, i + 1 as int));
        }
        i = i + 1;
    }
    proof {
        assert(attrs@.subrange(0, n as int) =~= attrs@);
    }
    r
}

/// Whether one event opens or delivers an element.
pub open spec fn is_elem_event(e: Ev) -> bool {
    e is Start || e is Empty || e is Simple
}

/// Number of element events in the sequence.
pub open spec fn elem_event_count(es: Seq<Ev>) -> nat
    decreases es.len(),
{
    if es.len() == 0 {
        0
    } else {
        (if is_elem_event(es[0]) {
            1nat
        } else {
            0nat
        }) + elem_event_count(es.drop_first())
    }
}

/// Number of elements held by a finished root, if any.
pub open spec fn root_count(r: Option<DocTree>) -> nat {
    match r {
        Some(t) => tree_count(t),
        None => 0,
    }
}

/// Number of elements held anywhere in a builder state.
pub open spec fn state_count(s: BState) -> nat {
    forest_count(s.stack, s.stack.len() as int) + root_count(s.root)
}

/// In every state the builder can reach, a finished root coexists only
/// with an empty stack.
pub open spec fn state_inv(s: BState) -> bool {
    s.root is Some ==> s.stack.len() == 0
}

/// One legal step keeps the invariant and adds one element per element
/// event, none otherwise.
proof fn lemma_step_count(s: BState, e: Ev)
    requires
        step_ok(s, e),
        state_inv(s),
    ensures
        state_inv(step(s, e)),
        state_count(step(s, e)) == state_count(s) + (if is_elem_event(e) {
            1nat
        } else {
            0nat
        }),
{
    let n = s.stack.len() as int;
    match e {
        Ev::Start { name, attrs } => {
            lemma_forest_count_push(s.stack, new_tree(name, attrs, Seq::empty()));
        },
        Ev::Empty { name, attrs } => {
            let c = new_tree(name, attrs, Seq::empty());
            let p = s.stack.last();
            lemma_forest_count_push(p.children, c);
            lemma_forest_count_update(s.stack, n - 1, with_child(p, c), n);
        },
        Ev::Simple { name, attrs, content } => {
            let c = new_tree(name, attrs, content);
            let p = s.stack.last();
            lemma_forest_count_push(p.children, c);
            lemma_forest_count_update(s.stack, n - 1, with_child(p, c), n);
        },
        Ev::Chars { text } => {
            let p = s.stack.last();
            lemma_forest_count_update(s.stack, n - 1, with_text(p, text), n);
        },
        Ev::End { .. } => {
            let t = s.stack.last();
            let rest = s.stack.drop_last();
            lemma_forest_count_prefix(s.stack, rest, n - 1);
            if rest.len() > 0 {
                let p = rest.last();
                lemma_forest_count_push(p.children, t);
                lemma_forest_count_update(rest, n - 2, with_child(p, t), n - 1);
            }
        },
    }
}

/// A legal run keeps the invariant and adds one element per element
/// event.
proof fn lemma_run_count(s: BState, es: Seq<Ev>)
    requires
        run_ok(s, es),
        state_inv(s),
    ensures
        state_inv(run(s, es)),
        state_count(run(s, es)) == state_count(s) + elem_event_count(es),
    decreases es.len(),
{
    if es.len() > 0 {
        lemma_step_count(s, es[0]);
        lemma_run_count(step(s, es[0]), es.drop_first());
    }
}

/// A well-nested record: its events can be consumed from a fresh builder
/// and leave it with an empty stack and a finished root.
pub open spec fn well_nested(es: Seq<Ev>) -> bool {
    &&& run_ok(init_state(), es)
    &&& run(init_state(), es).stack.len() == 0
    &&& run(init_state(), es).root is Some
}

/// For every well-nested event sequence the builder produces exactly one
/// root document whose element count equals the number of element events
/// consumed.
pub proof fn lemma_builder_count(es: Seq<Ev>)
    requires
        well_nested(es),
    ensures
        tree_count(run(init_state(), es).root->Some_0) == elem_event_count(es),
{
    lemma_run_count(init_state(), es);
}

/// Every element enters the document with exactly the attributes its
/// event supplied, in event-supplied order: an opened element carries
/// them on the stack, a delivered element carries them as the newest
/// child of the open element on top.
pub proof fn lemma_attribute_order(s: BState, e: Ev)
    requires
        step_ok(s, e),
    ensures
        e matches Ev::Start { name, attrs } ==> step(s, e).stack.last() == new_tree(
            name,
            attrs,
            Seq::empty(),
        ),
        e matches Ev::Empty { name, attrs } ==> step(s, e).stack.last().children.last() == new_tree(
            name,
            attrs,
            Seq::empty(),
        ),
        e matches Ev::Simple { name, attrs, content } ==> step(s, e).stack.last().children.last()
            == new_tree(name, attrs, content),
{
}

/// The canonical replay of an element's text: one characters event, or
/// none when the text is empty.
pub open spec fn text_events(text: Seq<char>) -> Seq<Ev> {
    if text.len() == 0 {
        Seq::empty()
    } else {
        seq![Ev::Chars { text }]
    }
}

/// The canonical replay of the first `k` trees of a forest.
pub open spec fn forest_events(ts: Seq<DocTree>, k: int) -> Seq<Ev>
    decreases ts, k,
{
    if k <= 0 || k > ts.len() {
        Seq::empty()
    } else {
        forest_events(ts, k - 1) + events_of_tree(ts[k - 1])
    }
}

/// The canonical replay of one tree: start, children, text, end.
pub open spec fn events_of_tree(t: DocTree) -> Seq<Ev>
    decreases t,
{
    seq![Ev::Start { name: t.name, attrs: t.attrs }] + forest_events(
        t.children,
        t.children.len() as int,
    ) + text_events(t.text) + seq![Ev::End { name: t.name }]
}

/// Running a single event is stepping it.
proof fn lemma_run_one(s: BState, e: Ev)
    ensures
        run(s, seq![e]) == step(s, e),
        run_ok(s, seq![e]) == step_ok(s, e),
{
    assert(seq![e].len() == 1);
    assert(seq![e][0] == e);
    assert(seq![e].drop_first() =~= Seq::<Ev>::empty());
    assert(run(s, seq![e]) == run(step(s, e), seq![e].drop_first()));
    assert(run_ok(s, seq![e]) == (step_ok(s, e) && run_ok(step(s, e), seq![e].drop_first())));
}

/// Replaying a tree over a nonempty stack attaches it under the topmost
/// open element.
proof fn lemma_tree_replay(s: BState, t: DocTree)
    requires
        s.stack.len() > 0,
    ensures
        run_ok(s, events_of_tree(t)),
        run(s, events_of_tree(t)) == with_top(s, with_child(s.stack.last(), t)),
    decreases t,
{
    let e0 = Ev::Start { name: t.name, attrs: t.attrs };
    let e1 = Ev::End { name: t.name };
    let fresh = new_tree(t.name, t.attrs, Seq::empty());
    let fe = forest_events(t.children, t.children.len() as int);
    let te = text_events(t.text);
    let s1 = step(s, e0);
    lemma_forest_replay(s1, t.children, t.children.len() as int);
    let s2 = run(s1, fe);
    let filled = with_children(fresh, t.children.take(t.children.len() as int));
    assert(s2 == with_top(s1, filled));
    let s3 = run(s2, te);
    let complete = if t.text.len() == 0 {
        filled
    } else {
        with_text(filled, t.text)
    };
    if t.text.len() > 0 {
        lemma_run_one(s2, Ev::Chars { text: t.text });
        assert(s2.stack.last() == filled);
        assert(s3 == with_top(s2, complete));
    }
    assert(complete =~~= t) by {
        assert(t.children.take(t.children.len() as int) =~= t.children);
        assert(Seq::<DocTree>::empty() + t.children =~= t.children);
        if t.text.len() == 0 {
            assert(Seq::<char>::empty() + t.text =~= t.text);
            assert(complete.text =~= t.text);
        } else {
            assert(Seq::<char>::empty() + t.text =~= t.text);
        }
    }
    assert(s3.stack.last() == t);
    let s4 = step(s3, e1);
    assert(s3.stack.drop_last() =~= s.stack);
    assert(s4.stack =~= s.stack.update(s.stack.len() - 1, with_child(s.stack.last(), t)));
    assert(s4 =~= with_top(s, with_child(s.stack.last(), t)));
    lemma_run_one(s, e0);
    lemma_run_one(s3, e1);
    lemma_run_append(s, seq![e0], fe);
    lemma_run_append(s, seq![e0] + fe, te);
    lemma_run_append(s, seq![e0] + fe + te, seq![e1]);
    assert(run(s, events_of_tree(t)) == s4);
}

/// Replaying the first `k` trees of a forest over a nonempty stack
/// appends them, in order, under the topmost open element.
proof fn lemma_forest_replay(s: BState, ts: Seq<DocTree>, k: int)
    requires
        s.stack.len() > 0,
        0 <= k <= ts.len(),
    ensures
        run_ok(s, forest_events(ts, k)),
        run(s, forest_events(ts, k)) == with_top(s, with_children(s.stack.last(), ts.take(k))),
    decreases ts, k,
{
    if k == 0 {
        assert(with_children(s.stack.last(), ts.take(0)) =~~= s.stack.last()) by {
            assert(s.stack.last().children + ts.take(0) =~= s.stack.last().children);
        }
        assert(with_top(s, with_children(s.stack.last(), ts.take(0))).stack =~= s.stack);
        assert(with_top(s, with_children(s.stack.last(), ts.take(0))) =~= s);
    } else {
        lemma_forest_replay(s, ts, k - 1);
        let sm = run(s, forest_events(ts, k - 1));
        let part = with_children(s.stack.last(), ts.take(k - 1));
        assert(sm == with_top(s, part));
        lemma_tree_replay(sm, ts[k - 1]);
        lemma_run_append(s, forest_events(ts, k - 1), events_of_tree(ts[k - 1]));
        let sk = run(s, forest_events(ts, k));
        assert(sk == with_top(sm, with_child(part, ts[k - 1])));
        assert(with_child(part, ts[k - 1]) =~~= with_children(s.stack.last(), ts.take(k))) by {
            assert((s.stack.last().children + ts.take(k - 1)).push(ts[k - 1]) =~= s.stack.last().children
                + ts.take(k));
        }
        assert(sk.stack =~= with_top(s, with_children(s.stack.last(), ts.take(k))).stack);
        assert(sk =~= with_top(s, with_children(s.stack.last(), ts.take(k))));
    }
}

/// Replaying a document's canonical events through a fresh builder yields
/// exactly that document again: names, attribute order and text survive
/// the round trip.
pub proof fn lemma_event_round_trip(t: DocTree)
    ensures
        well_nested(events_of_tree(t)),
        run(init_state(), events_of_tree(t)).root == Some(t),
{
    let s = init_state();
    let e0 = Ev::Start { name: t.name, attrs: t.attrs };
    let e1 = Ev::End { name: t.name };
    let fresh = new_tree(t.name, t.attrs, Seq::empty());
    let fe = forest_events(t.children, t.children.len() as int);
    let te = text_events(t.text);
    let s1 = step(s, e0);
    assert(s1.stack =~= seq![fresh]);
    lemma_forest_replay(s1, t.children, t.children.len() as int);
    let s2 = run(s1, fe);
    let filled = with_children(fresh, t.children.take(t.children.len() as int));
    assert(s2 == with_top(s1, filled));
    let s3 = run(s2, te);
    let complete = if t.text.len() == 0 {
        filled
    } else {
        with_text(filled, t.text)
    };
    if t.text.len() > 0 {
        lemma_run_one(s2, Ev::Chars { text: t.text });
        assert(s3 == with_top(s2, complete));
    }
    assert(complete =~~= t) by {
        assert(t.children.take(t.children.len() as int) =~= t.children);
        assert(Seq::<DocTree>::empty() + t.children =~= t.children);
        assert(Seq::<char>::empty() + t.text =~= t.text);
    }
    assert(s3.stack.last() == t);
    let s4 = step(s3, e1);
    assert(s3.stack.drop_last() =~= Seq::<DocTree>::empty());
    assert(s4.root == Some(t));
    lemma_run_one(s, e0);
    lemma_run_one(s3, e1);
    lemma_run_append(s, seq![e0], fe);
    lemma_run_append(s, seq![e0] + fe, te);
    lemma_run_append(s, seq![e0] + fe + te, seq![e1]);
    assert(run(s, events_of_tree(t)) == s4);
}

/// Replays a whole record's events through a fresh builder: the completed
/// document when the sequence is well-nested, `None` otherwise.
pub fn build_document(events: &Vec<FieldEvent>) -> (r: Option<DocNode>)
    ensures
        match r {
            Some(d) => well_nested(evs_of(events@)) && tree_of(d) == run(
                init_state(),
                evs_of(events@),
            ).root->Some_0,
            None => !well_nested(evs_of(events@)),
        },
{
    let ghost evs = evs_of(events@);
    let mut b = TreeBuilder::new();
    let n = events.len();
    let mut i: usize = 0;
    proof {
        assert(evs.take(0) =~= Seq::<Ev>::empty());
    }
    while i < n
        invariant
            n == events@.len(),
            evs == evs_of(events@),
            i <= n,
            run_ok(init_state(), evs.take(i as int)),
            b.state() == run(init_state(), evs.take(i as int)),
        decreases n - i,
    {
        let e = &events[i];
        proof {
            lemma_forest_of_eq(b.stack@, b.stack@.len() as int);
        }
        let ok = match e {
            FieldEvent::StartElement { .. } => b.stack.len() > 0 || b.root.is_none(),
            _ => b.stack.len() > 0,
        };
        if !ok {
            proof {
                assert(!step_ok(b.state(), ev_of(events@[i as int])));
                lemma_run_append(init_state(), evs.take(i as int), evs.skip(i as int));
                assert(evs.take(i as int) + evs.skip(i as int) =~= evs);
                assert(evs.skip(i as int)[0] == evs[i as int]);
                assert(!run_ok(init_state(), evs));
            }
            return None;
        }
        b.apply(e);
        proof {
            lemma_run_one(run(init_state(), evs.take(i as int)), evs[i as int]);
            lemma_run_append(init_state(), evs.take(i as int), seq![evs[i as int]]);
            assert(evs.take(i as int) + seq![evs[i as int]] =~= evs.take(i + 1 as int));
        }
        i = i + 1;
    }
    proof {
        assert(evs.take(n as int) =~= evs);
        lemma_forest_of_eq(b.stack@, b.stack@.len() as int);
    }
    if b.stack.len() == 0 && b.root.is_some() {
        Some(b.finalize())
    } else {
        None
    }
}

/// Appends the canonical replay of the tree rooted at `d` to `out`.
fn push_events(d: &DocNode, out: &mut Vec<FieldEvent>)
    ensures
        evs_of(final(out)@) == evs_of(old(out)@) + events_of_tree(tree_of(*d)),
    decreases *d,
{
    let ghost base = out@;
    let ghost t = tree_of(*d);
    out.push(
        FieldEvent::StartElement { name: d.name.clone(), attributes: clone_attrs(&d.attributes) },
    );
    proof {
        assert(evs_of(out@) =~= evs_of(base) + seq![Ev::Start { name: t.name, attrs: t.attrs }]);
        lemma_forest_of_eq(d.children@, d.children@.len() as int);
    }
    let n = d.children.len();
    let mut i: usize = 0;
    while i < n
        invariant
            n == d.children@.len(),
            t == tree_of(*d),
            base == old(out)@,
            evs_of(out@) == evs_of(base) + seq![Ev::Start { name: t.name, attrs: t.attrs }]
                + forest_events(t.children, i as int),
            i <= n,
        decreases n - i,
    {
        proof {
            lemma_forest_of_eq(d.children@, d.children@.len() as int);
        }
        let ghost mid = out@;
        push_events(&d.children[i], out);
        proof {
            assert(evs_of(out@) =~= evs_of(mid) + events_of_tree(tree_of(d.children@[i as int])));
            assert(tree_of(d.children@[i as int]) == t.children[i as int]);
            assert(evs_of(out@) =~= evs_of(base) + seq![Ev::Start { name: t.name, attrs: t.attrs }]
                + forest_events(t.children, i + 1 as int));
        }
        i = i + 1;
    }
    proof {
        lemma_forest_of_eq(d.children@, d.children@.len() as int);
        assert(t.children.len() == n);
    }
    if !d.text.as_str().is_empty() {
        out.push(FieldEvent::Characters { text: d.text.clone() });
    }
    proof {
        assert(evs_of(out@) =~= evs_of(base) + seq![Ev::Start { name: t.name, attrs: t.attrs }]
            + forest_events(t.children, t.children.len() as int) + text_events(t.text));
    }
    let ghost prev = out@;
    out.push(FieldEvent::EndElement { name: d.name.clone() });
    proof {
        assert(evs_of(out@) =~= evs_of(prev) + seq![Ev::End { name: t.name }]);
        assert(evs_of(prev) == evs_of(base) + seq![Ev::Start { name: t.name, attrs: t.attrs }]
            + forest_events(t.children, t.children.len() as int) + text_events(t.text));
        assert(evs_of(out@) =~= evs_of(base) + events_of_tree(t));
    }
}

/// The canonical event replay of a document: feeding the result back
/// through a fresh builder rebuilds an identical document.
pub fn doc_events(d: &DocNode) -> (r: Vec<FieldEvent>)
    ensures
        evs_of(r@) == events_of_tree(tree_of(*d)),
{
    let mut out: Vec<FieldEvent> = Vec::new();
    push_events(d, &mut out);
    proof {
        assert(evs_of(Seq::<FieldEvent>::empty()) + events_of_tree(tree_of(*d)) =~= events_of_tree(
            tree_of(*d),
        ));
    }
    out
}

} // verus!

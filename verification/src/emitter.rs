//! The record emitter: serializes a matched document to an indented
//! textual tree form.
//!
//! Indentation grows by two spaces per nesting level.  An element without
//! attributes and text renders self-closed; an element with text renders
//! inline when the whole line fits in 80 characters and as three lines
//! otherwise.  Text holding one of `<`, `>`, `&` is wrapped in an escape
//! block before the length decision is made.

use vstd::prelude::*;

use crate::document::attrs_view;
use crate::document::lemma_forest_of_eq;
use crate::document::tree_of;
use crate::document::DocNode;
use crate::document::DocTree;

verus! {

broadcast use vstd::std_specs::vec::group_vec_axioms;

/// The attribute text ` key="value"`, in order, for the first `k` pairs.
pub open spec fn fmt_attrs(attrs: Seq<(Seq<char>, Seq<char>)>, k: int) -> Seq<char>
    decreases k,
{
    if k <= 0 || k > attrs.len() {
        Seq::empty()
    } else {
        fmt_attrs(attrs, k - 1) + " "@ + attrs[k - 1].0 + "=\""@ + attrs[k - 1].1 + "\""@
    }
}

/// Whether the character forces the escape block.
pub open spec fn is_special(c: char) -> bool {
    c == '<' || c == '>' || c == '&'
}

/// Whether any character of the text forces the escape block.
pub open spec fn has_special(s: Seq<char>) -> bool {
    exists|i: int| 0 <= i < s.len() && is_special(s[i])
}

/// The text as emitted: wrapped in an escape block when needed.
pub open spec fn escaped(content: Seq<char>) -> Seq<char> {
    if has_special(content) {
        "<[!CDATA["@ + content + "]]>"@
    } else {
        content
    }
}

/// The opening line of an element with children.
pub open spec fn start_line(indent: Seq<char>, name: Seq<char>, attrs: Seq<(Seq<char>, Seq<char>)>) -> Seq<
    char,
> {
    indent + "<"@ + name + fmt_attrs(attrs, attrs.len() as int) + ">"@
}

/// The line of an element with neither text nor children.
pub open spec fn empty_line(indent: Seq<char>, name: Seq<char>, attrs: Seq<(Seq<char>, Seq<char>)>) -> Seq<
    char,
> {
    indent + "<"@ + name + fmt_attrs(attrs, attrs.len() as int) + "/>"@
}

/// The closing tag of an element.
pub open spec fn end_tag(name: Seq<char>) -> Seq<char> {
    "</"@ + name + ">"@
}

/// The lines of a childless element: self-closed without text; with text,
/// inline when open tag, escaped content and closing tag together fit in
/// 80 characters, three lines otherwise.
pub open spec fn simple_lines(
    indent: Seq<char>,
    name: Seq<char>,
    attrs: Seq<(Seq<char>, Seq<char>)>,
    content: Seq<char>,
) -> Seq<Seq<char>> {
    if content.len() == 0 {
        seq![empty_line(indent, name, attrs)]
    } else {
        let c = escaped(content);
        let st = start_line(indent, name, attrs);
        let et = end_tag(name);
        if st.len() + c.len() + et.len() > 80 {
            seq![st, indent + c, indent + et]
        } else {
            seq![st + c + et]
        }
    }
}

/// The rendered lines of one tree at the given indentation.
pub open spec fn render_tree(t: DocTree, indent: Seq<char>) -> Seq<Seq<char>>
    decreases t,
{
    if t.children.len() == 0 {
        simple_lines(indent, t.name, t.attrs, t.text)
    } else {
        seq![start_line(indent, t.name, t.attrs)] + render_forest(
            t.children,
            t.children.len() as int,
            indent + "  "@,
        ) + seq![indent + end_tag(t.name)]
    }
}

/// The rendered lines of the first `k` trees of a forest.
pub open spec fn render_forest(ts: Seq<DocTree>, k: int, indent: Seq<char>) -> Seq<Seq<char>>
    decreases ts, k,
{
    if k <= 0 || k > ts.len() {
        Seq::empty()
    } else {
        render_forest(ts, k - 1, indent) + render_tree(ts[k - 1], indent)
    }
}

/// Scans the text for a character that forces the escape block.
fn has_special_exec(s: &str) -> (r: bool)
    ensures
        r == has_special(s@),
{
    let n = s.unicode_len();
    let mut i: usize = 0;
    while i < n
        invariant
            n == s@.len(),
            i <= n,
            forall|j: int| 0 <= j < i ==> !is_special(s@[j]),
        decreases n - i,
    {
        let c = s.get_char(i);
        if c == '<' || c == '>' || c == '&' {
            proof {
                assert(is_special(s@[i as int]));
            }
            return true;
        }
        i = i + 1;
    }
    false
}

/// Wraps the text in the escape block when it needs one.
fn escape_content(content: &str) -> (r: String)
    ensures
        r@ == escaped(content@),
{
    if has_special_exec(content) {
        let mut r = String::new();
        r.append("<[!CDATA[");
        r.append(content);
        r.append("]]>");
        proof {
            assert(r@ =~= escaped(content@));
        }
        r
    } else {
        content.to_owned()
    }
}

/// Serializes documents line by line, tracking the current indentation.
pub struct XmlOutputVisitor {
    pub indent: String,
    pub lines: Vec<String>,
}

impl XmlOutputVisitor {
    /// A fresh serializer at indentation zero with no output yet.
    pub fn new() -> (r: Self)
        ensures
            r.indent@ == Seq::<char>::empty(),
            r.lines.deep_view() == Seq::<Seq<char>>::empty(),
    {
        let r = Self { indent: String::new(), lines: Vec::new() };
        proof {
            assert(r.lines.deep_view() =~= Seq::<Seq<char>>::empty());
        }
        r
    }

    /// The current indentation.
    pub fn indent(&self) -> (r: &str)
        ensures
            r@ == self.indent@,
    {
        self.indent.as_str()
    }

    /// Descends one nesting level.
    pub fn enter(&mut self)
        ensures
            final(self).indent@ == old(self).indent@ + "  "@,
            final(self).lines == old(self).lines,
    {
        self.indent.append("  ");
    }

    /// Ascends one nesting level.
    pub fn leave(&mut self)
        requires
            old(self).indent@.len() >= 2,
        ensures
            final(self).indent@ == old(self).indent@.take(old(self).indent@.len() - 2),
            final(self).lines == old(self).lines,
    {
        let n = self.indent.as_str().unicode_len();
        let shorter = self.indent.as_str().substring_char(0, n - 2).to_owned();
        self.indent = shorter;
        proof {
            assert(self.indent@ =~= old(self).indent@.take(old(self).indent@.len() - 2));
        }
    }

    /// Renders the attribute pairs, in order, each as ` key="value"`.
    pub fn format_attributes(&self, attributes: &Vec<(String, String)>) -> (r: String)
        ensures
            r@ == fmt_attrs(attrs_view(attributes@), attributes@.len() as int),
    {
        let n = attributes.len();
        let mut r = String::new();
        let mut i: usize = 0;
        while i < n
            invariant
                n == attributes@.len(),
                i <= n,
                r@ == fmt_attrs(attrs_view(attributes@), i as int),
            decreases n - i,
        {
            r.append(" ");
            r.append(attributes[i].0.as_str());
            r.append("=\"");
            r.append(attributes[i].1.as_str());
            r.append("\"");
            proof {
                assert(r@ =~= fmt_attrs(attrs_view(attributes@), i + 1 as int));
            }
            i = i + 1;
        }
        r
    }

    /// Emits a self-closed element at the current indentation.
    pub fn visit_empty_element(&mut self, name: &str, attributes: &Vec<(String, String)>)
        ensures
            final(self).indent == old(self).indent,
            final(self).lines.deep_view() == old(self).lines.deep_view().push(
                empty_line(old(self).indent@, name@, attrs_view(attributes@)),
            ),
    {
        let mut line = String::new();
        line.append(self.indent.as_str());
        line.append("<");
        line.append(name);
        let a = self.format_attributes(attributes);
        line.append(a.as_str());
        line.append("/>");
        proof {
            assert(line@ =~= empty_line(self.indent@, name@, attrs_view(attributes@)));
        }
        self.lines.push(line);
        proof {
            assert(self.lines.deep_view() =~= old(self).lines.deep_view().push(
                empty_line(old(self).indent@, name@, attrs_view(attributes@)),
            ));
        }
    }

    /// Emits a childless element: self-closed, inline, or three lines,
    /// as the 80-character rule decides on the escaped content.
    pub fn visit_simple_element(
        &mut self,
        name: &str,
        attributes: &Vec<(String, String)>,
        content: &str,
    )
        ensures
            final(self).indent == old(self).indent,
            final(self).lines.deep_view() == old(self).lines.deep_view() + simple_lines(
                old(self).indent@,
                name@,
                attrs_view(attributes@),
                content@,
            ),
    {
        if content.unicode_len() == 0 {
            self.visit_empty_element(name, attributes);
            proof {
                assert(self.lines.deep_view() =~= old(self).lines.deep_view() + simple_lines(
                    old(self).indent@,
                    name@,
                    attrs_view(attributes@),
                    content@,
                ));
            }
            return ;
        }
        let c = escape_content(content);
        let mut st = String::new();
        st.append(self.indent.as_str());
        st.append("<");
        st.append(name);
        let a = self.format_attributes(attributes);
        st.append(a.as_str());
        st.append(">");
        let mut et = String::new();
        et.append("</");
        et.append(name);
        et.append(">");
        proof {
            assert(st@ =~= start_line(self.indent@, name@, attrs_view(attributes@)));
            assert(et@ =~= end_tag(name@));
        }
        let stn = st.as_str().unicode_len();
        let cn = c.as_str().unicode_len();
        let etn = et.as_str().unicode_len();
        let long = if stn > 80 || cn > 80 || etn > 80 {
            true
        } else {
            stn + cn + etn > 80
        };
        if long {
            let mut mid = String::new();
            mid.append(self.indent.as_str());
            mid.append(c.as_str());
            let mut last = String::new();
            last.append(self.indent.as_str());
            last.append(et.as_str());
            self.lines.push(st);
            self.lines.push(mid);
            self.lines.push(last);
            proof {
                assert(self.lines.deep_view() =~= old(self).lines.deep_view() + simple_lines(
                    old(self).indent@,
                    name@,
                    attrs_view(attributes@),
                    content@,
                ));
            }
        } else {
            st.append(c.as_str());
            st.append(et.as_str());
            self.lines.push(st);
            proof {
                assert(self.lines.deep_view() =~= old(self).lines.deep_view() + simple_lines(
                    old(self).indent@,
                    name@,
                    attrs_view(attributes@),
                    content@,
                ));
            }
        }
    }

    /// Emits the opening line of an element with children and descends.
    pub fn visit_start_element(&mut self, name: &str, attributes: &Vec<(String, String)>)
        ensures
            final(self).indent@ == old(self).indent@ + "  "@,
            final(self).lines.deep_view() == old(self).lines.deep_view().push(
                start_line(old(self).indent@, name@, attrs_view(attributes@)),
            ),
    {
        let mut line = String::new();
        line.append(self.indent.as_str());
        line.append("<");
        line.append(name);
        let a = self.format_attributes(attributes);
        line.append(a.as_str());
        line.append(">");
        proof {
            assert(line@ =~= start_line(self.indent@, name@, attrs_view(attributes@)));
        }
        self.lines.push(line);
        self.enter();
        proof {
            assert(self.lines.deep_view() =~= old(self).lines.deep_view().push(
                start_line(old(self).indent@, name@, attrs_view(attributes@)),
            ));
        }
    }

    /// Ascends and emits the closing tag of an element with children.
    pub fn visit_end_element(&mut self, name: &str)
        requires
            old(self).indent@.len() >= 2,
        ensures
            final(self).indent@ == old(self).indent@.take(old(self).indent@.len() - 2),
            final(self).lines.deep_view() == old(self).lines.deep_view().push(
                old(self).indent@.take(old(self).indent@.len() - 2) + end_tag(name@),
            ),
    {
        self.leave();
        let mut line = String::new();
        line.append(self.indent.as_str());
        line.append("</");
        line.append(name);
        line.append(">");
        proof {
            assert(line@ =~= old(self).indent@.take(old(self).indent@.len() - 2) + end_tag(name@));
        }
        self.lines.push(line);
        proof {
            assert(self.lines.deep_view() =~= old(self).lines.deep_view().push(
                old(self).indent@.take(old(self).indent@.len() - 2) + end_tag(name@),
            ));
        }
    }
}

/// Serializes the tree rooted at `d` into the visitor at its current
/// indentation, which is restored afterwards.
pub fn serialize_into(v: &mut XmlOutputVisitor, d: &DocNode)
    ensures
        final(v).indent@ == old(v).indent@,
        final(v).lines.deep_view() == old(v).lines.deep_view() + render_tree(
            tree_of(*d),
            old(v).indent@,
        ),
    decreases *d,
{
    proof {
        lemma_forest_of_eq(d.children@, d.children@.len() as int);
    }
    let n = d.children.len();
    if n == 0 {
        v.visit_simple_element(d.name.as_str(), &d.attributes, d.text.as_str());
        proof {
            assert(v.lines.deep_view() =~= old(v).lines.deep_view() + render_tree(
                tree_of(*d),
                old(v).indent@,
            ));
        }
        return ;
    }
    let ghost t = tree_of(*d);
    let ghost base = v.lines.deep_view();
    let ghost indent0 = v.indent@;
    v.visit_start_element(d.name.as_str(), &d.attributes);
    let mut i: usize = 0;
    proof {
        assert(v.lines.deep_view() =~= base + seq![start_line(indent0, t.name, t.attrs)]
            + render_forest(t.children, 0, indent0 + "  "@));
    }
    while i < n
        invariant
            n == d.children@.len(),
            t == tree_of(*d),
            t.children.len() == n,
            i <= n,
            v.indent@ == indent0 + "  "@,
            v.lines.deep_view() == base + seq![start_line(indent0, t.name, t.attrs)]
                + render_forest(t.children, i as int, indent0 + "  "@),
        decreases n - i,
    {
        proof {
            lemma_forest_of_eq(d.children@, d.children@.len() as int);
        }
        serialize_into(v, &d.children[i]);
        proof {
            assert(tree_of(d.children@[i as int]) == t.children[i as int]);
            assert(v.lines.deep_view() =~= base + seq![start_line(indent0, t.name, t.attrs)]
                + render_forest(t.children, i + 1 as int, indent0 + "  "@));
        }
        i = i + 1;
    }
    proof {
        reveal_strlit("  ");
    }
    v.visit_end_element(d.name.as_str());
    proof {
        assert((indent0 + "  "@).take((indent0 + "  "@).len() - 2) =~= indent0);
        assert(v.indent@ =~= indent0);
        assert(v.lines.deep_view() =~= base + render_tree(t, indent0));
    }
}

/// The whole tree form of a document, one line per sequence element.
pub fn serialize_tree(d: &DocNode) -> (r: Vec<String>)
    ensures
        r.deep_view() == render_tree(tree_of(*d), Seq::<char>::empty()),
{
    let mut v = XmlOutputVisitor::new();
    serialize_into(&mut v, d);
    proof {
        assert(Seq::<Seq<char>>::empty() + render_tree(tree_of(*d), Seq::<char>::empty())
            =~= render_tree(tree_of(*d), Seq::<char>::empty()));
    }
    v.lines
}

/// The serialized lines joined with one newline between adjacent lines.
pub open spec fn joined_lines(lines: Seq<Seq<char>>) -> Seq<char>
    decreases lines.len(),
{
    if lines.len() == 0 {
        Seq::empty()
    } else if lines.len() == 1 {
        lines[0]
    } else {
        joined_lines(lines.drop_last()) + "\n"@ + lines.last()
    }
}

/// Joins serialized lines with newlines.
pub fn join_lines(lines: &Vec<String>) -> (r: String)
    ensures
        r@ == joined_lines(lines.deep_view()),
{
    let n = lines.len();
    let mut r = String::new();
    let mut i: usize = 0;
    while i < n
        invariant
            n == lines@.len(),
            i <= n,
            r@ == joined_lines(lines.deep_view().take(i as int)),
        decreases n - i,
    {
        if i > 0 {
            r.append("\n");
        }
        r.append(lines[i].as_str());
        proof {
            let lv = lines.deep_view();
            assert(lv.take(i + 1 as int).drop_last() =~= lv.take(i as int));
            assert(lv.take(i + 1 as int).last() == lv[i as int]);
            assert(lv[i as int] == lines@[i as int]@);
            if i == 0 {
                assert(r@ =~= joined_lines(lv.take(i + 1 as int)));
            } else {
                assert(r@ =~= joined_lines(lv.take(i + 1 as int)));
            }
        }
        i = i + 1;
    }
    proof {
        assert(lines.deep_view().take(n as int) =~= lines.deep_view());
    }
    r
}

} // verus!

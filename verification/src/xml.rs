//! XML text: escaping, and the look-up of an element's value.
use crate::markup::{document, document_nodes, is_document, XmlDocument};
use crate::text::{eq_ignoring_case, same_ignoring_case, to_chars, trim_text, trimmed};
use vstd::prelude::*;

verus! {

/// What stands in XML text for one character.
pub open spec fn escaped_char(c: char) -> Seq<char> {
    if c == '&' {
        "&amp;"@
    } else if c == '<' {
        "&lt;"@
    } else if c == '>' {
        "&gt;"@
    } else if c == '"' {
        "&quot;"@
    } else if c == '\'' {
        "&apos;"@
    } else {
        seq![c]
    }
}

/// `s` as XML text: its markup characters are replaced by entity references.
pub open spec fn escaped(s: Seq<char>) -> Seq<char>
    decreases s.len(),
{
    if s.len() == 0 {
        Seq::empty()
    } else {
        escaped(s.drop_last()) + escaped_char(s.last())
    }
}

/// Replaces the five markup characters of a text by entity references.
pub fn escape_xml(v: &str) -> (r: String)
    ensures
        r@ == escaped(v@),
{
    let chars = to_chars(v);
    let mut r: String = String::new();
    let mut i: usize = 0;
    while i < chars.len()
        invariant
            i <= chars@.len(),
            chars@ == v@,
            r@ == escaped(v@.take(i as int)),
        decreases chars@.len() - i,
    {
        let c = chars[i];
        assert(v@.take(i + 1).drop_last() =~= v@.take(i as int));
        if c == '&' {
            r.append("&amp;");
        } else if c == '<' {
            r.append("&lt;");
        } else if c == '>' {
            r.append("&gt;");
        } else if c == '"' {
            r.append("&quot;");
        } else if c == '\'' {
            r.append("&apos;");
        } else {
            r.push(c);
            assert(r@ =~= escaped(v@.take(i as int)) + seq![c]);
        }
        i += 1;
    }
    assert(v@.take(i as int) =~= v@);
    r
}

/// Escaped text holds neither angle brackets nor quotation marks.
pub proof fn law_escaped_text_holds_no_markup(s: Seq<char>)
    ensures
        forall|i: int|
            0 <= i < escaped(s).len() ==> #[trigger] escaped(s)[i] != '<' && escaped(s)[i] != '>'
                && escaped(s)[i] != '"' && escaped(s)[i] != '\'',
    decreases s.len(),
{
    if s.len() > 0 {
        law_escaped_text_holds_no_markup(s.drop_last());
        lemma_references(s.last());
        let front = escaped(s.drop_last());
        let c = escaped_char(s.last());
        assert forall|i: int| 0 <= i < escaped(s).len() implies #[trigger] escaped(s)[i] != '<'
            && escaped(s)[i] != '>' && escaped(s)[i] != '"' && escaped(s)[i] != '\'' by {
            if i < front.len() {
                assert(escaped(s)[i] == front[i]);
            } else {
                assert(escaped(s)[i] == c[i - front.len()]);
            }
        }
    }
}

/// The entity references, letter by letter.
proof fn lemma_references(c: char)
    ensures
        escaped_char(c) == (if c == '&' {
            seq!['&', 'a', 'm', 'p', ';']
        } else if c == '<' {
            seq!['&', 'l', 't', ';']
        } else if c == '>' {
            seq!['&', 'g', 't', ';']
        } else if c == '"' {
            seq!['&', 'q', 'u', 'o', 't', ';']
        } else if c == '\'' {
            seq!['&', 'a', 'p', 'o', 's', ';']
        } else {
            seq![c]
        }),
{
    reveal_strlit("&amp;");
    reveal_strlit("&lt;");
    reveal_strlit("&gt;");
    reveal_strlit("&quot;");
    reveal_strlit("&apos;");
    assert("&amp;"@ =~= seq!['&', 'a', 'm', 'p', ';']);
    assert("&lt;"@ =~= seq!['&', 'l', 't', ';']);
    assert("&gt;"@ =~= seq!['&', 'g', 't', ';']);
    assert("&quot;"@ =~= seq!['&', 'q', 'u', 'o', 't', ';']);
    assert("&apos;"@ =~= seq!['&', 'a', 'p', 'o', 's', ';']);
}

/// Escaped text starts with what stands for the first character.
proof fn lemma_escaped_first(s: Seq<char>)
    requires
        s.len() > 0,
    ensures
        escaped(s) == escaped_char(s[0]) + escaped(s.drop_first()),
    decreases s.len(),
{
    if s.len() == 1 {
        assert(s.drop_last() =~= Seq::empty());
        assert(s.drop_first() =~= Seq::empty());
        assert(escaped(s) =~= escaped_char(s[0]) + escaped(s.drop_first()));
    } else {
        lemma_escaped_first(s.drop_last());
        assert(s.drop_first().drop_last() =~= s.drop_last().drop_first());
        assert(escaped(s) =~= escaped_char(s[0]) + escaped(s.drop_first()));
    }
}

/// Escaping loses nothing: different texts stay different.
pub proof fn law_escaping_loses_nothing(a: Seq<char>, b: Seq<char>)
    requires
        escaped(a) == escaped(b),
    ensures
        a == b,
    decreases a.len(),
{
    if a.len() > 0 {
        lemma_escaped_first(a);
        lemma_references(a[0]);
    }
    if b.len() > 0 {
        lemma_escaped_first(b);
        lemma_references(b[0]);
    }
    if a.len() == 0 || b.len() == 0 {
        assert(a =~= b);
    } else {
        let e = escaped(a);
        let x = escaped_char(a[0]);
        let y = escaped_char(b[0]);
        assert(e[0] == x[0] && e[0] == y[0]);
        if e[0] == '&' {
            assert(e[1] == x[1] && e[1] == y[1]);
            assert(e[2] == x[2] && e[2] == y[2]);
        }
        assert(a[0] == b[0]);
        assert(escaped(a.drop_first()) =~= e.skip(x.len() as int));
        assert(escaped(b.drop_first()) =~= e.skip(x.len() as int));
        law_escaping_loses_nothing(a.drop_first(), b.drop_first());
        assert(a =~= seq![a[0]] + a.drop_first());
        assert(b =~= seq![b[0]] + b.drop_first());
    }
}

/// A node as a parser reports it: whether it is an element, its tag name (empty
/// for any other node) and its text, if it has one.
pub type NodeView = (bool, Seq<char>, Option<Seq<char>>);

/// A node of a parsed document.
pub struct XmlNode {
    pub is_element: bool,
    pub name: String,
    pub text: Option<String>,
}

impl View for XmlNode {
    type V = NodeView;

    open spec fn view(&self) -> NodeView {
        (
            self.is_element,
            self.name@,
            match self.text {
                Some(t) => Some(t@),
                None => None,
            },
        )
    }
}

/// The nodes that a parse reports, as plain sequences.
pub open spec fn nodes_view(nodes: Option<Vec<XmlNode>>) -> Option<Seq<NodeView>> {
    match nodes {
        Some(v) => Some(v@.map_values(|n: XmlNode| n@)),
        None => None,
    }
}

/// The nodes of the document that `xml` is, in document order; `None` for a text
/// that is no document.
pub uninterp spec fn xml_nodes(xml: Seq<char>) -> Option<Seq<(bool, Seq<char>, Option<Seq<char>>)>>;

/// Calls `roxmltree::Document::parse` and hands out what
/// `Document::descendants` walks over: for each node whether it is an element
/// (`Node::is_element`), its local name (`Node::tag_name`) and its text
/// (`Node::text`).
///
/// The parse is a function of the text alone. Of a document of elements, comments and
/// processing instructions it reports exactly their nodes and those of the texts
/// between them; names are reported without their prefixes, which must be declared.
/// In texts the five entity references and the character references are resolved,
/// sections of character data are joined with what stands around them, and line
/// ends are normalized, but for a lone carriage return beside a reference, which is
/// kept. `Node::text` of an element is the text before the first item in it. The
/// parser skips a byte order mark, a declaration and white space around the root
/// element. It counts nodes in 32 bits, so nothing is said of a longer text. How
/// deep elements may be nested depends on the stack of the calling thread.
#[verifier::external_body]
pub(crate) fn parse_nodes(xml: &str) -> (nodes: Option<Vec<XmlNode>>)
    ensures
        nodes_view(nodes) == xml_nodes(xml@),
        forall|d: XmlDocument|
            is_document(d) && xml@ == #[trigger] document(d) && xml@.len() < u32::MAX
                ==> nodes_view(nodes) == Some(document_nodes(d)),
{
    let doc = roxmltree::Document::parse(xml).ok()?;
    Some(
        doc.descendants().map(
            |n| XmlNode {
                is_element: n.is_element(),
                name: n.tag_name().name().to_string(),
                text: n.text().map(|t| t.to_string()),
            },
        ).collect(),
    )
}

/// The text of the first element called `name`, in any case, without white space
/// at its ends; empty if there is no such element or it has no text.
pub open spec fn value_in(nodes: Seq<NodeView>, name: Seq<char>) -> Seq<char>
    decreases nodes.len(),
{
    if nodes.len() == 0 {
        Seq::empty()
    } else if nodes[0].0 && same_ignoring_case(nodes[0].1, name) {
        match nodes[0].2 {
            Some(t) => trimmed(t),
            None => Seq::empty(),
        }
    } else {
        value_in(nodes.drop_first(), name)
    }
}

/// The value that a parse result holds under `name`.
pub open spec fn parsed_value(nodes: Option<Seq<NodeView>>, name: Seq<char>) -> Seq<char> {
    match nodes {
        Some(n) => value_in(n, name),
        None => Seq::empty(),
    }
}

/// Looks up the value of the first element called `name` among parsed nodes.
pub fn node_value(nodes: &Vec<XmlNode>, name: &str) -> (r: String)
    ensures
        r@ == value_in(nodes@.map_values(|n: XmlNode| n@), name@),
{
    let ghost all = nodes@.map_values(|n: XmlNode| n@);
    let mut i: usize = 0;
    assert(all.skip(0) =~= all);
    while i < nodes.len()
        invariant
            i <= nodes@.len(),
            all == nodes@.map_values(|n: XmlNode| n@),
            value_in(all, name@) == value_in(all.skip(i as int), name@),
        decreases nodes@.len() - i,
    {
        let node = &nodes[i];
        assert(all.skip(i as int)[0] == node@);
        if node.is_element && eq_ignoring_case(node.name.as_str(), name) {
            match &node.text {
                Some(t) => {
                    let chars = to_chars(t.as_str());
                    assert(chars@.subrange(0, chars@.len() as int) =~= t@);
                    return trim_text(chars.as_slice(), 0, chars.len());
                },
                None => {
                    return String::new();
                },
            }
        }
        assert(all.skip(i as int).drop_first() =~= all.skip(i + 1));
        i += 1;
    }
    String::new()
}

/// The text of the first element called `name`, in any case, without white space
/// at its ends. It is empty if `xml` is no document, if it has no such element or
/// if the element has no text.
pub fn xml_value(xml: &str, name: &str) -> (r: String)
    ensures
        r@ == parsed_value(xml_nodes(xml@), name@),
        forall|d: XmlDocument|
            is_document(d) && xml@ == #[trigger] document(d) && xml@.len() < u32::MAX
                ==> r@ == value_in(document_nodes(d), name@),
{
    match parse_nodes(xml) {
        Some(nodes) => node_value(&nodes, name),
        None => String::new(),
    }
}

} // verus!

//! XML documents as trees: how they are written and which nodes they have.
use crate::xml::{escaped_char, NodeView};
use vstd::prelude::*;

verus! {

/// A piece of a text in a document and how it is written.
pub enum Glyph {
    /// A character as it is.
    Plain(char),
    /// A character as one of the five entity references.
    Reference(char),
    /// A character by its number, with the digits that are written.
    Code(char, Seq<char>),
    /// A line feed, written as a carriage return and a line feed.
    LineEnd,
    /// A carriage return that no line feed follows. It stands for a line feed, unless
    /// it is kept beside a reference.
    Return(bool),
    /// A text in a section of character data, in which nothing is markup.
    Section(Seq<char>),
}

/// A text as it is written in a document.
pub type Spelling = Seq<Glyph>;

/// What is written for a piece of a text.
pub open spec fn glyph_text(g: Glyph) -> Seq<char> {
    match g {
        Glyph::Plain(c) => seq![c],
        Glyph::Reference(c) => escaped_char(c),
        Glyph::Code(_, code) => "&#"@ + code + ";"@,
        Glyph::LineEnd => seq!['\r', '\n'],
        Glyph::Return(_) => seq!['\r'],
        Glyph::Section(c) => "<![CDATA["@ + c + "]]>"@,
    }
}

/// A text with its line ends normalized: a carriage return, with or without a line
/// feed behind it, stands for a line feed.
pub open spec fn with_line_feeds(s: Seq<char>) -> Seq<char>
    decreases s.len(),
{
    if s.len() == 0 {
        s
    } else if s[0] != '\r' {
        seq![s[0]] + with_line_feeds(s.drop_first())
    } else if s.len() > 1 && s[1] == '\n' {
        with_line_feeds(s.drop_first())
    } else {
        seq!['\n'] + with_line_feeds(s.drop_first())
    }
}

/// The text that is meant by a piece.
pub open spec fn glyph_meant(g: Glyph) -> Seq<char> {
    match g {
        Glyph::Plain(c) => seq![c],
        Glyph::Reference(c) => seq![c],
        Glyph::Code(c, _) => seq![c],
        Glyph::LineEnd => seq!['\n'],
        Glyph::Return(kept) => if kept {
            seq!['\r']
        } else {
            seq!['\n']
        },
        Glyph::Section(c) => with_line_feeds(c),
    }
}

/// What is written for a text.
pub open spec fn spelled(s: Spelling) -> Seq<char>
    decreases s.len(),
{
    if s.len() == 0 {
        Seq::empty()
    } else {
        spelled(s.drop_last()) + glyph_text(s.last())
    }
}

/// The text that is meant.
pub open spec fn meant(s: Spelling) -> Seq<char>
    decreases s.len(),
{
    if s.len() == 0 {
        Seq::empty()
    } else {
        meant(s.drop_last()) + glyph_meant(s.last())
    }
}

/// The characters that have an entity reference of their own.
pub open spec fn is_markup(c: char) -> bool {
    c == '&' || c == '<' || c == '>' || c == '"' || c == '\''
}

/// A character that XML text can hold as it is. A carriage return is left out,
/// since line ends are normalized on reading.
pub open spec fn is_text_char(c: char) -> bool {
    ||| c == '\t'
    ||| c == '\n'
    ||| ' ' <= c && c != '\u{fffe}' && c != '\u{ffff}'
}

/// Text that XML can hold.
pub open spec fn is_text(s: Seq<char>) -> bool {
    forall|i: int| 0 <= i < s.len() ==> is_text_char(#[trigger] s[i])
}

/// A character that a document can hold.
pub open spec fn is_xml_char(c: char) -> bool {
    is_text_char(c) || c == '\r'
}

/// Text that a document can hold.
pub open spec fn is_xml_text(s: Seq<char>) -> bool {
    forall|i: int| 0 <= i < s.len() ==> is_xml_char(#[trigger] s[i])
}

/// The value of a digit; 16 for any other character.
pub open spec fn digit_value(c: char) -> int {
    if '0' <= c <= '9' {
        c as int - '0' as int
    } else if 'a' <= c <= 'f' {
        c as int - 'a' as int + 10
    } else if 'A' <= c <= 'F' {
        c as int - 'A' as int + 10
    } else {
        16
    }
}

/// The number that digits stand for.
pub open spec fn number_of(digits: Seq<char>, base: int) -> int
    decreases digits.len(),
{
    if digits.len() == 0 {
        0
    } else {
        number_of(digits.drop_last(), base) * base + digit_value(digits.last())
    }
}

/// Digits of the number of `c`.
pub open spec fn are_digits_of(digits: Seq<char>, base: int, c: char) -> bool {
    &&& digits.len() > 0
    &&& forall|i: int| 0 <= i < digits.len() ==> digit_value(#[trigger] digits[i]) < base
    &&& number_of(digits, base) == c as int
}

/// What may stand for the number of `c`: decimal digits, or hexadecimal ones behind
/// an `x`.
pub open spec fn is_code(code: Seq<char>, c: char) -> bool {
    ||| are_digits_of(code, 10, c)
    ||| code.len() > 0 && code[0] == 'x' && are_digits_of(code.drop_first(), 16, c)
}

/// A piece of text that may be written in this way.
pub open spec fn is_glyph(g: Glyph) -> bool {
    match g {
        Glyph::Plain(c) => is_text_char(c) && c != '<' && c != '&',
        Glyph::Reference(c) => is_markup(c),
        Glyph::Code(c, code) => is_xml_char(c) && is_code(code, c),
        Glyph::LineEnd => true,
        Glyph::Return(_) => true,
        Glyph::Section(c) => is_xml_text(c) && forall|i: int|
            0 <= i < c.len() - 2 && #[trigger] c[i] == ']' && c[i + 1] == ']' ==> c[i + 2] != '>',
    }
}

/// A character that is written as a reference, by a name or by its number.
pub open spec fn is_referred(g: Glyph) -> bool {
    g is Reference || g is Code
}

/// The carriage return at `i` is kept: a reference follows it or, where nothing or a
/// section does, stands before it.
pub open spec fn is_kept_return(s: Spelling, i: int) -> bool {
    if i + 1 < s.len() && !(s[i + 1] is Section) {
        is_referred(s[i + 1])
    } else {
        0 < i && is_referred(s[i - 1])
    }
}

/// A text that may be written in this way; `]]>` must not stand in it.
pub open spec fn is_spelling(s: Spelling) -> bool {
    &&& forall|i: int|
        0 <= i < s.len() && (#[trigger] s[i]) is Return ==> s[i] == Glyph::Return(
            is_kept_return(s, i),
        ) && (i + 1 < s.len() ==> s[i + 1] != Glyph::Plain('\n'))
    &&& forall|i: int| 0 <= i < s.len() ==> is_glyph(#[trigger] s[i])
    &&& forall|i: int|
        0 <= i < s.len() - 2 && #[trigger] s[i] == Glyph::Plain(']') && s[i + 1] == Glyph::Plain(']')
            ==> s[i + 2] != Glyph::Plain('>')
}

/// The value of an attribute that may be written in this way between two of the
/// given quotation marks.
pub open spec fn is_value(s: Spelling, quote: char) -> bool {
    &&& forall|i: int|
        0 <= i < s.len() ==> is_glyph(#[trigger] s[i]) && !(s[i] is Section) && s[i]
            != Glyph::Plain(quote)
    &&& forall|i: int|
        0 <= i < s.len() - 1 && (#[trigger] s[i]) is Return ==> s[i + 1] != Glyph::Plain('\n')
}

/// The character that is meant by a piece of the value of an attribute, in which white
/// space is a space unless it is written as a reference.
pub open spec fn value_char(g: Glyph) -> char {
    match g {
        Glyph::Plain(c) => if c == '\t' || c == '\n' {
            ' '
        } else {
            c
        },
        Glyph::Reference(c) => c,
        Glyph::Code(c, _) => c,
        _ => ' ',
    }
}

/// The value of an attribute that is meant.
pub open spec fn value_meant(s: Spelling) -> Seq<char> {
    s.map_values(|g: Glyph| value_char(g))
}

/// White space between the parts of a document.
pub open spec fn is_blank(s: Seq<char>) -> bool {
    forall|i: int|
        0 <= i < s.len() ==> #[trigger] s[i] == ' ' || s[i] == '\t' || s[i] == '\n' || s[i] == '\r'
}

/// A letter, or another character with which a name may start.
pub open spec fn is_name_start(c: char) -> bool {
    ||| 'A' <= c <= 'Z'
    ||| 'a' <= c <= 'z'
    ||| c == '_'
    ||| '\u{c0}' <= c <= '\u{d6}'
    ||| '\u{d8}' <= c <= '\u{f6}'
    ||| '\u{f8}' <= c <= '\u{2ff}'
    ||| '\u{370}' <= c <= '\u{37d}'
    ||| '\u{37f}' <= c <= '\u{1fff}'
    ||| '\u{200c}' <= c <= '\u{200d}'
    ||| '\u{2070}' <= c <= '\u{218f}'
    ||| '\u{2c00}' <= c <= '\u{2fef}'
    ||| '\u{3001}' <= c <= '\u{d7ff}'
    ||| '\u{f900}' <= c <= '\u{fdcf}'
    ||| '\u{fdf0}' <= c <= '\u{fffd}'
    ||| '\u{10000}' <= c <= '\u{effff}'
}

/// A character of a name.
pub open spec fn is_name_char(c: char) -> bool {
    ||| is_name_start(c)
    ||| '0' <= c <= '9'
    ||| c == '-'
    ||| c == '.'
    ||| c == '\u{b7}'
    ||| '\u{300}' <= c <= '\u{36f}'
    ||| '\u{203f}' <= c <= '\u{2040}'
}

/// A name without a prefix.
pub open spec fn is_name(s: Seq<char>) -> bool {
    &&& s.len() > 0
    &&& is_name_start(s[0])
    &&& forall|i: int| 0 <= i < s.len() ==> is_name_char(#[trigger] s[i])
}

/// A name with its prefix; an empty prefix stands for none.
pub open spec fn full_name(prefix: Seq<char>, name: Seq<char>) -> Seq<char> {
    if prefix.len() == 0 {
        name
    } else {
        prefix + ":"@ + name
    }
}

/// An attribute with the white space before it and around its equals sign.
pub struct Attribute {
    pub gap: Seq<char>,
    pub prefix: Seq<char>,
    pub name: Seq<char>,
    pub left: Seq<char>,
    pub right: Seq<char>,
    pub quote: char,
    pub value: Spelling,
}

/// What is written for an attribute.
pub open spec fn attribute_text(a: Attribute) -> Seq<char> {
    a.gap + full_name(a.prefix, a.name) + a.left + "="@ + a.right + seq![a.quote] + spelled(a.value)
        + seq![a.quote]
}

/// What is written for attributes.
pub open spec fn attributes_text(attributes: Seq<Attribute>) -> Seq<char>
    decreases attributes.len(),
{
    if attributes.len() == 0 {
        Seq::empty()
    } else {
        attributes_text(attributes.drop_last()) + attribute_text(attributes.last())
    }
}

/// An attribute that declares a prefix.
pub open spec fn declares_prefix(a: Attribute) -> bool {
    a.prefix == "xmlns"@
}

/// An attribute that declares a name space, for a prefix or for names without one. One
/// of the name `xmlns` is taken for such, whatever its prefix.
pub open spec fn declares(a: Attribute) -> bool {
    declares_prefix(a) || a.name == "xmlns"@
}

/// The name space of the prefix `xml`.
pub open spec fn xml_space() -> Seq<char> {
    "http://www.w3.org/XML/1998/namespace"@
}

/// The name spaces that must not be declared.
pub open spec fn is_reserved_space(uri: Seq<char>) -> bool {
    uri == xml_space() || uri == "http://www.w3.org/2000/xmlns/"@
}

/// The prefixes that attributes declare, each with its name space. The prefix `xml` may
/// be declared, but that makes it one for attributes only, as it is without.
pub open spec fn declared_spaces(attributes: Seq<Attribute>) -> Map<Seq<char>, Seq<char>>
    decreases attributes.len(),
{
    if attributes.len() == 0 {
        Map::empty()
    } else {
        let front = declared_spaces(attributes.drop_last());
        let a = attributes.last();
        if declares_prefix(a) && a.name != "xml"@ {
            front.insert(a.name, value_meant(a.value))
        } else {
            front
        }
    }
}

/// An attribute that may be written as it is where the prefixes in `scope` are
/// declared.
pub open spec fn is_attribute(a: Attribute, scope: Map<Seq<char>, Seq<char>>) -> bool {
    let uri = value_meant(a.value);
    &&& a.gap.len() > 0 && is_blank(a.gap) && is_blank(a.left) && is_blank(a.right)
    &&& is_name(a.name)
    &&& a.quote == '"' || a.quote == '\''
    &&& is_value(a.value, a.quote)
    &&& if declares_prefix(a) {
        &&& a.name != "xmlns"@
        &&& if a.name == "xml"@ {
            uri == xml_space()
        } else {
            !is_reserved_space(uri)
        }
    } else {
        &&& a.prefix.len() > 0 ==> is_name(a.prefix) && (a.prefix == "xml"@ || scope.contains_key(
            a.prefix,
        ))
        &&& declares(a) ==> !is_reserved_space(uri)
    }
}

/// The name space of an attribute, if it has a prefix.
pub open spec fn space_of(a: Attribute, scope: Map<Seq<char>, Seq<char>>) -> Option<Seq<char>> {
    if a.prefix.len() == 0 {
        None
    } else if a.prefix == "xml"@ {
        Some(xml_space())
    } else {
        Some(scope[a.prefix])
    }
}

/// Two attributes that may stand in one tag: one declares a name space and the other
/// does not, or their names differ, or their prefixes do if both declare a name space and
/// their name spaces if neither does.
pub open spec fn may_meet(
    a: Attribute,
    b: Attribute,
    scope: Map<Seq<char>, Seq<char>>,
) -> bool {
    ||| declares(a) != declares(b)
    ||| a.name != b.name
    ||| if declares(a) {
        a.prefix != b.prefix
    } else {
        space_of(a, scope) != space_of(b, scope)
    }
}

/// Attributes that may stand in one tag.
pub open spec fn are_attributes(
    attributes: Seq<Attribute>,
    scope: Map<Seq<char>, Seq<char>>,
) -> bool {
    &&& forall|i: int| 0 <= i < attributes.len() ==> is_attribute(#[trigger] attributes[i], scope)
    &&& forall|i: int, j: int|
        0 <= i < j < attributes.len() ==> may_meet(
            #[trigger] attributes[i],
            #[trigger] attributes[j],
            scope,
        )
}

/// How an item is written.
pub enum XmlForm {
    /// With a start tag and an end tag.
    Element,
    /// With one tag that ends in a slash.
    Empty,
    /// As a comment.
    Comment(Seq<char>),
    /// As a processing instruction: its target and what follows that.
    Instruction(Seq<char>, Seq<char>),
}

/// An element, a comment or a processing instruction. Of an element `text` stands
/// before the first item in it, and the `tail` of an item stands after that item;
/// `gap` and `end_gap` are the white space at the end of its start tag and of its end
/// tag. The others have no name and nothing in them.
pub struct XmlItem {
    pub form: XmlForm,
    pub prefix: Seq<char>,
    pub name: Seq<char>,
    pub attributes: Seq<Attribute>,
    pub gap: Seq<char>,
    pub text: Spelling,
    pub kids: Seq<XmlItem>,
    pub end_gap: Seq<char>,
    pub tail: Spelling,
}

/// The start tag of an element without its end.
pub open spec fn start_text(e: XmlItem) -> Seq<char> {
    "<"@ + full_name(e.prefix, e.name) + attributes_text(e.attributes) + e.gap
}

/// What stands before the first item in an element.
pub open spec fn lead_text(e: XmlItem) -> Seq<char> {
    start_text(e) + ">"@ + spelled(e.text)
}

/// The end tag of an element.
pub open spec fn end_tag(e: XmlItem) -> Seq<char> {
    "</"@ + full_name(e.prefix, e.name) + e.end_gap + ">"@
}

/// What is written for a comment.
pub open spec fn comment_text(c: Seq<char>) -> Seq<char> {
    "<!--"@ + c + "-->"@
}

/// What is written for a processing instruction.
pub open spec fn instruction_text(target: Seq<char>, rest: Seq<char>) -> Seq<char> {
    "<?"@ + target + rest + "?>"@
}

/// What is written for an item.
pub open spec fn rendered(e: XmlItem) -> Seq<char>
    decreases e,
{
    match e.form {
        XmlForm::Element => lead_text(e) + rendered_all(e.kids) + end_tag(e),
        XmlForm::Empty => start_text(e) + "/>"@,
        XmlForm::Comment(c) => comment_text(c),
        XmlForm::Instruction(target, rest) => instruction_text(target, rest),
    }
}

/// What is written for items that follow each other, each with its tail.
pub open spec fn rendered_all(kids: Seq<XmlItem>) -> Seq<char>
    decreases kids,
{
    if kids.len() == 0 {
        Seq::empty()
    } else {
        rendered_all(kids.drop_last()) + rendered(kids.last()) + spelled(kids.last().tail)
    }
}

/// The text of an element: none when nothing stands before the first item in it.
pub open spec fn leading_text(s: Spelling) -> Option<Seq<char>> {
    if s.len() == 0 {
        None
    } else {
        Some(meant(s))
    }
}

/// The text node that a text makes, if there is any text.
pub open spec fn text_node(s: Spelling) -> Seq<NodeView> {
    if s.len() == 0 {
        Seq::empty()
    } else {
        seq![(false, Seq::empty(), Some(meant(s)))]
    }
}

/// An element and its text.
pub open spec fn lead_nodes(e: XmlItem) -> Seq<NodeView> {
    seq![(true, e.name, leading_text(e.text))] + text_node(e.text)
}

/// An item and everything in it, in document order.
pub open spec fn nodes_of(e: XmlItem) -> Seq<NodeView>
    decreases e,
{
    match e.form {
        XmlForm::Element => lead_nodes(e) + nodes_of_all(e.kids),
        XmlForm::Empty => seq![(true, e.name, None)],
        XmlForm::Comment(c) => seq![(false, Seq::empty(), Some(c))],
        XmlForm::Instruction(_, _) => seq![(false, Seq::empty(), None)],
    }
}

/// Items that follow each other and everything in them, in document order.
pub open spec fn nodes_of_all(kids: Seq<XmlItem>) -> Seq<NodeView>
    decreases kids,
{
    if kids.len() == 0 {
        Seq::empty()
    } else {
        nodes_of_all(kids.drop_last()) + nodes_of(kids.last()) + text_node(kids.last().tail)
    }
}

/// The text of a comment: two hyphens must not stand in it, nor one at its end.
pub open spec fn is_comment(c: Seq<char>) -> bool {
    &&& is_xml_text(c)
    &&& forall|i: int| 0 <= i < c.len() - 1 && #[trigger] c[i] == '-' ==> c[i + 1] != '-'
    &&& c.len() > 0 ==> c.last() != '-'
}

/// The target of a processing instruction and what follows it: white space, if
/// anything, and a text in which the end of the instruction does not stand.
pub open spec fn is_instruction(target: Seq<char>, rest: Seq<char>) -> bool {
    &&& is_name(target) && target != "xml"@
    &&& rest.len() > 0 ==> is_blank(rest.take(1))
    &&& is_xml_text(rest)
    &&& forall|i: int| 0 <= i < rest.len() - 1 && #[trigger] rest[i] == '?' ==> rest[i + 1] != '>'
}

/// The prefixes that are declared in an element, where those in `scope` are declared
/// around it, each with its name space.
pub open spec fn scope_in(
    e: XmlItem,
    scope: Map<Seq<char>, Seq<char>>,
) -> Map<Seq<char>, Seq<char>> {
    scope.union_prefer_right(declared_spaces(e.attributes))
}

/// The tags of an element may be written as they are.
pub open spec fn are_tags(e: XmlItem, scope: Map<Seq<char>, Seq<char>>) -> bool {
    &&& is_name(e.name)
    &&& e.prefix.len() > 0 ==> is_name(e.prefix) && scope_in(e, scope).contains_key(e.prefix)
    &&& are_attributes(e.attributes, scope_in(e, scope))
    &&& is_blank(e.gap)
    &&& is_blank(e.end_gap)
}

/// An item that may be written as it is where the prefixes in `scope` are declared.
pub open spec fn is_plain(e: XmlItem, scope: Map<Seq<char>, Seq<char>>) -> bool
    decreases e,
{
    &&& is_spelling(e.tail)
    &&& match e.form {
        XmlForm::Element => are_tags(e, scope) && is_spelling(e.text) && all_plain(
            e.kids,
            scope_in(e, scope),
        ),
        XmlForm::Empty => are_tags(e, scope),
        XmlForm::Comment(c) => is_comment(c),
        XmlForm::Instruction(target, rest) => is_instruction(target, rest),
    }
}

/// Items that may be written as they are.
pub open spec fn all_plain(kids: Seq<XmlItem>, scope: Map<Seq<char>, Seq<char>>) -> bool
    decreases kids,
{
    kids.len() == 0 || (all_plain(kids.drop_last(), scope) && is_plain(kids.last(), scope))
}

/// How many of the attributes declare a name space.
pub open spec fn count_declared(attributes: Seq<Attribute>) -> nat
    decreases attributes.len(),
{
    if attributes.len() == 0 {
        0
    } else {
        count_declared(attributes.drop_last()) + (if declares(attributes.last()) {
            1nat
        } else {
            0
        })
    }
}

/// How many name spaces an item declares, with everything in it.
pub open spec fn count_spaces(e: XmlItem) -> nat
    decreases e,
{
    match e.form {
        XmlForm::Element => count_declared(e.attributes) + count_all_spaces(e.kids),
        XmlForm::Empty => count_declared(e.attributes),
        _ => 0,
    }
}

/// How many name spaces items declare, with everything in them.
pub open spec fn count_all_spaces(kids: Seq<XmlItem>) -> nat
    decreases kids,
{
    if kids.len() == 0 {
        0
    } else {
        count_all_spaces(kids.drop_last()) + count_spaces(kids.last())
    }
}

/// A part of a declaration with the white space before it and around its equals sign.
pub struct Quoted {
    pub gap: Seq<char>,
    pub left: Seq<char>,
    pub right: Seq<char>,
    pub quote: char,
    pub value: Seq<char>,
}

/// What is written for a part of a declaration.
pub open spec fn quoted_text(name: Seq<char>, q: Quoted) -> Seq<char> {
    q.gap + name + q.left + "="@ + q.right + seq![q.quote] + q.value + seq![q.quote]
}

/// A part of a declaration that may be written as it is.
pub open spec fn is_quoted(q: Quoted) -> bool {
    &&& q.gap.len() > 0 && is_blank(q.gap) && is_blank(q.left) && is_blank(q.right)
    &&& q.quote == '"' || q.quote == '\''
    &&& is_xml_text(q.value)
    &&& forall|i: int|
        0 <= i < q.value.len() ==> #[trigger] q.value[i] != q.quote && q.value[i] != '<'
}

/// The declaration at the start of a document.
pub struct Declaration {
    pub version: Quoted,
    pub encoding: Option<Quoted>,
    pub standalone: Option<Quoted>,
    pub gap: Seq<char>,
}

/// What is written for a part of a declaration that may be missing.
pub open spec fn optional_text(name: Seq<char>, q: Option<Quoted>) -> Seq<char> {
    match q {
        Some(q) => quoted_text(name, q),
        None => Seq::empty(),
    }
}

/// What is written for a declaration.
pub open spec fn declaration_text(d: Declaration) -> Seq<char> {
    "<?xml"@ + quoted_text("version"@, d.version) + optional_text("encoding"@, d.encoding)
        + optional_text("standalone"@, d.standalone) + d.gap + "?>"@
}

/// A declaration that may be written as it is; a space must follow its first word.
pub open spec fn is_declaration(d: Declaration) -> bool {
    &&& is_quoted(d.version) && d.version.gap[0] == ' '
    &&& d.encoding matches Some(q) ==> is_quoted(q)
    &&& d.standalone matches Some(q) ==> is_quoted(q)
    &&& is_blank(d.gap)
}

/// A comment or a processing instruction outside of the root element, with the white
/// space behind it.
pub struct Aside {
    pub form: XmlForm,
    pub gap: Seq<char>,
}

/// What is written for a comment or a processing instruction.
pub open spec fn aside_text(a: Aside) -> Seq<char> {
    match a.form {
        XmlForm::Comment(c) => comment_text(c) + a.gap,
        XmlForm::Instruction(target, rest) => instruction_text(target, rest) + a.gap,
        _ => a.gap,
    }
}

/// What is written for comments and processing instructions that follow each other.
pub open spec fn asides_text(asides: Seq<Aside>) -> Seq<char>
    decreases asides.len(),
{
    if asides.len() == 0 {
        Seq::empty()
    } else {
        asides_text(asides.drop_last()) + aside_text(asides.last())
    }
}

/// The nodes of comments and processing instructions.
pub open spec fn aside_nodes(asides: Seq<Aside>) -> Seq<NodeView> {
    asides.map_values(
        |a: Aside|
            match a.form {
                XmlForm::Comment(c) => (false, Seq::empty(), Some(c)),
                _ => (false, Seq::empty(), None),
            },
    )
}

/// A comment or a processing instruction that may be written as it is.
pub open spec fn is_aside(a: Aside) -> bool {
    &&& is_blank(a.gap)
    &&& match a.form {
        XmlForm::Comment(c) => is_comment(c),
        XmlForm::Instruction(target, rest) => is_instruction(target, rest),
        _ => false,
    }
}

/// A document: it may start with a byte order mark and a declaration, and there may
/// be white space, comments and processing instructions around its root element.
pub struct XmlDocument {
    pub marked: bool,
    pub declaration: Option<Declaration>,
    pub gap: Seq<char>,
    pub before: Seq<Aside>,
    pub root: XmlItem,
    pub end: Seq<char>,
    pub after: Seq<Aside>,
}

/// What stands in a document before its root element.
pub open spec fn prolog(d: XmlDocument) -> Seq<char> {
    (if d.marked {
        seq!['\u{feff}']
    } else {
        Seq::empty()
    }) + (match d.declaration {
        Some(t) => declaration_text(t),
        None => Seq::empty(),
    }) + d.gap + asides_text(d.before)
}

/// What stands in a document after its root element.
pub open spec fn epilog(d: XmlDocument) -> Seq<char> {
    d.end + asides_text(d.after)
}

/// What is written for a document.
pub open spec fn document(d: XmlDocument) -> Seq<char> {
    prolog(d) + rendered(d.root) + epilog(d)
}

/// A document that may be written as it is and declares fewer name spaces than a
/// parser can count in 16 bits.
pub open spec fn is_document(d: XmlDocument) -> bool {
    &&& d.declaration matches Some(t) ==> is_declaration(t)
    &&& is_blank(d.gap)
    &&& forall|i: int| 0 <= i < d.before.len() ==> is_aside(#[trigger] d.before[i])
    &&& is_plain(d.root, Map::empty())
    &&& d.root.form is Element || d.root.form is Empty
    &&& count_spaces(d.root) < u16::MAX
    &&& is_blank(d.end)
    &&& forall|i: int| 0 <= i < d.after.len() ==> is_aside(#[trigger] d.after[i])
}

/// The nodes of a document: the node of the document itself, then its elements, texts,
/// comments and processing instructions.
pub open spec fn document_nodes(d: XmlDocument) -> Seq<NodeView> {
    seq![(false, Seq::empty(), None)] + aside_nodes(d.before) + nodes_of(d.root) + aside_nodes(
        d.after,
    )
}

/// A character as it is, or as a reference if it is a markup character.
pub open spec fn glyph_of(c: char) -> Glyph {
    if is_markup(c) {
        Glyph::Reference(c)
    } else {
        Glyph::Plain(c)
    }
}

/// The spelling of `s` with every markup character as a reference.
pub open spec fn spelling_of(s: Seq<char>) -> Spelling {
    s.map_values(|c: char| glyph_of(c))
}

} // verus!

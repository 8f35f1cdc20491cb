//! Laws of reading back what was written.
use crate::ixml::{merged, replaced_ci};
use crate::markup::{
    all_plain, are_tags, aside_nodes, count_all_spaces, count_declared, count_spaces,
    declaration_text, document, document_nodes, end_tag, epilog, is_declaration, is_document, is_name,
    is_plain, is_spelling, is_text, lead_nodes, lead_text, leading_text, meant, nodes_of,
    nodes_of_all, prolog, quoted_text, rendered, rendered_all, scope_in, spelled, spelling_of,
    start_text, text_node, Declaration, Quoted, Spelling, XmlDocument, XmlForm, XmlItem,
};
use crate::merge_laws::{
    is_closed, lemma_block_found, lemma_field_names, lemma_heads_clear, lemma_no_open_before,
    open_pattern,
};
use crate::metadata::{chosen, overlaid};
use crate::riff::{ixml_text, rewritten, written};
use crate::text::{
    find_from, lemma_find_meaning, lower, matches_at, rfind, same_ignoring_case, trimmed,
};
use crate::ucs::{aswg_fields, aswg_text, field_xml, fields_xml, Fields, Ucs};
use crate::wave_laws::{has_place, law_rest_of_the_file_stays, law_written_document_is_read};
use crate::xml::{escaped, value_in, NodeView};
use vstd::prelude::*;
use vstd::utf8::encode_utf8;

verus! {

/// A record of texts that XML can hold.
pub open spec fn is_storable(u: Ucs) -> bool {
    &&& is_text(u.cat_id)
    &&& is_text(u.category)
    &&& is_text(u.sub_category)
    &&& is_text(u.user_category)
    &&& is_text(u.vendor_category)
    &&& is_text(u.fx_name)
    &&& is_text(u.creator_id)
    &&& is_text(u.source_id)
    &&& is_text(u.user_data)
    &&& is_text(u.ucs_library)
}

/// `base` with every text that `u` has, without white space at its ends.
pub open spec fn laid_over(base: Ucs, u: Ucs) -> Ucs {
    Ucs {
        cat_id: chosen(base.cat_id, trimmed(u.cat_id)),
        category: chosen(base.category, trimmed(u.category)),
        sub_category: chosen(base.sub_category, trimmed(u.sub_category)),
        user_category: chosen(base.user_category, trimmed(u.user_category)),
        vendor_category: chosen(base.vendor_category, trimmed(u.vendor_category)),
        fx_name: chosen(base.fx_name, trimmed(u.fx_name)),
        creator_id: chosen(base.creator_id, trimmed(u.creator_id)),
        source_id: chosen(base.source_id, trimmed(u.source_id)),
        user_data: chosen(base.user_data, trimmed(u.user_data)),
        ucs_library: chosen(base.ucs_library, trimmed(u.ucs_library)),
    }
}

/// The tags under which a record is looked up.
pub open spec fn is_field_tag(name: Seq<char>) -> bool {
    ||| same_ignoring_case(name, "cat_id"@)
    ||| same_ignoring_case(name, "category"@)
    ||| same_ignoring_case(name, "sub_category"@)
    ||| same_ignoring_case(name, "user_category"@)
    ||| same_ignoring_case(name, "vendor_category"@)
    ||| same_ignoring_case(name, "fx_name"@)
    ||| same_ignoring_case(name, "creator_id"@)
    ||| same_ignoring_case(name, "source_id"@)
    ||| same_ignoring_case(name, "user_data"@)
    ||| same_ignoring_case(name, "library"@)
}

/// Nodes among which no field is looked up.
pub open spec fn has_no_field(nodes: Seq<NodeView>) -> bool {
    forall|i: int| 0 <= i < nodes.len() && (#[trigger] nodes[i]).0 ==> !is_field_tag(nodes[i].1)
}

/// An element with nothing but text in it.
pub open spec fn leaf(name: Seq<char>, value: Seq<char>) -> XmlItem {
    XmlItem {
        form: XmlForm::Element,
        prefix: Seq::empty(),
        name,
        attributes: Seq::empty(),
        gap: Seq::empty(),
        text: spelling_of(value),
        kids: Seq::empty(),
        end_gap: Seq::empty(),
        tail: Seq::empty(),
    }
}

/// Fields as elements.
pub open spec fn leaves(fields: Fields) -> Seq<XmlItem> {
    fields.map_values(|f: (Seq<char>, Seq<char>)| leaf(f.0, f.1))
}

/// The `ASWG` block of a record as an element, followed by `tail`.
pub open spec fn aswg_element(u: Ucs, tail: Spelling) -> XmlItem {
    XmlItem {
        form: XmlForm::Element,
        prefix: Seq::empty(),
        name: "ASWG"@,
        attributes: Seq::empty(),
        gap: Seq::empty(),
        text: Seq::empty(),
        kids: leaves(aswg_fields(u)),
        end_gap: Seq::empty(),
        tail,
    }
}

/// A path leads from an element to an item: at each step it goes to one of the
/// items in the element.
pub open spec fn reaches(e: XmlItem, path: Seq<int>) -> bool
    decreases path.len(),
{
    path.len() == 0 || (e.form is Element && 0 <= path[0] < e.kids.len() && reaches(
        e.kids[path[0]],
        path.drop_first(),
    ))
}

/// The item to which a path leads.
pub open spec fn reached(e: XmlItem, path: Seq<int>) -> XmlItem
    decreases path.len(),
{
    if path.len() == 0 {
        e
    } else {
        reached(e.kids[path[0]], path.drop_first())
    }
}

/// The element with `new` in place of the item to which a path leads.
pub open spec fn exchanged(e: XmlItem, path: Seq<int>, new: XmlItem) -> XmlItem
    decreases path.len(),
{
    if path.len() == 0 {
        new
    } else {
        XmlItem {
            kids: e.kids.update(path[0], exchanged(e.kids[path[0]], path.drop_first(), new)),
            ..e
        }
    }
}

/// What stands in an element before the item to which a path leads.
pub open spec fn text_before(e: XmlItem, path: Seq<int>) -> Seq<char>
    decreases path.len(),
{
    if path.len() == 0 {
        Seq::empty()
    } else {
        lead_text(e) + rendered_all(e.kids.take(path[0])) + text_before(
            e.kids[path[0]],
            path.drop_first(),
        )
    }
}

/// What stands in an element after the item to which a path leads.
pub open spec fn text_after(e: XmlItem, path: Seq<int>) -> Seq<char>
    decreases path.len(),
{
    if path.len() == 0 {
        Seq::empty()
    } else {
        text_after(e.kids[path[0]], path.drop_first()) + spelled(e.kids[path[0]].tail)
            + rendered_all(e.kids.skip(path[0] + 1)) + end_tag(e)
    }
}

/// The nodes of an element before the item to which a path leads.
pub open spec fn nodes_before(e: XmlItem, path: Seq<int>) -> Seq<NodeView>
    decreases path.len(),
{
    if path.len() == 0 {
        Seq::empty()
    } else {
        lead_nodes(e) + nodes_of_all(e.kids.take(path[0])) + nodes_before(
            e.kids[path[0]],
            path.drop_first(),
        )
    }
}

/// The nodes of an element after the item to which a path leads.
pub open spec fn nodes_after(e: XmlItem, path: Seq<int>) -> Seq<NodeView>
    decreases path.len(),
{
    if path.len() == 0 {
        Seq::empty()
    } else {
        nodes_after(e.kids[path[0]], path.drop_first()) + text_node(e.kids[path[0]].tail)
            + nodes_of_all(e.kids.skip(path[0] + 1))
    }
}

/// What stands in a document before the item to which a path leads.
pub open spec fn document_before(d: XmlDocument, path: Seq<int>) -> Seq<char> {
    prolog(d) + text_before(d.root, path)
}

/// What stands in a document after the item to which a path leads.
pub open spec fn document_after(d: XmlDocument, path: Seq<int>) -> Seq<char> {
    text_after(d.root, path) + epilog(d)
}

/// The item to which a path leads is the `ASWG` block of a document: it stretches
/// from the first opening tag of such a block to the end of the first closing tag
/// behind it.
pub open spec fn is_block_at(d: XmlDocument, path: Seq<int>) -> bool {
    let low = lower(document(d));
    let a = document_before(d, path).len();
    &&& reaches(d.root, path)
    &&& find_from(low, lower("<ASWG"@), 0) == Some(a as int)
    &&& find_from(low, lower("</ASWG>"@), a as int) == Some(
        a + rendered(reached(d.root, path)).len() - 7,
    )
}

/// The document with the block of `u` in place of the item to which a path leads.
pub open spec fn with_block_at(d: XmlDocument, path: Seq<int>, u: Ucs) -> XmlDocument {
    XmlDocument {
        root: exchanged(d.root, path, aswg_element(u, reached(d.root, path).tail)),
        ..d
    }
}

/// What stands in a document before the end tag of its root element.
pub open spec fn document_body(d: XmlDocument) -> Seq<char> {
    prolog(d) + lead_text(d.root) + rendered_all(d.root.kids)
}

/// An iXML document in which there is no block to replace, and whose last end tag of
/// a root element is that of its own.
pub open spec fn lacks_block(d: XmlDocument) -> bool {
    &&& replaced_ci(document(d), "<ASWG"@, "</ASWG>"@, Seq::empty()) is None
    &&& d.root.form is Element
    &&& rfind(document(d), "</BWFXML>"@) == Some(document_body(d).len() as int)
}

/// The document with the block of `u` at the end of its root element.
pub open spec fn with_block_added(d: XmlDocument, u: Ucs) -> XmlDocument {
    XmlDocument {
        root: XmlItem { kids: d.root.kids.push(aswg_element(u, Seq::empty())), ..d.root },
        ..d
    }
}

/// A text after which a record can be read: there is none yet; or it has neither
/// a block nor an end tag of the root element; or it is a document and, up to its
/// block or, if it has none, anywhere, no element in it is called like a field.
pub open spec fn is_receptive(old: Option<Seq<char>>) -> bool {
    match old {
        None => true,
        Some(x) => {
            ||| replaced_ci(x, "<ASWG"@, "</ASWG>"@, Seq::empty()) is None && rfind(
                x,
                "</BWFXML>"@,
            ) is None
            ||| exists|d: XmlDocument, path: Seq<int>|
                x == document(d) && is_document(d) && #[trigger] is_block_at(d, path)
                    && has_no_field(nodes_before(d.root, path))
            ||| exists|d: XmlDocument|
                x == document(d) && is_document(d) && #[trigger] lacks_block(d) && has_no_field(
                    nodes_of(d.root),
                )
        },
    }
}

/// A text with its markup characters as references is its escaped form.
proof fn lemma_spelling(s: Seq<char>)
    ensures
        spelled(spelling_of(s)) == escaped(s),
        meant(spelling_of(s)) == s,
        is_text(s) ==> is_spelling(spelling_of(s)),
    decreases s.len(),
{
    if s.len() > 0 {
        lemma_spelling(s.drop_last());
        assert(spelling_of(s).drop_last() =~= spelling_of(s.drop_last()));
        assert(meant(spelling_of(s)) =~= s.drop_last().push(s.last()));
        assert(s.drop_last().push(s.last()) =~= s);
    } else {
        assert(meant(spelling_of(s)) =~= s);
    }
}

/// Fields and the elements that they are have the same text.
proof fn lemma_leaves_rendered(f: Fields)
    ensures
        rendered_all(leaves(f)) == fields_xml(f),
    decreases f.len(),
{
    if f.len() > 0 {
        lemma_leaves_rendered(f.drop_last());
        let l = leaves(f);
        let (name, value) = f.last();
        assert(l.drop_last() =~= leaves(f.drop_last()));
        assert(l.last() == leaf(name, value));
        lemma_spelling(value);
        assert(rendered_all(l.last().kids) =~= Seq::empty());
        assert(start_text(leaf(name, value)) =~= "<"@ + name);
        assert(end_tag(leaf(name, value)) =~= "</"@ + name + ">"@);
        assert(rendered(l.last()) =~= field_xml(name, value));
        assert(rendered_all(l) =~= fields_xml(f));
    }
}

/// A block and the element that it is have the same text.
proof fn lemma_block_rendered(u: Ucs, tail: Spelling)
    ensures
        rendered(aswg_element(u, tail)) == aswg_text(u),
{
    let e = aswg_element(u, tail);
    lemma_leaves_rendered(aswg_fields(u));
    reveal_strlit("<ASWG>");
    reveal_strlit("</ASWG>");
    reveal_strlit("ASWG");
    reveal_strlit("<");
    reveal_strlit("</");
    reveal_strlit(">");
    assert(spelled(e.text) =~= Seq::empty());
    assert(lead_text(e) =~= "<ASWG>"@);
    assert(end_tag(e) =~= "</ASWG>"@);
}

/// Items that follow each other have their joined text.
proof fn lemma_rendered_join(a: Seq<XmlItem>, b: Seq<XmlItem>)
    ensures
        rendered_all(a + b) == rendered_all(a) + rendered_all(b),
    decreases b.len(),
{
    if b.len() == 0 {
        assert(a + b =~= a);
        assert(rendered_all(a + b) =~= rendered_all(a) + rendered_all(b));
    } else {
        lemma_rendered_join(a, b.drop_last());
        assert((a + b).drop_last() =~= a + b.drop_last());
        assert((a + b).last() == b.last());
        assert(rendered_all(a + b) =~= rendered_all(a) + rendered_all(b));
    }
}

/// Items that follow each other have their joined nodes.
proof fn lemma_nodes_join(a: Seq<XmlItem>, b: Seq<XmlItem>)
    ensures
        nodes_of_all(a + b) == nodes_of_all(a) + nodes_of_all(b),
    decreases b.len(),
{
    if b.len() == 0 {
        assert(a + b =~= a);
        assert(nodes_of_all(a + b) =~= nodes_of_all(a) + nodes_of_all(b));
    } else {
        lemma_nodes_join(a, b.drop_last());
        assert((a + b).drop_last() =~= a + b.drop_last());
        assert((a + b).last() == b.last());
        assert(nodes_of_all(a + b) =~= nodes_of_all(a) + nodes_of_all(b));
    }
}

/// Items are plain if each of them is.
proof fn lemma_all_plain(kids: Seq<XmlItem>, scope: Map<Seq<char>, Seq<char>>)
    ensures
        all_plain(kids, scope) <==> forall|i: int|
            0 <= i < kids.len() ==> is_plain(#[trigger] kids[i], scope),
    decreases kids.len(),
{
    if kids.len() > 0 {
        lemma_all_plain(kids.drop_last(), scope);
        let front = kids.drop_last();
        if all_plain(kids, scope) {
            assert forall|i: int| 0 <= i < kids.len() implies is_plain(
                #[trigger] kids[i],
                scope,
            ) by {
                if i < front.len() {
                    assert(is_plain(front[i], scope));
                }
            }
        }
        if forall|i: int| 0 <= i < kids.len() ==> is_plain(#[trigger] kids[i], scope) {
            assert forall|i: int| 0 <= i < front.len() implies is_plain(
                #[trigger] front[i],
                scope,
            ) by {
                assert(front[i] == kids[i]);
            }
            assert(kids.last() == kids[kids.len() - 1]);
        }
    }
}

/// How many name spaces items declare after one of them was exchanged.
proof fn lemma_count_updated(kids: Seq<XmlItem>, k: int, new: XmlItem)
    requires
        0 <= k < kids.len(),
    ensures
        count_all_spaces(kids.update(k, new)) + count_spaces(kids[k]) == count_all_spaces(kids)
            + count_spaces(new),
    decreases kids.len(),
{
    let after = kids.update(k, new);
    if k == kids.len() - 1 {
        assert(after.drop_last() =~= kids.drop_last());
    } else {
        lemma_count_updated(kids.drop_last(), k, new);
        assert(after.drop_last() =~= kids.drop_last().update(k, new));
        assert(after.last() == kids.last());
    }
}

/// Leaves declare no name spaces.
proof fn lemma_leaves_count(f: Fields)
    ensures
        count_all_spaces(leaves(f)) == 0,
    decreases f.len(),
{
    if f.len() > 0 {
        lemma_leaves_count(f.drop_last());
        assert(leaves(f).drop_last() =~= leaves(f.drop_last()));
        let last = leaves(f).last();
        assert(last == leaf(f.last().0, f.last().1));
        assert(count_all_spaces(last.kids) == 0);
        assert(count_declared(last.attributes) == 0);
        assert(count_spaces(last) == 0);
        assert(count_all_spaces(leaves(f)) == count_all_spaces(leaves(f).drop_last()) + count_spaces(
            last,
        ));
    } else {
        assert(leaves(f).len() == 0);
    }
}

/// The text of items that follow each other, around one of them.
proof fn lemma_rendered_around(kids: Seq<XmlItem>, k: int)
    requires
        0 <= k < kids.len(),
    ensures
        rendered_all(kids) == rendered_all(kids.take(k)) + rendered(kids[k]) + spelled(kids[k].tail)
            + rendered_all(kids.skip(k + 1)),
{
    let one = seq![kids[k]];
    assert(kids =~= kids.take(k) + one + kids.skip(k + 1));
    lemma_rendered_join(kids.take(k) + one, kids.skip(k + 1));
    lemma_rendered_join(kids.take(k), one);
    assert(one.drop_last() =~= Seq::empty());
    assert(rendered_all(one.drop_last()) =~= Seq::empty());
    assert(rendered_all(one) =~= rendered(kids[k]) + spelled(kids[k].tail));
    assert(rendered_all(kids) =~= rendered_all(kids.take(k)) + rendered(kids[k]) + spelled(
        kids[k].tail,
    ) + rendered_all(kids.skip(k + 1)));
}

/// The nodes of items that follow each other, around one of them.
proof fn lemma_nodes_around(kids: Seq<XmlItem>, k: int)
    requires
        0 <= k < kids.len(),
    ensures
        nodes_of_all(kids) == nodes_of_all(kids.take(k)) + nodes_of(kids[k]) + text_node(
            kids[k].tail,
        ) + nodes_of_all(kids.skip(k + 1)),
{
    let one = seq![kids[k]];
    assert(kids =~= kids.take(k) + one + kids.skip(k + 1));
    lemma_nodes_join(kids.take(k) + one, kids.skip(k + 1));
    lemma_nodes_join(kids.take(k), one);
    assert(one.drop_last() =~= Seq::empty());
    assert(nodes_of_all(one.drop_last()) =~= Seq::empty());
    assert(nodes_of_all(one) =~= nodes_of(kids[k]) + text_node(kids[k].tail));
    assert(nodes_of_all(kids) =~= nodes_of_all(kids.take(k)) + nodes_of(kids[k]) + text_node(
        kids[k].tail,
    ) + nodes_of_all(kids.skip(k + 1)));
}

/// Only one of the items in an element changes when one of them is exchanged.
proof fn lemma_others_stay(kids: Seq<XmlItem>, k: int, new: XmlItem)
    requires
        0 <= k < kids.len(),
    ensures
        kids.update(k, new).take(k) == kids.take(k),
        kids.update(k, new).skip(k + 1) == kids.skip(k + 1),
{
    assert(kids.update(k, new).take(k) =~= kids.take(k));
    assert(kids.update(k, new).skip(k + 1) =~= kids.skip(k + 1));
}

/// Parts of parts, grouped around the innermost.
proof fn lemma_regroup<T>(
    l: Seq<T>,
    a: Seq<T>,
    b: Seq<T>,
    r: Seq<T>,
    c: Seq<T>,
    t: Seq<T>,
    z: Seq<T>,
    e: Seq<T>,
)
    ensures
        l + (a + (b + r + c) + t + z) + e == (l + a + b) + r + (c + t + z + e),
{
    assert(l + (a + (b + r + c) + t + z) + e =~= (l + a + b) + r + (c + t + z + e));
}

/// Parts between two more, grouped around the middle one.
proof fn lemma_regroup_middle<T>(p: Seq<T>, b: Seq<T>, r: Seq<T>, a: Seq<T>, e: Seq<T>)
    ensures
        p + (b + r + a) + e == (p + b) + r + (a + e),
{
    assert(p + (b + r + a) + e =~= (p + b) + r + (a + e));
}

/// Parts with one more before the last two, grouped around that one.
proof fn lemma_regroup_end<T>(
    p: Seq<T>,
    l: Seq<T>,
    k: Seq<T>,
    n: Seq<T>,
    z: Seq<T>,
    e: Seq<T>,
)
    ensures
        p + (l + k + z) + e == (p + l + k) + (z + e),
        p + (l + (k + n) + z) + e == (p + l + k) + n + (z + e),
{
    assert(p + (l + k + z) + e =~= (p + l + k) + (z + e));
    assert(p + (l + (k + n) + z) + e =~= (p + l + k) + n + (z + e));
}

/// The text and the nodes of an element around the item to which a path leads,
/// before and after that item is exchanged for one with the same tail.
proof fn lemma_around_path(e: XmlItem, path: Seq<int>, new: XmlItem)
    requires
        reaches(e, path),
        new.tail == reached(e, path).tail,
    ensures
        rendered(e) == text_before(e, path) + rendered(reached(e, path)) + text_after(e, path),
        rendered(exchanged(e, path, new)) == text_before(e, path) + rendered(new) + text_after(
            e,
            path,
        ),
        nodes_of(exchanged(e, path, new)) == nodes_before(e, path) + nodes_of(new) + nodes_after(
            e,
            path,
        ),
        exchanged(e, path, new).tail == e.tail,
    decreases path.len(),
{
    let after = exchanged(e, path, new);
    if path.len() == 0 {
        assert(rendered(e) =~= Seq::empty() + rendered(e) + Seq::empty());
        assert(rendered(new) =~= Seq::empty() + rendered(new) + Seq::empty());
        assert(nodes_of(new) =~= Seq::empty() + nodes_of(new) + Seq::empty());
    } else {
        let k = path[0];
        let kid = e.kids[k];
        let rest = path.drop_first();
        let kid2 = exchanged(kid, rest, new);
        lemma_around_path(kid, rest, new);
        lemma_rendered_around(e.kids, k);
        lemma_rendered_around(after.kids, k);
        lemma_nodes_around(after.kids, k);
        lemma_others_stay(e.kids, k, kid2);
        assert(after.kids[k] == kid2);
        assert(lead_text(after) == lead_text(e));
        lemma_regroup(
            lead_text(e),
            rendered_all(e.kids.take(k)),
            text_before(kid, rest),
            rendered(reached(e, path)),
            text_after(kid, rest),
            spelled(kid.tail),
            rendered_all(e.kids.skip(k + 1)),
            end_tag(e),
        );
        lemma_regroup(
            lead_text(e),
            rendered_all(e.kids.take(k)),
            text_before(kid, rest),
            rendered(new),
            text_after(kid, rest),
            spelled(kid.tail),
            rendered_all(e.kids.skip(k + 1)),
            end_tag(e),
        );
        lemma_regroup(
            lead_nodes(e),
            nodes_of_all(e.kids.take(k)),
            nodes_before(kid, rest),
            nodes_of(new),
            nodes_after(kid, rest),
            text_node(kid.tail),
            nodes_of_all(e.kids.skip(k + 1)),
            Seq::empty(),
        );
        assert(nodes_of(after) == lead_nodes(e) + nodes_of_all(after.kids));
        assert(nodes_of(after) + Seq::empty() =~= nodes_of(after));
        assert(nodes_after(e, path) + Seq::empty() =~= nodes_after(e, path));
    }
}

/// The text of a document around its block, before and after the block is
/// exchanged.
proof fn lemma_document_around(d: XmlDocument, path: Seq<int>, u: Ucs)
    requires
        reaches(d.root, path),
    ensures
        document(d) == document_before(d, path) + rendered(reached(d.root, path)) + document_after(
            d,
            path,
        ),
        document(with_block_at(d, path, u)) == document_before(d, path) + aswg_text(u)
            + document_after(d, path),
{
    let block = reached(d.root, path);
    let new = aswg_element(u, block.tail);
    lemma_around_path(d.root, path, new);
    lemma_block_rendered(u, block.tail);
    let p = prolog(d);
    let b = text_before(d.root, path);
    let a = text_after(d.root, path);
    lemma_regroup_middle(p, b, rendered(block), a, epilog(d));
    lemma_regroup_middle(p, b, aswg_text(u), a, epilog(d));
    assert(prolog(with_block_at(d, path, u)) == p);
    assert(epilog(with_block_at(d, path, u)) == epilog(d));
}

/// Exchanging an item for one that is plain everywhere and declares no name space
/// keeps an element plain.
proof fn lemma_exchanged_plain(
    e: XmlItem,
    path: Seq<int>,
    new: XmlItem,
    scope: Map<Seq<char>, Seq<char>>,
)
    requires
        reaches(e, path),
        is_plain(e, scope),
        forall|s: Map<Seq<char>, Seq<char>>| #[trigger] is_plain(new, s),
        count_spaces(new) == 0,
    ensures
        is_plain(exchanged(e, path, new), scope),
        count_spaces(exchanged(e, path, new)) <= count_spaces(e),
    decreases path.len(),
{
    if path.len() > 0 {
        let after = exchanged(e, path, new);
        let inner = scope_in(e, scope);
        let k = path[0];
        lemma_all_plain(e.kids, inner);
        assert(is_plain(e.kids[k], inner));
        lemma_exchanged_plain(e.kids[k], path.drop_first(), new, inner);
        lemma_count_updated(e.kids, k, exchanged(e.kids[k], path.drop_first(), new));
        assert(scope_in(after, scope) == inner);
        assert forall|i: int| 0 <= i < after.kids.len() implies is_plain(
            #[trigger] after.kids[i],
            inner,
        ) by {
            if i != k {
                assert(after.kids[i] == e.kids[i]);
            }
        }
        lemma_all_plain(after.kids, inner);
        assert(are_tags(after, scope));
    }
}

/// What follows an item in a plain element may be written as it is.
proof fn lemma_reached_tail(e: XmlItem, path: Seq<int>, scope: Map<Seq<char>, Seq<char>>)
    requires
        reaches(e, path),
        is_plain(e, scope),
    ensures
        is_spelling(reached(e, path).tail),
    decreases path.len(),
{
    if path.len() > 0 {
        lemma_all_plain(e.kids, scope_in(e, scope));
        assert(is_plain(e.kids[path[0]], scope_in(e, scope)));
        lemma_reached_tail(e.kids[path[0]], path.drop_first(), scope_in(e, scope));
    }
}

/// The block of a storable record is plain everywhere and declares no name space.
proof fn lemma_block_plain(u: Ucs, tail: Spelling)
    requires
        is_storable(u),
        is_spelling(tail),
    ensures
        forall|s: Map<Seq<char>, Seq<char>>| #[trigger] is_plain(aswg_element(u, tail), s),
        count_spaces(aswg_element(u, tail)) == 0,
{
    let f = aswg_fields(u);
    let e = aswg_element(u, tail);
    lemma_field_names(u);
    lemma_leaves_count(f);
    assert(count_declared(e.attributes) == 0);
    reveal_strlit("sfx");
    reveal_strlit("ASWG");
    assert forall|s: Map<Seq<char>, Seq<char>>| #[trigger] is_plain(e, s) by {
        let inner = scope_in(e, s);
        assert forall|i: int| 0 <= i < e.kids.len() implies is_plain(
            #[trigger] e.kids[i],
            inner,
        ) by {
            assert(e.kids[i] == leaf(f[i].0, f[i].1));
            assert(is_name(f[i].0));
            assert(is_text(f[i].1));
            lemma_spelling(f[i].1);
            assert(all_plain(e.kids[i].kids, scope_in(e.kids[i], inner)));
            assert(are_tags(e.kids[i], inner));
        }
        lemma_all_plain(e.kids, inner);
        assert(are_tags(e, s));
    }
}

/// A value is not looked for among nodes that do not have its name.
proof fn lemma_value_skips(a: Seq<NodeView>, b: Seq<NodeView>, name: Seq<char>)
    requires
        forall|i: int|
            0 <= i < a.len() && (#[trigger] a[i]).0 ==> !same_ignoring_case(a[i].1, name),
    ensures
        value_in(a + b, name) == value_in(b, name),
    decreases a.len(),
{
    if a.len() == 0 {
        assert(a + b =~= b);
    } else {
        assert((a + b)[0] == a[0]);
        assert((a + b).drop_first() =~= a.drop_first() + b);
        assert forall|i: int|
            0 <= i < a.drop_first().len() && (
            #[trigger] a.drop_first()[i]).0 implies !same_ignoring_case(
            a.drop_first()[i].1,
            name,
        ) by {
            assert(a.drop_first()[i] == a[i + 1]);
        }
        lemma_value_skips(a.drop_first(), b, name);
    }
}

/// Leaves have no other names than the fields that they are.
proof fn lemma_leaves_other(f: Fields, name: Seq<char>)
    requires
        forall|k: int| 0 <= k < f.len() ==> !same_ignoring_case((#[trigger] f[k]).0, name),
    ensures
        forall|i: int|
            0 <= i < nodes_of_all(leaves(f)).len() && (#[trigger] nodes_of_all(leaves(f))[i]).0
                ==> !same_ignoring_case(nodes_of_all(leaves(f))[i].1, name),
    decreases f.len(),
{
    let l = leaves(f);
    if f.len() > 0 {
        assert forall|k: int| 0 <= k < f.drop_last().len() implies !same_ignoring_case(
            (#[trigger] f.drop_last()[k]).0,
            name,
        ) by {
            assert(f.drop_last()[k] == f[k]);
        }
        lemma_leaves_other(f.drop_last(), name);
        assert(l.drop_last() =~= leaves(f.drop_last()));
        assert(l.last() == leaf(f.last().0, f.last().1));
        assert(!same_ignoring_case(f[f.len() - 1].0, name));
        assert(nodes_of_all(l.last().kids) =~= Seq::empty());
        let first = nodes_of_all(l.drop_last());
        let last = lead_nodes(l.last());
        assert(nodes_of(l.last()) =~= last);
        assert(nodes_of_all(l) =~= first + last);
        assert forall|i: int|
            0 <= i < nodes_of_all(l).len() && (
            #[trigger] nodes_of_all(l)[i]).0 implies !same_ignoring_case(
            nodes_of_all(l)[i].1,
            name,
        ) by {
            if i < first.len() {
                assert(nodes_of_all(l)[i] == first[i]);
            } else {
                assert(nodes_of_all(l)[i] == last[i - first.len()]);
            }
        }
    }
}

/// The value of a field among the leaves that hold it.
proof fn lemma_value_of_leaf(f: Fields, k: int, rest: Seq<NodeView>, name: Seq<char>)
    requires
        0 <= k < f.len(),
        same_ignoring_case(f[k].0, name),
        forall|j: int| 0 <= j < k ==> !same_ignoring_case((#[trigger] f[j]).0, name),
    ensures
        value_in(nodes_of_all(leaves(f)) + rest, name) == trimmed(f[k].1),
{
    let front = leaves(f.take(k));
    let here = leaf(f[k].0, f[k].1);
    let back = leaves(f.skip(k + 1));
    assert(leaves(f) =~= front + (seq![here] + back));
    lemma_nodes_join(front, seq![here] + back);
    lemma_nodes_join(seq![here], back);
    let one = nodes_of_all(seq![here]);
    assert(seq![here].drop_last() =~= Seq::empty());
    assert(nodes_of_all(here.kids) =~= Seq::empty());
    let node: NodeView = (true, f[k].0, leading_text(here.text));
    lemma_spelling(f[k].1);
    assert(nodes_of(here) =~= seq![node] + text_node(here.text));
    assert(one =~= seq![node] + text_node(here.text));
    let tail = one + nodes_of_all(back) + rest;
    assert(nodes_of_all(leaves(f)) + rest =~= nodes_of_all(front) + tail);
    assert forall|j: int| 0 <= j < f.take(k).len() implies !same_ignoring_case(
        (#[trigger] f.take(k)[j]).0,
        name,
    ) by {
        assert(f.take(k)[j] == f[j]);
    }
    lemma_leaves_other(f.take(k), name);
    lemma_value_skips(nodes_of_all(front), tail, name);
    assert(tail[0] == node);
    assert(trimmed(Seq::<char>::empty()) =~= Seq::empty());
    if f[k].1.len() == 0 {
        assert(f[k].1 =~= Seq::empty());
    }
}

/// The fields of a block have different names.
proof fn lemma_tags_differ(u: Ucs)
    ensures
        forall|i: int, j: int|
            0 <= i < j < 11 ==> !same_ignoring_case(
                (#[trigger] aswg_fields(u)[i]).0,
                (#[trigger] aswg_fields(u)[j]).0,
            ),
{
    reveal_strlit("content_type");
    reveal_strlit("category");
    reveal_strlit("sub_category");
    reveal_strlit("cat_id");
    reveal_strlit("user_category");
    reveal_strlit("vendor_category");
    reveal_strlit("fx_name");
    reveal_strlit("library");
    reveal_strlit("creator_id");
    reveal_strlit("source_id");
    reveal_strlit("user_data");
    let f = aswg_fields(u);
    assert forall|i: int, j: int| 0 <= i < j < 11 implies !same_ignoring_case(
        (#[trigger] f[i]).0,
        (#[trigger] f[j]).0,
    ) by {
        let a = lower(f[i].0);
        let b = lower(f[j].0);
        if a.len() == b.len() {
            assert(a[0] != b[0]);
        }
    }
}

/// Neither of the elements around the fields has the name of a field.
proof fn lemma_frame_tags()
    ensures
        !is_field_tag("BWFXML"@),
        !is_field_tag("ASWG"@),
{
    reveal_strlit("content_type");
    reveal_strlit("category");
    reveal_strlit("sub_category");
    reveal_strlit("cat_id");
    reveal_strlit("user_category");
    reveal_strlit("vendor_category");
    reveal_strlit("fx_name");
    reveal_strlit("library");
    reveal_strlit("creator_id");
    reveal_strlit("source_id");
    reveal_strlit("user_data");
    reveal_strlit("BWFXML");
    reveal_strlit("ASWG");
    let a = lower("BWFXML"@);
    assert(a[0] != lower("cat_id"@)[0]);
    assert(lower("ASWG"@).len() == 4);
    assert(lower("cat_id"@).len() > 4);
    assert(lower("category"@).len() > 4);
    assert(lower("sub_category"@).len() > 4);
    assert(lower("user_category"@).len() > 4);
    assert(lower("vendor_category"@).len() > 4);
    assert(lower("fx_name"@).len() > 4);
    assert(lower("creator_id"@).len() > 4);
    assert(lower("source_id"@).len() > 4);
    assert(lower("user_data"@).len() > 4);
    assert(lower("library"@).len() > 4);
}

/// The value of field `k` of a block.
proof fn lemma_value_of_field(pre: Seq<NodeView>, u: Ucs, rest: Seq<NodeView>, k: int)
    requires
        has_no_field(pre),
        1 <= k < 11,
    ensures
        value_in(pre + (nodes_of_all(leaves(aswg_fields(u))) + rest), aswg_fields(u)[k].0)
            == trimmed(aswg_fields(u)[k].1),
{
    let f = aswg_fields(u);
    let name = f[k].0;
    lemma_tags_differ(u);
    lemma_value_of_leaf(f, k, rest, name);
    assert(is_field_tag(name));
    assert forall|i: int| 0 <= i < pre.len() && (#[trigger] pre[i]).0 implies !same_ignoring_case(
        pre[i].1,
        name,
    ) by {
        assert(!is_field_tag(pre[i].1));
    }
    lemma_value_skips(pre, nodes_of_all(leaves(f)) + rest, name);
}

/// What is read from a block, when nothing before it is called like a field, is the
/// record in it.
proof fn lemma_block_is_read(pre: Seq<NodeView>, u: Ucs, tail: Spelling, rest: Seq<NodeView>)
    requires
        has_no_field(pre),
    ensures
        forall|base: Ucs| #[trigger]
            overlaid(base, Some(pre + nodes_of(aswg_element(u, tail)) + rest)) == laid_over(base, u),
{
    let fields = nodes_of_all(leaves(aswg_fields(u)));
    let aswg: NodeView = (true, "ASWG"@, None);
    let all = pre + nodes_of(aswg_element(u, tail)) + rest;
    let before = pre + seq![aswg];
    assert(all =~= before + (fields + rest));
    lemma_frame_tags();
    assert forall|i: int| 0 <= i < before.len() && (#[trigger] before[i]).0 implies !is_field_tag(
        before[i].1,
    ) by {
        if i < pre.len() {
            assert(before[i] == pre[i]);
        }
    }
    lemma_value_of_field(before, u, rest, 1);
    lemma_value_of_field(before, u, rest, 2);
    lemma_value_of_field(before, u, rest, 3);
    lemma_value_of_field(before, u, rest, 4);
    lemma_value_of_field(before, u, rest, 5);
    lemma_value_of_field(before, u, rest, 6);
    lemma_value_of_field(before, u, rest, 7);
    lemma_value_of_field(before, u, rest, 8);
    lemma_value_of_field(before, u, rest, 9);
    lemma_value_of_field(before, u, rest, 10);
    assert forall|base: Ucs| #[trigger] overlaid(base, Some(all)) == laid_over(base, u) by {
        assert(overlaid(base, Some(all)) =~= laid_over(base, u));
    }
}

/// A merge into a document with a block exchanges that block for the new one and
/// keeps everything else.
pub proof fn law_block_is_exchanged(d: XmlDocument, path: Seq<int>, u: Ucs)
    requires
        is_block_at(d, path),
    ensures
        merged(Some(document(d)), u) == document(with_block_at(d, path, u)),
{
    let x = document(d);
    let pre = document_before(d, path);
    let post = document_after(d, path);
    let a = pre.len() as int;
    let e = a + rendered(reached(d.root, path)).len();
    lemma_document_around(d, path, u);
    reveal_strlit("</ASWG>");
    assert(x.subrange(0, a) =~= pre);
    assert(x.subrange(e, x.len() as int) =~= post);
}

/// The text of a document around the end tag of its root element, before and
/// after a block is added.
proof fn lemma_document_end(d: XmlDocument, u: Ucs)
    requires
        d.root.form is Element,
    ensures
        document(d) == document_body(d) + (end_tag(d.root) + epilog(d)),
        document(with_block_added(d, u)) == document_body(d) + aswg_text(u) + (end_tag(d.root)
            + epilog(d)),
{
    let new = aswg_element(u, Seq::empty());
    let after = with_block_added(d, u);
    let p = prolog(d);
    let l = lead_text(d.root);
    let k = rendered_all(d.root.kids);
    let n = aswg_text(u);
    let z = end_tag(d.root);
    lemma_block_rendered(u, Seq::empty());
    assert(after.root.kids.drop_last() =~= d.root.kids);
    assert(spelled(new.tail) =~= Seq::empty());
    assert(k + n + Seq::empty() =~= k + n);
    assert(rendered_all(after.root.kids) == k + n);
    assert(lead_text(after.root) == l);
    assert(end_tag(after.root) == z);
    assert(prolog(after) == p);
    assert(epilog(after) == epilog(d));
    lemma_regroup_end(p, l, k, n, z, epilog(d));
}

/// A merge into an iXML document without a block adds the new one at the end of
/// the root element and keeps everything else.
pub proof fn law_block_is_added(d: XmlDocument, u: Ucs)
    requires
        lacks_block(d),
    ensures
        merged(Some(document(d)), u) == document(with_block_added(d, u)),
{
    let x = document(d);
    let p = document_body(d).len() as int;
    lemma_document_end(d, u);
    assert(x.subrange(0, p) =~= document_body(d));
    assert(x.subrange(p, x.len() as int) =~= end_tag(d.root) + epilog(d));
}

/// A document from which `u` is read.
pub open spec fn holds_record(d: XmlDocument, u: Ucs) -> bool {
    is_document(d) && forall|base: Ucs| #[trigger]
        overlaid(base, Some(document_nodes(d))) == laid_over(base, u)
}

/// The nodes of a document before its root element; none of them is an element.
spec fn top_nodes(d: XmlDocument) -> Seq<NodeView> {
    seq![(false, Seq::<char>::empty(), None::<Seq<char>>)] + aside_nodes(d.before)
}

/// A document whose block was exchanged holds the record of the new block.
proof fn lemma_exchanged_holds(d: XmlDocument, path: Seq<int>, u: Ucs)
    requires
        is_document(d),
        reaches(d.root, path),
        has_no_field(nodes_before(d.root, path)),
        is_storable(u),
    ensures
        holds_record(with_block_at(d, path, u), u),
{
    let tail = reached(d.root, path).tail;
    let new = aswg_element(u, tail);
    let after = with_block_at(d, path, u);
    lemma_reached_tail(d.root, path, Map::empty());
    lemma_block_plain(u, tail);
    lemma_exchanged_plain(d.root, path, new, Map::empty());
    lemma_around_path(d.root, path, new);
    let top = top_nodes(d);
    let pre = top + nodes_before(d.root, path);
    let rest = nodes_after(d.root, path) + aside_nodes(d.after);
    assert forall|i: int| 0 <= i < pre.len() && (#[trigger] pre[i]).0 implies !is_field_tag(
        pre[i].1,
    ) by {
        if i < top.len() {
            assert(pre[i] == top[i]);
        } else {
            assert(pre[i] == nodes_before(d.root, path)[i - top.len()]);
        }
    }
    lemma_block_is_read(pre, u, tail, rest);
    assert(document_nodes(after) =~= pre + nodes_of(new) + rest);
}

/// A document to which a block was added holds the record of that block.
proof fn lemma_added_holds(d: XmlDocument, u: Ucs)
    requires
        is_document(d),
        d.root.form is Element,
        has_no_field(nodes_of(d.root)),
        is_storable(u),
    ensures
        holds_record(with_block_added(d, u), u),
{
    let new = aswg_element(u, Seq::empty());
    let after = with_block_added(d, u);
    lemma_block_plain(u, Seq::empty());
    assert(after.root.kids.drop_last() =~= d.root.kids);
    assert(after.root.kids.last() == new);
    let none = Map::<Seq<char>, Seq<char>>::empty();
    assert(scope_in(after.root, none) == scope_in(d.root, none));
    assert(are_tags(after.root, none));
    assert(is_plain(new, scope_in(d.root, none)));
    assert(is_plain(after.root, none));
    assert(count_spaces(after.root) == count_spaces(d.root));
    let top = top_nodes(d);
    let pre = top + nodes_of(d.root);
    assert forall|i: int| 0 <= i < pre.len() && (#[trigger] pre[i]).0 implies !is_field_tag(
        pre[i].1,
    ) by {
        if i < top.len() {
            assert(pre[i] == top[i]);
        } else {
            assert(pre[i] == nodes_of(d.root)[i - top.len()]);
        }
    }
    lemma_block_is_read(pre, u, Seq::empty(), aside_nodes(d.after));
    assert(lead_nodes(after.root) == lead_nodes(d.root));
    assert(document_nodes(after) =~= pre + nodes_of(new) + aside_nodes(d.after));
}

/// A document with nothing but an empty root element.
pub open spec fn bare_document(declaration: Option<Declaration>) -> XmlDocument {
    XmlDocument {
        marked: false,
        declaration,
        gap: Seq::empty(),
        before: Seq::empty(),
        root: XmlItem {
            form: XmlForm::Element,
            prefix: Seq::empty(),
            name: "BWFXML"@,
            attributes: Seq::empty(),
            gap: Seq::empty(),
            text: Seq::empty(),
            kids: Seq::empty(),
            end_gap: Seq::empty(),
            tail: Seq::empty(),
        },
        end: Seq::empty(),
        after: Seq::empty(),
    }
}

/// A part of the declaration of a new document.
pub open spec fn usual_part(value: Seq<char>) -> Quoted {
    Quoted { gap: seq![' '], left: Seq::empty(), right: Seq::empty(), quote: '"', value }
}

/// The declaration of a new document.
pub open spec fn usual_declaration() -> Declaration {
    Declaration {
        version: usual_part("1.0"@),
        encoding: Some(usual_part("UTF-8"@)),
        standalone: None,
        gap: Seq::empty(),
    }
}

/// The start of a new document.
proof fn lemma_usual_declaration()
    ensures
        is_declaration(usual_declaration()),
        declaration_text(usual_declaration()) + "<BWFXML>"@
            == "<?xml version=\"1.0\" encoding=\"UTF-8\"?><BWFXML>"@,
{
    reveal_strlit("<?xml version=\"1.0\" encoding=\"UTF-8\"?><BWFXML>");
    reveal_strlit("<?xml");
    reveal_strlit("version");
    reveal_strlit("encoding");
    reveal_strlit("=");
    reveal_strlit("?>");
    reveal_strlit("1.0");
    reveal_strlit("UTF-8");
    reveal_strlit("<BWFXML>");
    let v = quoted_text("version"@, usual_part("1.0"@));
    let e = quoted_text("encoding"@, usual_part("UTF-8"@));
    assert(v =~= seq![' ', 'v', 'e', 'r', 's', 'i', 'o', 'n', '=', '"', '1', '.', '0', '"']);
    assert(e =~= seq![
        ' ', 'e', 'n', 'c', 'o', 'd', 'i', 'n', 'g', '=', '"', 'U', 'T', 'F', '-', '8', '"',
    ]);
    assert(declaration_text(usual_declaration()) =~= "<?xml"@ + v + e + "?>"@);
    assert(declaration_text(usual_declaration()) + "<BWFXML>"@
        =~= "<?xml version=\"1.0\" encoding=\"UTF-8\"?><BWFXML>"@);
}

/// A new document is one with the block of its record.
proof fn lemma_new_document(u: Ucs)
    requires
        is_storable(u),
    ensures
        ({
            let a = with_block_added(bare_document(Some(usual_declaration())), u);
            let b = with_block_added(bare_document(None), u);
            &&& holds_record(a, u)
            &&& holds_record(b, u)
            &&& document(a) == merged(None, u)
            &&& document(b) == "<BWFXML>"@ + aswg_text(u) + "</BWFXML>"@
        }),
{
    let d = bare_document(Some(usual_declaration()));
    let c = bare_document(None);
    let a = with_block_added(d, u);
    let b = with_block_added(c, u);
    let one = seq![aswg_element(u, Seq::empty())];
    lemma_usual_declaration();
    reveal_strlit("<BWFXML>");
    reveal_strlit("</BWFXML>");
    reveal_strlit("BWFXML");
    reveal_strlit("<");
    reveal_strlit("</");
    reveal_strlit(">");
    let none = Map::<Seq<char>, Seq<char>>::empty();
    assert(are_tags(d.root, none));
    assert(all_plain(d.root.kids, scope_in(d.root, none)));
    assert(is_plain(d.root, none));
    assert(count_declared(d.root.attributes) == 0 && count_all_spaces(d.root.kids) == 0);
    lemma_frame_tags();
    assert(nodes_of(d.root) =~= seq![(true, "BWFXML"@, None)]);
    lemma_added_holds(d, u);
    lemma_added_holds(c, u);
    lemma_block_rendered(u, Seq::empty());
    assert(a.root.kids =~= one);
    assert(one.drop_last() =~= Seq::empty());
    assert(rendered_all(one.drop_last()) =~= Seq::empty());
    assert(rendered_all(one) =~= aswg_text(u));
    assert(spelled(a.root.text) =~= Seq::empty());
    assert(lead_text(a.root) =~= "<BWFXML>"@);
    assert(end_tag(a.root) =~= "</BWFXML>"@);
    assert(prolog(a) =~= declaration_text(usual_declaration()));
    assert(prolog(b) =~= Seq::empty());
    assert(document(a) =~= merged(None, u));
    assert(document(b) =~= "<BWFXML>"@ + aswg_text(u) + "</BWFXML>"@);
}

/// A merge makes a document from which the merged record is read, over whatever
/// the file name says.
pub proof fn law_merged_record_is_read(old: Option<Seq<char>>, u: Ucs)
    requires
        is_receptive(old),
        is_storable(u),
    ensures
        exists|d: XmlDocument| merged(old, u) == #[trigger] document(d) && holds_record(d, u),
{
    lemma_new_document(u);
    match old {
        None => {
            let a = with_block_added(bare_document(Some(usual_declaration())), u);
            assert(merged(old, u) == document(a));
        },
        Some(x) => {
            if exists|d: XmlDocument, path: Seq<int>|
                x == document(d) && is_document(d) && #[trigger] is_block_at(d, path)
                    && has_no_field(nodes_before(d.root, path)) {
                let (d, path) = choose|d: XmlDocument, path: Seq<int>|
                    x == document(d) && is_document(d) && #[trigger] is_block_at(d, path)
                        && has_no_field(nodes_before(d.root, path));
                lemma_exchanged_holds(d, path, u);
                law_block_is_exchanged(d, path, u);
                assert(merged(old, u) == document(with_block_at(d, path, u)));
            } else if exists|d: XmlDocument|
                x == document(d) && is_document(d) && #[trigger] lacks_block(d) && has_no_field(
                    nodes_of(d.root),
                ) {
                let d = choose|d: XmlDocument|
                    x == document(d) && is_document(d) && #[trigger] lacks_block(d) && has_no_field(
                        nodes_of(d.root),
                    );
                lemma_added_holds(d, u);
                law_block_is_added(d, u);
                assert(merged(old, u) == document(with_block_added(d, u)));
            } else {
                let b = with_block_added(bare_document(None), u);
                assert(merged(old, u) == document(b));
            }
        },
    }
}

/// After an exchange the same path leads to the new item, and what stands before
/// it is the same.
proof fn lemma_exchanged_path(e: XmlItem, path: Seq<int>, new: XmlItem)
    requires
        reaches(e, path),
    ensures
        reaches(exchanged(e, path, new), path),
        reached(exchanged(e, path, new), path) == new,
        text_before(exchanged(e, path, new), path) == text_before(e, path),
        nodes_before(exchanged(e, path, new), path) == nodes_before(e, path),
    decreases path.len(),
{
    if path.len() > 0 {
        let k = path[0];
        let kid = exchanged(e.kids[k], path.drop_first(), new);
        lemma_exchanged_path(e.kids[k], path.drop_first(), new);
        lemma_others_stay(e.kids, k, kid);
        assert(exchanged(e, path, new).kids[k] == kid);
    }
}

/// The block that was added is the block of the document.
proof fn lemma_added_is_block(d: XmlDocument, u: Ucs)
    requires
        d.root.form is Element,
        forall|i: int|
            !matches_at(
                lower(document_body(d)),
                open_pattern(),
                i,
            ),
    ensures
        is_block_at(with_block_added(d, u), seq![d.root.kids.len() as int]),
        nodes_before(with_block_added(d, u).root, seq![d.root.kids.len() as int]) == nodes_of(
            d.root,
        ),
{
    let after = with_block_added(d, u);
    let new = aswg_element(u, Seq::empty());
    let k = d.root.kids.len() as int;
    let path = seq![k];
    let pre = document_body(d);
    let post = end_tag(d.root) + epilog(d);
    lemma_document_end(d, u);
    assert(path.drop_first() =~= Seq::empty());
    assert(after.root.kids.take(k) =~= d.root.kids);
    assert(after.root.kids[k] == new);
    assert(after.root.kids.drop_last() =~= d.root.kids);
    assert(lead_text(after.root) == lead_text(d.root));
    assert(lead_nodes(after.root) == lead_nodes(d.root));
    assert(prolog(after) == prolog(d));
    lemma_block_rendered(u, Seq::empty());
    assert(text_before(new, path.drop_first()) =~= Seq::empty());
    assert(nodes_before(new, path.drop_first()) =~= Seq::empty());
    assert(reached(new, path.drop_first()) == new);
    assert(reaches(new, path.drop_first()));
    assert(text_before(after.root, path) =~= lead_text(d.root) + rendered_all(d.root.kids));
    assert(nodes_before(after.root, path) =~= nodes_of(d.root));
    assert(document_before(after, path) =~= pre);
    lemma_block_found(pre, u, post, Seq::empty());
}

/// A document can take up one record after another: after a merge it is again one
/// after which a record can be read.
pub proof fn law_document_stays_receptive(old: Option<Seq<char>>, u: Ucs)
    requires
        is_receptive(old),
        is_storable(u),
        old matches Some(x) ==> is_closed(x),
    ensures
        is_receptive(Some(merged(old, u))),
{
    lemma_new_document(u);
    match old {
        None => {
            lemma_fresh_stays_receptive(Some(usual_declaration()), u);
        },
        Some(x) => {
            if exists|d: XmlDocument, path: Seq<int>|
                x == document(d) && is_document(d) && #[trigger] is_block_at(d, path)
                    && has_no_field(nodes_before(d.root, path)) {
                let (d, path) = choose|d: XmlDocument, path: Seq<int>|
                    x == document(d) && is_document(d) && #[trigger] is_block_at(d, path)
                        && has_no_field(nodes_before(d.root, path));
                lemma_exchanged_stays_receptive(d, path, u);
            } else if exists|d: XmlDocument|
                x == document(d) && is_document(d) && #[trigger] lacks_block(d) && has_no_field(
                    nodes_of(d.root),
                ) {
                let d = choose|d: XmlDocument|
                    x == document(d) && is_document(d) && #[trigger] lacks_block(d) && has_no_field(
                        nodes_of(d.root),
                    );
                let after = with_block_added(d, u);
                let pre = document_body(d);
                lemma_added_holds(d, u);
                law_block_is_added(d, u);
                lemma_document_end(d, u);
                lemma_find_meaning(lower(x), open_pattern(), 0);
                assert(x.subrange(0, pre.len() as int) =~= pre);
                lemma_no_open_before(x, pre.len() as int);
                lemma_added_is_block(d, u);
                assert(is_block_at(after, seq![d.root.kids.len() as int]));
            } else {
                lemma_fresh_stays_receptive(None, u);
            }
        },
    }
}

/// A new document can take up another record.
proof fn lemma_fresh_stays_receptive(declaration: Option<Declaration>, u: Ucs)
    requires
        is_storable(u),
        declaration is None || declaration == Some(usual_declaration()),
    ensures
        is_receptive(Some(document(with_block_added(bare_document(declaration), u)))),
{
    let d = bare_document(declaration);
    let after = with_block_added(d, u);
    let pre = document_body(d);
    lemma_new_document(u);
    lemma_heads_clear();
    lemma_usual_declaration();
    reveal_strlit("<BWFXML>");
    reveal_strlit("BWFXML");
    reveal_strlit("<");
    reveal_strlit(">");
    assert(spelled(d.root.text) =~= Seq::empty());
    assert(rendered_all(d.root.kids) =~= Seq::empty());
    assert(lead_text(d.root) =~= "<BWFXML>"@);
    match declaration {
        Some(t) => {
            assert(pre =~= "<?xml version=\"1.0\" encoding=\"UTF-8\"?><BWFXML>"@);
        },
        None => {
            assert(pre =~= "<BWFXML>"@);
        },
    }
    lemma_added_is_block(d, u);
    lemma_frame_tags();
    assert(nodes_of(d.root) =~= seq![(true, "BWFXML"@, None)]);
    assert(is_block_at(after, seq![0int]));
}

/// A document whose block was exchanged can take up another record.
proof fn lemma_exchanged_stays_receptive(d: XmlDocument, path: Seq<int>, u: Ucs)
    requires
        is_document(d),
        is_block_at(d, path),
        has_no_field(nodes_before(d.root, path)),
        is_storable(u),
    ensures
        is_receptive(Some(merged(Some(document(d)), u))),
{
    let x = document(d);
    let tail = reached(d.root, path).tail;
    let new = aswg_element(u, tail);
    let after = with_block_at(d, path, u);
    let pre = document_before(d, path);
    let post = document_after(d, path);
    lemma_exchanged_holds(d, path, u);
    law_block_is_exchanged(d, path, u);
    lemma_exchanged_path(d.root, path, new);
    lemma_document_around(d, path, u);
    lemma_block_rendered(u, tail);
    lemma_find_meaning(lower(x), open_pattern(), 0);
    assert(x.subrange(0, pre.len() as int) =~= pre);
    lemma_no_open_before(x, pre.len() as int);
    lemma_block_found(pre, u, post, Seq::empty());
    assert(prolog(after) == prolog(d));
    assert(is_block_at(after, path));
}

/// A text is no longer than its encoding.
proof fn lemma_encoding_length(s: Seq<char>)
    ensures
        s.len() <= encode_utf8(s).len(),
    decreases s.len(),
{
    if s.len() > 0 {
        lemma_encoding_length(s.drop_first());
    }
}

/// A wave file into which a storable record can be written and from which it can
/// be read again.
pub open spec fn takes_record(data: Seq<u8>, u: Ucs) -> bool {
    &&& has_place(data)
    &&& rewritten(data, u).len() <= u32::MAX
    &&& is_storable(u)
    &&& is_receptive(ixml_text(data))
}

/// The iXML document of a rewritten wave file is one from which the record is
/// read, and it is short enough for a parser.
pub proof fn law_written_record_is_read(data: Seq<u8>, u: Ucs)
    requires
        takes_record(data, u),
    ensures
        ixml_text(written(data, u)) matches Some(x) && x.len() < u32::MAX && exists|d: XmlDocument|
            x == #[trigger] document(d) && holds_record(d, u),
{
    let xml = merged(ixml_text(data), u);
    law_written_document_is_read(data, u);
    law_merged_record_is_read(ixml_text(data), u);
    law_rest_of_the_file_stays(data, encode_utf8(xml));
    lemma_encoding_length(xml);
}

} // verus!

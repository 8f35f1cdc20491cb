//! Laws of records: which text stands where in the index, in a document and in what is
//! read.
use crate::catalog::{lacking, text_under, ucs_columns, ucs_under};
use crate::markup::{document, document_nodes, is_document, XmlDocument};
use crate::metadata::{document_in, name_or_empty, overlaid, with_document};
use crate::read_laws::{holds_record, laid_over, law_written_record_is_read, takes_record};
use crate::riff::{ixml_text, written};
use crate::text::{same_ignoring_case, trimmed};
use crate::text_laws::{is_all_white, law_trimming_takes_white_ends};
use crate::ucs::{aswg_fields, aswg_text, field_xml, fields_xml, Fields, Ucs};
use crate::xml::{escaped, escaped_char, parsed_value, value_in, xml_nodes, NodeView};
use vstd::prelude::*;

verus! {

/// The ten texts of a record.
pub open spec fn texts_of(u: Ucs) -> Seq<Seq<char>> {
    seq![
        u.cat_id,
        u.category,
        u.sub_category,
        u.user_category,
        u.vendor_category,
        u.fx_name,
        u.creator_id,
        u.source_id,
        u.user_data,
        u.ucs_library,
    ]
}

/// The elements that hold the ten texts of a record in a document.
pub open spec fn record_tags() -> Seq<Seq<char>> {
    seq![
        "cat_id"@,
        "category"@,
        "sub_category"@,
        "user_category"@,
        "vendor_category"@,
        "fx_name"@,
        "creator_id"@,
        "source_id"@,
        "user_data"@,
        "library"@,
    ]
}

/// The node at `i` is the first element called `name`, in any case.
pub open spec fn is_first_called(nodes: Seq<NodeView>, name: Seq<char>, i: int) -> bool {
    &&& 0 <= i < nodes.len()
    &&& nodes[i].0 && same_ignoring_case(nodes[i].1, name)
    &&& forall|j: int|
        0 <= j < i ==> !((#[trigger] nodes[j]).0 && same_ignoring_case(nodes[j].1, name))
}

/// No node is an element called `name`.
pub open spec fn has_none_called(nodes: Seq<NodeView>, name: Seq<char>) -> bool {
    forall|j: int|
        0 <= j < nodes.len() ==> !((#[trigger] nodes[j]).0 && same_ignoring_case(nodes[j].1, name))
}

/// The value under a name is the text of the first element of that name, without white
/// space at its ends, whatever other elements there are.
pub proof fn law_first_element_has_the_value(nodes: Seq<NodeView>, name: Seq<char>, i: int)
    requires
        is_first_called(nodes, name, i),
    ensures
        value_in(nodes, name) == (match nodes[i].2 {
            Some(t) => trimmed(t),
            None => Seq::empty(),
        }),
    decreases i,
{
    if i > 0 {
        let rest = nodes.drop_first();
        assert(!(nodes[0].0 && same_ignoring_case(nodes[0].1, name)));
        assert forall|j: int| 0 <= j < i - 1 implies !((#[trigger] rest[j]).0
            && same_ignoring_case(rest[j].1, name)) by {
            assert(rest[j] == nodes[j + 1]);
        }
        assert(rest[i - 1] == nodes[i]);
        law_first_element_has_the_value(rest, name, i - 1);
    }
}

/// There is no value under a name that no element has, nor in a text that is no
/// document.
pub proof fn law_no_element_no_value(nodes: Seq<NodeView>, name: Seq<char>)
    requires
        has_none_called(nodes, name),
    ensures
        value_in(nodes, name).len() == 0,
        parsed_value(None, name).len() == 0,
    decreases nodes.len(),
{
    if nodes.len() > 0 {
        let rest = nodes.drop_first();
        assert(!(nodes[0].0 && same_ignoring_case(nodes[0].1, name)));
        assert forall|j: int| 0 <= j < rest.len() implies !((#[trigger] rest[j]).0
            && same_ignoring_case(rest[j].1, name)) by {
            assert(rest[j] == nodes[j + 1]);
        }
        law_no_element_no_value(rest, name);
    }
}

/// What a document says goes before what was known: where the first element for a text
/// holds more than white space, that is the text, without white space at its ends and
/// whatever was known.
pub proof fn law_document_goes_before_the_name(
    base: Ucs,
    nodes: Seq<NodeView>,
    k: int,
    i: int,
    text: Seq<char>,
)
    requires
        0 <= k < 10,
        is_first_called(nodes, record_tags()[k], i),
        nodes[i].2 == Some(text),
        !is_all_white(text),
    ensures
        texts_of(overlaid(base, Some(nodes)))[k] == trimmed(text),
{
    law_first_element_has_the_value(nodes, record_tags()[k], i);
    law_trimming_takes_white_ends(text);
}

/// Where a document does not say a text, what was known stays: there is no element for
/// it, or the first one is empty or blank. So it does with a text that is no document,
/// and without any.
pub proof fn law_name_counts_where_the_document_is_silent(
    base: Ucs,
    nodes: Seq<NodeView>,
    k: int,
)
    requires
        0 <= k < 10,
        ({
            ||| has_none_called(nodes, record_tags()[k])
            ||| exists|i: int| #[trigger]
                is_first_called(nodes, record_tags()[k], i) && match nodes[i].2 {
                    Some(t) => is_all_white(t),
                    None => true,
                }
        }),
    ensures
        texts_of(overlaid(base, Some(nodes)))[k] == texts_of(base)[k],
        overlaid(base, None) == base,
        with_document(base, None) == base,
{
    if has_none_called(nodes, record_tags()[k]) {
        law_no_element_no_value(nodes, record_tags()[k]);
    } else {
        let i = choose|i: int| #[trigger]
            is_first_called(nodes, record_tags()[k], i) && match nodes[i].2 {
                Some(t) => is_all_white(t),
                None => true,
            };
        law_first_element_has_the_value(nodes, record_tags()[k], i);
        if let Some(t) = nodes[i].2 {
            law_trimming_takes_white_ends(t);
        }
    }
}

/// A record laid over another: each of its texts that is more than white space replaces
/// the other's, and the rest of the other stays.
pub proof fn law_record_laid_over_another(base: Ucs, u: Ucs, k: int)
    requires
        0 <= k < 10,
    ensures
        texts_of(laid_over(base, u))[k] == (if is_all_white(texts_of(u)[k]) {
            texts_of(base)[k]
        } else {
            trimmed(texts_of(u)[k])
        }),
{
    law_trimming_takes_white_ends(texts_of(u)[k]);
}

/// What was written into a wave file is read from it under any file name: each text of
/// the record that is more than white space is read as it was written, without white
/// space at its ends, whatever the name says.
pub proof fn law_written_record_is_read_under_any_name(data: Seq<u8>, u: Ucs)
    requires
        takes_record(data, u),
    ensures
        ixml_text(written(data, u)) matches Some(x) && exists|d: XmlDocument|
            x == #[trigger] document(d) && is_document(d) && forall|name: Ucs, k: int|
                0 <= k < 10 && !is_all_white(texts_of(u)[k]) ==> (#[trigger] texts_of(
                    overlaid(name, Some(document_nodes(d))),
                )[k]) == trimmed(texts_of(u)[k]),
{
    law_written_record_is_read(data, u);
    let x = ixml_text(written(data, u))->0;
    let d = choose|d: XmlDocument| x == #[trigger] document(d) && holds_record(d, u);
    assert forall|name: Ucs, k: int| 0 <= k < 10 && !is_all_white(texts_of(u)[k]) implies (
    #[trigger] texts_of(overlaid(name, Some(document_nodes(d))))[k]) == trimmed(texts_of(u)[k]) by {
        assert(overlaid(name, Some(document_nodes(d))) == laid_over(name, u));
        law_record_laid_over_another(name, u, k);
    }
    assert(x == document(d));
}

/// Two file names make no difference to a record of which no text is blank.
pub proof fn law_full_record_hides_the_name(one: Ucs, other: Ucs, u: Ucs)
    requires
        forall|k: int| 0 <= k < 10 ==> !is_all_white(#[trigger] texts_of(u)[k]),
    ensures
        laid_over(one, u) == laid_over(other, u),
        texts_of(laid_over(one, u)) == texts_of(u).map_values(|t: Seq<char>| trimmed(t)),
{
    assert forall|k: int| 0 <= k < 10 implies #[trigger] texts_of(laid_over(one, u))[k] == trimmed(
        texts_of(u)[k],
    ) && texts_of(laid_over(other, u))[k] == trimmed(texts_of(u)[k]) by {
        law_record_laid_over_another(one, u, k);
        law_record_laid_over_another(other, u, k);
    }
    let a = texts_of(laid_over(one, u));
    let b = texts_of(laid_over(other, u));
    assert(a =~= texts_of(u).map_values(|t: Seq<char>| trimmed(t)));
    assert(a =~= b);
    lemma_texts_tell_records(laid_over(one, u), laid_over(other, u));
}

/// Records with the same texts are the same.
proof fn lemma_texts_tell_records(a: Ucs, b: Ucs)
    requires
        texts_of(a) == texts_of(b),
    ensures
        a == b,
{
    let x = texts_of(a);
    let y = texts_of(b);
    assert(x[0] == y[0] && x[1] == y[1] && x[2] == y[2] && x[3] == y[3] && x[4] == y[4]);
    assert(x[5] == y[5] && x[6] == y[6] && x[7] == y[7] && x[8] == y[8] && x[9] == y[9]);
}

/// `text` stands under `key`: it is that of the first pair with this key, or it is empty
/// and no pair has the key.
pub open spec fn stands_under(
    pairs: Seq<(Seq<char>, Seq<char>)>,
    key: Seq<char>,
    text: Seq<char>,
) -> bool {
    ||| text.len() == 0 && forall|i: int| 0 <= i < pairs.len() ==> (#[trigger] pairs[i]).0 != key
    ||| exists|i: int|
        0 <= i < pairs.len() && #[trigger] pairs[i] == (key, text) && forall|j: int|
            0 <= j < i ==> (#[trigger] pairs[j]).0 != key
}

/// A look-up gives the text of the first pair with the key, and an empty text if there
/// is none.
pub proof fn law_text_stands_under_its_key(pairs: Seq<(Seq<char>, Seq<char>)>, key: Seq<char>)
    ensures
        stands_under(pairs, key, text_under(pairs, key)),
    decreases pairs.len(),
{
    if pairs.len() > 0 {
        if pairs[0].0 == key {
            assert(pairs[0] == (key, text_under(pairs, key)));
        } else {
            let rest = pairs.drop_first();
            let text = text_under(pairs, key);
            law_text_stands_under_its_key(rest, key);
            if exists|i: int|
                0 <= i < rest.len() && #[trigger] rest[i] == (key, text) && forall|j: int|
                    0 <= j < i ==> (#[trigger] rest[j]).0 != key {
                let i = choose|i: int|
                    0 <= i < rest.len() && #[trigger] rest[i] == (key, text) && forall|j: int|
                        0 <= j < i ==> (#[trigger] rest[j]).0 != key;
                assert(pairs[i + 1] == (key, text));
                assert forall|j: int| 0 <= j < i + 1 implies (#[trigger] pairs[j]).0 != key by {
                    if j > 0 {
                        assert(rest[j - 1] == pairs[j]);
                    }
                }
            } else {
                assert forall|j: int| 0 <= j < pairs.len() implies (#[trigger] pairs[j]).0 != key by {
                    if j > 0 {
                        assert(rest[j - 1] == pairs[j]);
                    }
                }
            }
        }
    }
}

/// The columns of the index that hold the texts of a record, in the order of the
/// texts.
pub proof fn law_columns_of_a_record()
    ensures
        ucs_columns() == seq![
            "cat_id"@, "category"@, "sub_category"@, "user_category"@, "vendor_category"@,
            "fx_name"@, "creator_id"@, "source_id"@, "user_data"@, "ucs_library"@,
        ],
{
}

/// Each text of a record that a user has entered stands under the name of its column.
pub proof fn law_entered_texts_stand_under_their_columns(pairs: Seq<(Seq<char>, Seq<char>)>)
    ensures
        stands_under(pairs, "cat_id"@, ucs_under(pairs).cat_id),
        stands_under(pairs, "category"@, ucs_under(pairs).category),
        stands_under(pairs, "sub_category"@, ucs_under(pairs).sub_category),
        stands_under(pairs, "user_category"@, ucs_under(pairs).user_category),
        stands_under(pairs, "vendor_category"@, ucs_under(pairs).vendor_category),
        stands_under(pairs, "fx_name"@, ucs_under(pairs).fx_name),
        stands_under(pairs, "creator_id"@, ucs_under(pairs).creator_id),
        stands_under(pairs, "source_id"@, ucs_under(pairs).source_id),
        stands_under(pairs, "user_data"@, ucs_under(pairs).user_data),
        stands_under(pairs, "ucs_library"@, ucs_under(pairs).ucs_library),
        forall|k: int|
            0 <= k < 10 ==> stands_under(
                pairs,
                #[trigger] ucs_columns()[k],
                texts_of(ucs_under(pairs))[k],
            ),
{
    assert forall|k: int| 0 <= k < 10 implies stands_under(
        pairs,
        #[trigger] ucs_columns()[k],
        texts_of(ucs_under(pairs))[k],
    ) by {
        law_text_stands_under_its_key(pairs, ucs_columns()[k]);
    }
    law_text_stands_under_its_key(pairs, "cat_id"@);
    law_text_stands_under_its_key(pairs, "category"@);
    law_text_stands_under_its_key(pairs, "sub_category"@);
    law_text_stands_under_its_key(pairs, "user_category"@);
    law_text_stands_under_its_key(pairs, "vendor_category"@);
    law_text_stands_under_its_key(pairs, "fx_name"@);
    law_text_stands_under_its_key(pairs, "creator_id"@);
    law_text_stands_under_its_key(pairs, "source_id"@);
    law_text_stands_under_its_key(pairs, "user_data"@);
    law_text_stands_under_its_key(pairs, "ucs_library"@);
}

/// A record that is handed over under the names of its columns, in any order and among
/// other texts, is read as that record, if no name is given twice.
pub proof fn law_entered_record_is_read(pairs: Seq<(Seq<char>, Seq<char>)>, u: Ucs)
    requires
        forall|k: int|
            0 <= k < 10 ==> pairs.contains((#[trigger] ucs_columns()[k], texts_of(u)[k])),
        forall|i: int, j: int|
            0 <= i < j < pairs.len() ==> (#[trigger] pairs[i]).0 != (#[trigger] pairs[j]).0,
    ensures
        ucs_under(pairs) == u,
{
    law_entered_texts_stand_under_their_columns(pairs);
    let read = texts_of(ucs_under(pairs));
    assert forall|k: int| 0 <= k < 10 implies read[k] == texts_of(u)[k] by {
        let key = ucs_columns()[k];
        assert(stands_under(pairs, key, read[k]));
        let i = choose|i: int| 0 <= i < pairs.len() && pairs[i] == (key, texts_of(u)[k]);
        assert(pairs[i].0 == key);
        let j = choose|j: int| 0 <= j < pairs.len() && #[trigger] pairs[j] == (key, read[k]);
        assert(i == j);
    }
    assert(read =~= texts_of(u));
    lemma_texts_tell_records(ucs_under(pairs), u);
}

/// The columns that are added are those which are wanted and do not exist, each as often
/// and in the order as they are wanted.
pub proof fn law_lacking_columns_are_added(wanted: Seq<Seq<char>>, existing: Seq<Seq<char>>)
    ensures
        lacking(wanted, existing) == wanted.filter(|c: Seq<char>| !existing.contains(c)),
    decreases wanted.len(),
{
    reveal(Seq::filter);
    if wanted.len() > 0 {
        law_lacking_columns_are_added(wanted.drop_last(), existing);
    }
}

/// Escaped text, piece by piece: the five markup characters become their entity
/// references, every other character stays.
pub proof fn law_escaped_text_piece_by_piece(a: Seq<char>, b: Seq<char>, c: char)
    ensures
        escaped(a + b) == escaped(a) + escaped(b),
        escaped(seq!['&']) == "&amp;"@,
        escaped(seq!['<']) == "&lt;"@,
        escaped(seq!['>']) == "&gt;"@,
        escaped(seq!['"']) == "&quot;"@,
        escaped(seq!['\'']) == "&apos;"@,
        c != '&' && c != '<' && c != '>' && c != '"' && c != '\'' ==> escaped(seq![c]) == seq![c],
    decreases b.len(),
{
    assert forall|x: char| escaped(#[trigger] seq![x]) == escaped_char(x) by {
        assert(seq![x].drop_last() =~= Seq::empty());
        assert(escaped(seq![x].drop_last()) =~= Seq::empty());
        assert(escaped(seq![x]) =~= escaped_char(x));
    }
    if b.len() == 0 {
        assert(a + b =~= a);
        assert(escaped(a) + escaped(b) =~= escaped(a));
    } else {
        law_escaped_text_piece_by_piece(a, b.drop_last(), c);
        assert((a + b).drop_last() =~= a + b.drop_last());
        assert(escaped(a + b) =~= escaped(a) + escaped(b));
    }
}

/// One more field at the end of a block.
proof fn lemma_next_field(fields: Fields, k: int)
    requires
        0 <= k < fields.len(),
    ensures
        "<ASWG>"@ + fields_xml(fields.take(k + 1)) == "<ASWG>"@ + fields_xml(fields.take(k)) + (
        "<"@ + fields[k].0 + ">"@ + escaped(fields[k].1) + "</"@ + fields[k].0 + ">"@),
{
    assert(fields.take(k + 1).drop_last() =~= fields.take(k));
    assert("<ASWG>"@ + (fields_xml(fields.take(k)) + field_xml(fields[k].0, fields[k].1))
        =~= "<ASWG>"@ + fields_xml(fields.take(k)) + field_xml(fields[k].0, fields[k].1));
}

/// The block of a record: its texts, escaped, in the elements for them.
pub proof fn law_block_of_a_record(u: Ucs)
    ensures
        aswg_text(u) == "<ASWG>"@ + ("<"@ + "content_type"@ + ">"@ + escaped("sfx"@) + "</"@
            + "content_type"@ + ">"@) + ("<"@ + "category"@ + ">"@ + escaped(u.category) + "</"@
            + "category"@ + ">"@) + ("<"@ + "sub_category"@ + ">"@ + escaped(u.sub_category) + "</"@
            + "sub_category"@ + ">"@) + ("<"@ + "cat_id"@ + ">"@ + escaped(u.cat_id) + "</"@
            + "cat_id"@ + ">"@) + ("<"@ + "user_category"@ + ">"@ + escaped(u.user_category)
            + "</"@ + "user_category"@ + ">"@) + ("<"@ + "vendor_category"@ + ">"@ + escaped(
            u.vendor_category,
        ) + "</"@ + "vendor_category"@ + ">"@) + ("<"@ + "fx_name"@ + ">"@ + escaped(u.fx_name)
            + "</"@ + "fx_name"@ + ">"@) + ("<"@ + "library"@ + ">"@ + escaped(u.ucs_library)
            + "</"@ + "library"@ + ">"@) + ("<"@ + "creator_id"@ + ">"@ + escaped(u.creator_id)
            + "</"@ + "creator_id"@ + ">"@) + ("<"@ + "source_id"@ + ">"@ + escaped(u.source_id)
            + "</"@ + "source_id"@ + ">"@) + ("<"@ + "user_data"@ + ">"@ + escaped(u.user_data)
            + "</"@ + "user_data"@ + ">"@) + "</ASWG>"@,
{
    let f = aswg_fields(u);
    assert(f.take(0) =~= Seq::empty());
    assert(fields_xml(f.take(0)) =~= Seq::empty());
    assert("<ASWG>"@ + fields_xml(f.take(0)) =~= "<ASWG>"@);
    lemma_next_field(f, 0);
    lemma_next_field(f, 1);
    lemma_next_field(f, 2);
    lemma_next_field(f, 3);
    lemma_next_field(f, 4);
    lemma_next_field(f, 5);
    lemma_next_field(f, 6);
    lemma_next_field(f, 7);
    lemma_next_field(f, 8);
    lemma_next_field(f, 9);
    lemma_next_field(f, 10);
    assert(f.take(11) =~= f);
}

/// A file that could not be read has no document, and one that could has that of its
/// bytes; what is read from it is what a parse of the document says. The name of a file
/// without a file name is empty.
pub proof fn law_document_is_that_of_the_bytes(
    data: Seq<u8>,
    name: Seq<char>,
    base: Ucs,
    x: Seq<char>,
    nodes: Seq<NodeView>,
)
    ensures
        with_document(base, Some(x)) == overlaid(base, xml_nodes(x)),
        parsed_value(Some(nodes), name) == value_in(nodes, name),
        document_in(None) is None,
        document_in(Some(data)) == ixml_text(data),
        name_or_empty(Some(name)) == name,
        name_or_empty(None).len() == 0,
{
}

} // verus!

//! The metadata of a sound file: what its name and its iXML document say.
use crate::markup::{document, document_nodes, is_document, XmlDocument};
use crate::paths::{
    file_name, file_name_fits, lower_ext, lower_extension, path_text, text_path,
};
use crate::read_laws::{holds_record, laid_over, law_written_record_is_read, takes_record};
use crate::riff::{ixml_text, riff_ixml, written};
use crate::tags::GenericTags;
use crate::text::text_of;
use crate::ucs::{parse_ucs_name, ucs_of_name, Ucs, UcsMeta};
use crate::xml::{node_value, parse_nodes, parsed_value, xml_nodes, NodeView, XmlNode};
use std::path::Path;
use vstd::prelude::*;

verus! {

/// `value`, or `base` if there is no value.
pub open spec fn chosen(base: Seq<char>, value: Seq<char>) -> Seq<char> {
    if value.len() == 0 {
        base
    } else {
        value
    }
}

/// `base` with every text for which a parsed document has a value replaced by
/// that value.
pub open spec fn overlaid(base: Ucs, nodes: Option<Seq<NodeView>>) -> Ucs {
    Ucs {
        cat_id: chosen(base.cat_id, parsed_value(nodes, "cat_id"@)),
        category: chosen(base.category, parsed_value(nodes, "category"@)),
        sub_category: chosen(base.sub_category, parsed_value(nodes, "sub_category"@)),
        user_category: chosen(base.user_category, parsed_value(nodes, "user_category"@)),
        vendor_category: chosen(base.vendor_category, parsed_value(nodes, "vendor_category"@)),
        fx_name: chosen(base.fx_name, parsed_value(nodes, "fx_name"@)),
        creator_id: chosen(base.creator_id, parsed_value(nodes, "creator_id"@)),
        source_id: chosen(base.source_id, parsed_value(nodes, "source_id"@)),
        user_data: chosen(base.user_data, parsed_value(nodes, "user_data"@)),
        ucs_library: chosen(base.ucs_library, parsed_value(nodes, "library"@)),
    }
}

/// `base` with what an iXML document says, if there is one.
pub open spec fn with_document(base: Ucs, xml: Option<Seq<char>>) -> Ucs {
    match xml {
        Some(x) => overlaid(base, xml_nodes(x)),
        None => base,
    }
}

/// Puts the value that parsed nodes hold under `tag` into `field`, if there is
/// one.
fn take_value(field: &mut String, nodes: &Vec<XmlNode>, tag: &str)
    ensures
        final(field)@ == chosen(
            old(field)@,
            parsed_value(Some(nodes@.map_values(|n: XmlNode| n@)), tag@),
        ),
{
    let v = node_value(nodes, tag);
    if !v.as_str().is_empty() {
        *field = v;
    }
}

/// Takes over every value that the nodes of an iXML document hold.
pub fn overlay_nodes(base: UcsMeta, nodes: &Vec<XmlNode>) -> (u: UcsMeta)
    ensures
        u@ == overlaid(base@, Some(nodes@.map_values(|n: XmlNode| n@))),
{
    let mut u = base;
    take_value(&mut u.cat_id, nodes, "cat_id");
    take_value(&mut u.category, nodes, "category");
    take_value(&mut u.sub_category, nodes, "sub_category");
    take_value(&mut u.user_category, nodes, "user_category");
    take_value(&mut u.vendor_category, nodes, "vendor_category");
    take_value(&mut u.fx_name, nodes, "fx_name");
    take_value(&mut u.creator_id, nodes, "creator_id");
    take_value(&mut u.source_id, nodes, "source_id");
    take_value(&mut u.user_data, nodes, "user_data");
    take_value(&mut u.ucs_library, nodes, "library");
    u
}

/// Takes over every value that an iXML document holds. A text that is no XML
/// document holds none.
pub fn overlay_document(base: UcsMeta, xml: &str) -> (u: UcsMeta)
    ensures
        u@ == overlaid(base@, xml_nodes(xml@)),
        forall|d: XmlDocument|
            is_document(d) && xml@ == #[trigger] document(d) && xml@.len() < u32::MAX ==> u@
                == overlaid(base@, Some(document_nodes(d))),
{
    match parse_nodes(xml) {
        Some(nodes) => overlay_nodes(base, &nodes),
        None => base,
    }
}

/// The bytes of a file that could be read.
pub open spec fn bytes_of(contents: Option<&[u8]>) -> Option<Seq<u8>> {
    match contents {
        Some(data) => Some(data@),
        None => None,
    }
}

/// The iXML document in the bytes of a file.
pub open spec fn document_in(contents: Option<Seq<u8>>) -> Option<Seq<char>> {
    match contents {
        Some(data) => ixml_text(data),
        None => None,
    }
}

/// The metadata of a file with the given file name and content. What an iXML
/// document says goes before what the file name says.
///
/// What was written into a wave file is what is read from it: every text of the
/// record, without white space at its ends.
pub fn read_ucs_named(name: Option<&str>, contents: Option<&[u8]>) -> (u: UcsMeta)
    ensures
        u@ == with_document(ucs_of_name(text_of(name)), document_in(bytes_of(contents))),
        forall|data: Seq<u8>, record: Ucs|
            bytes_of(contents) == Some(#[trigger] written(data, record)) && takes_record(
                data,
                record,
            ) ==> u@ == laid_over(ucs_of_name(text_of(name)), record),
{
    let base = parse_ucs_name(name);
    let ghost said = base@;
    let data = match contents {
        Some(data) => data,
        None => {
            return base;
        },
    };
    match riff_ixml(data) {
        Some(xml) => {
            let u = overlay_document(base, xml.as_str());
            proof {
                assert forall|data: Seq<u8>, record: Ucs|
                    bytes_of(contents) == Some(#[trigger] written(data, record)) && takes_record(
                        data,
                        record,
                    ) implies u@ == laid_over(said, record) by {
                    law_written_record_is_read(data, record);
                    let d = choose|d: XmlDocument|
                        xml@ == #[trigger] document(d) && holds_record(d, record);
                    assert(xml@ == document(d));
                    assert(overlaid(said, Some(document_nodes(d))) == laid_over(said, record));
                }
            }
            u
        },
        None => {
            proof {
                assert forall|data: Seq<u8>, record: Ucs|
                    bytes_of(contents) == Some(#[trigger] written(data, record)) && takes_record(
                        data,
                        record,
                    ) implies base@ == laid_over(said, record) by {
                    law_written_record_is_read(data, record);
                }
            }
            base
        },
    }
}

/// The metadata of the file at `path` with the given content, if the file could
/// be read.
pub fn read_ucs(path: &Path, contents: Option<&[u8]>) -> (u: UcsMeta)
    ensures
        exists|name: Option<Seq<char>>| #[trigger]
            file_name_fits(path, name) && u@ == with_document(
                ucs_of_name(name),
                document_in(bytes_of(contents)),
            ) && forall|data: Seq<u8>, record: Ucs|
                bytes_of(contents) == Some(#[trigger] written(data, record)) && takes_record(
                    data,
                    record,
                ) ==> u@ == laid_over(ucs_of_name(name), record),
{
    match file_name(path) {
        Some(n) => {
            let ghost name = Some(n@);
            let u = read_ucs_named(Some(n.as_str()), contents);
            assert(file_name_fits(path, name));
            u
        },
        None => {
            let ghost name: Option<Seq<char>> = None;
            let u = read_ucs_named(None, contents);
            assert(file_name_fits(path, name));
            u
        },
    }
}

/// What is entered of a file into the index, but for its duration.
pub struct AudioRecord {
    pub path: String,
    pub name: String,
    pub ext: String,
    pub tags: GenericTags,
    pub ucs: UcsMeta,
}

/// Makes the entry of the file at `path` with the given tags and content.
pub fn audio_record(path: &Path, tags: GenericTags, contents: Option<&[u8]>) -> (r: AudioRecord)
    ensures
        r.path@ == path_text(path),
        r.tags == tags,
        exists|name: Option<Seq<char>>| #[trigger]
            file_name_fits(path, name) && r.name@ == name_or_empty(name) && r.ext@ == lower_ext(name)
                && r.ucs@ == with_document(ucs_of_name(name), document_in(bytes_of(contents)))
                && forall|data: Seq<u8>, record: Ucs|
                bytes_of(contents) == Some(#[trigger] written(data, record)) && takes_record(
                    data,
                    record,
                ) ==> r.ucs@ == laid_over(ucs_of_name(name), record),
{
    let text = text_path(path);
    match file_name(path) {
        Some(n) => {
            assert(file_name_fits(path, Some(n@)));
            audio_record_named(text.as_str(), Some(n.as_str()), tags, contents)
        },
        None => {
            assert(file_name_fits(path, None));
            audio_record_named(text.as_str(), None, tags, contents)
        },
    }
}

/// A file name, or an empty text.
pub open spec fn name_or_empty(name: Option<Seq<char>>) -> Seq<char> {
    match name {
        Some(n) => n,
        None => Seq::empty(),
    }
}

/// Makes the entry of a file with the given path, file name, tags and content.
pub fn audio_record_named(
    path: &str,
    name: Option<&str>,
    tags: GenericTags,
    contents: Option<&[u8]>,
) -> (r: AudioRecord)
    ensures
        r.path@ == path@,
        r.name@ == name_or_empty(text_of(name)),
        r.ext@ == lower_ext(text_of(name)),
        r.tags == tags,
        r.ucs@ == with_document(ucs_of_name(text_of(name)), document_in(bytes_of(contents))),
        forall|data: Seq<u8>, record: Ucs|
            bytes_of(contents) == Some(#[trigger] written(data, record)) && takes_record(
                data,
                record,
            ) ==> r.ucs@ == laid_over(ucs_of_name(text_of(name)), record),
{
    AudioRecord {
        path: path.to_owned(),
        name: match name {
            Some(n) => n.to_owned(),
            None => String::new(),
        },
        ext: lower_extension(name),
        tags,
        ucs: read_ucs_named(name, contents),
    }
}

} // verus!

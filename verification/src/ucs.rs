//! Universal Category System metadata: the record, what a file name says of it
//! and its form in an iXML document.
use crate::paths::{file_name, file_stem, file_name_fits, stem_of};
use crate::text::{
    find, find_from, find_last, lemma_find_one, lemma_rfind_one, rfind, text_of, to_chars, to_text,
    trim_text, trimmed,
};
use crate::xml::{escape_xml, escaped};
use std::path::Path;
use vstd::prelude::*;

verus! {

/// The metadata of one sound effect.
pub struct UcsMeta {
    pub cat_id: String,
    pub category: String,
    pub sub_category: String,
    pub user_category: String,
    pub vendor_category: String,
    pub fx_name: String,
    pub creator_id: String,
    pub source_id: String,
    pub user_data: String,
    pub ucs_library: String,
}

/// The texts of a [`UcsMeta`].
#[verifier::ext_equal]
pub struct Ucs {
    pub cat_id: Seq<char>,
    pub category: Seq<char>,
    pub sub_category: Seq<char>,
    pub user_category: Seq<char>,
    pub vendor_category: Seq<char>,
    pub fx_name: Seq<char>,
    pub creator_id: Seq<char>,
    pub source_id: Seq<char>,
    pub user_data: Seq<char>,
    pub ucs_library: Seq<char>,
}

impl View for UcsMeta {
    type V = Ucs;

    open spec fn view(&self) -> Ucs {
        Ucs {
            cat_id: self.cat_id@,
            category: self.category@,
            sub_category: self.sub_category@,
            user_category: self.user_category@,
            vendor_category: self.vendor_category@,
            fx_name: self.fx_name@,
            creator_id: self.creator_id@,
            source_id: self.source_id@,
            user_data: self.user_data@,
            ucs_library: self.ucs_library@,
        }
    }
}

/// The record in which every text is empty.
pub open spec fn empty_ucs() -> Ucs {
    Ucs {
        cat_id: Seq::empty(),
        category: Seq::empty(),
        sub_category: Seq::empty(),
        user_category: Seq::empty(),
        vendor_category: Seq::empty(),
        fx_name: Seq::empty(),
        creator_id: Seq::empty(),
        source_id: Seq::empty(),
        user_data: Seq::empty(),
        ucs_library: Seq::empty(),
    }
}

impl Default for UcsMeta {
    fn default() -> (r: Self)
        ensures
            r@ == empty_ucs(),
    {
        UcsMeta {
            cat_id: String::new(),
            category: String::new(),
            sub_category: String::new(),
            user_category: String::new(),
            vendor_category: String::new(),
            fx_name: String::new(),
            creator_id: String::new(),
            source_id: String::new(),
            user_data: String::new(),
            ucs_library: String::new(),
        }
    }
}

impl Clone for UcsMeta {
    fn clone(&self) -> (r: Self)
        ensures
            r == *self,
    {
        UcsMeta {
            cat_id: self.cat_id.clone(),
            category: self.category.clone(),
            sub_category: self.sub_category.clone(),
            user_category: self.user_category.clone(),
            vendor_category: self.vendor_category.clone(),
            fx_name: self.fx_name.clone(),
            creator_id: self.creator_id.clone(),
            source_id: self.source_id.clone(),
            user_data: self.user_data.clone(),
            ucs_library: self.ucs_library.clone(),
        }
    }
}

/// The part of `s` before the first `c`, or all of it.
pub open spec fn before_first(s: Seq<char>, c: char) -> Seq<char> {
    match find_from(s, seq![c], 0) {
        Some(i) => s.subrange(0, i),
        None => s,
    }
}

/// The part of `s` after the last `c`, or all of it.
pub open spec fn after_last(s: Seq<char>, c: char) -> Seq<char> {
    match rfind(s, seq![c]) {
        Some(i) => s.subrange(i + 1, s.len() as int),
        None => s,
    }
}

/// What the stem of a file name says: `CatID_rest` names the category, and the
/// part of `rest` up to its first underscore and after its last hyphen is the
/// name of the effect. A stem without an underscore says nothing.
pub open spec fn ucs_of_stem(stem: Seq<char>) -> Ucs {
    match find_from(stem, seq!['_'], 0) {
        Some(i) => Ucs {
            cat_id: stem.subrange(0, i),
            fx_name: trimmed(
                after_last(before_first(stem.subrange(i + 1, stem.len() as int), '_'), '-'),
            ),
            ..empty_ucs()
        },
        None => empty_ucs(),
    }
}

/// What a file name says; no file name says nothing.
pub open spec fn ucs_of_name(name: Option<Seq<char>>) -> Ucs {
    match name {
        Some(n) => ucs_of_stem(stem_of(n)),
        None => ucs_of_stem(Seq::empty()),
    }
}

/// Reads the metadata that the stem of a file name carries.
pub fn parse_ucs_stem(stem: &str) -> (u: UcsMeta)
    ensures
        u@ == ucs_of_stem(stem@),
{
    let mut u = UcsMeta::default();
    let s = to_chars(stem);
    let n: usize = s.len();
    let underscore: Vec<char> = vec!['_'];
    let hyphen: Vec<char> = vec!['-'];
    assert(underscore@ =~= seq!['_']);
    assert(hyphen@ =~= seq!['-']);
    if let Some(i) = find(s.as_slice(), underscore.as_slice(), 0) {
        proof {
            lemma_find_one(s@, '_', 0);
        }
        u.cat_id = to_text(s.as_slice(), 0, i);
        let rest = to_chars(to_text(s.as_slice(), i + 1, n).as_str());
        let end: usize = match find(rest.as_slice(), underscore.as_slice(), 0) {
            Some(j) => j,
            None => rest.len(),
        };
        proof {
            lemma_find_one(rest@, '_', 0);
            assert(rest@.subrange(0, rest@.len() as int) =~= rest@);
        }
        let core = to_chars(to_text(rest.as_slice(), 0, end).as_str());
        let start: usize = match find_last(core.as_slice(), hyphen.as_slice()) {
            Some(j) => {
                proof {
                    lemma_rfind_one(core@, '-');
                }
                j + 1
            },
            None => 0,
        };
        assert(core@.subrange(0, core@.len() as int) =~= core@);
        u.fx_name = trim_text(core.as_slice(), start, core.len());
    }
    u
}

/// Reads the metadata that a file name carries.
pub fn parse_ucs_name(name: Option<&str>) -> (u: UcsMeta)
    ensures
        u@ == ucs_of_name(text_of(name)),
{
    match name {
        Some(n) => {
            let stem = file_stem(n);
            parse_ucs_stem(stem.as_str())
        },
        None => {
            let stem: String = String::new();
            parse_ucs_stem(stem.as_str())
        },
    }
}

/// Reads the metadata that the file name of a path carries.
pub fn parse_ucs_filename(path: &Path) -> (u: UcsMeta)
    ensures
        exists|name: Option<Seq<char>>|
            #[trigger] file_name_fits(path, name) && u@ == ucs_of_name(name),
{
    match file_name(path) {
        Some(n) => {
            let ghost name = Some(n@);
            assert(file_name_fits(path, name));
            parse_ucs_name(Some(n.as_str()))
        },
        None => {
            let ghost name: Option<Seq<char>> = None;
            assert(file_name_fits(path, name));
            parse_ucs_name(None)
        },
    }
}

/// Names and values, in their order.
pub type Fields = Seq<(Seq<char>, Seq<char>)>;

/// `<name>` and `</name>` around the escaped `value`.
pub open spec fn field_xml(name: Seq<char>, value: Seq<char>) -> Seq<char> {
    "<"@ + name + ">"@ + escaped(value) + "</"@ + name + ">"@
}

/// The fields of an `ASWG` block in their order.
pub open spec fn aswg_fields(u: Ucs) -> Fields {
    seq![
        ("content_type"@, "sfx"@),
        ("category"@, u.category),
        ("sub_category"@, u.sub_category),
        ("cat_id"@, u.cat_id),
        ("user_category"@, u.user_category),
        ("vendor_category"@, u.vendor_category),
        ("fx_name"@, u.fx_name),
        ("library"@, u.ucs_library),
        ("creator_id"@, u.creator_id),
        ("source_id"@, u.source_id),
        ("user_data"@, u.user_data),
    ]
}

/// Fields that follow each other.
pub open spec fn fields_xml(fields: Fields) -> Seq<char>
    decreases fields.len(),
{
    if fields.len() == 0 {
        Seq::empty()
    } else {
        fields_xml(fields.drop_last()) + field_xml(fields.last().0, fields.last().1)
    }
}

/// The `ASWG` block of a record.
pub open spec fn aswg_text(u: Ucs) -> Seq<char> {
    "<ASWG>"@ + fields_xml(aswg_fields(u)) + "</ASWG>"@
}

/// Appends one field to a block that holds the fields `done`.
fn push_field(out: &mut String, name: &str, value: &str, Ghost(done): Ghost<Fields>)
    requires
        old(out)@ == "<ASWG>"@ + fields_xml(done),
    ensures
        final(out)@ == "<ASWG>"@ + fields_xml(done.push((name@, value@))),
{
    out.append("<");
    out.append(name);
    out.append(">");
    out.append(escape_xml(value).as_str());
    out.append("</");
    out.append(name);
    out.append(">");
    assert(done.push((name@, value@)).drop_last() =~= done);
    assert(out@ =~= "<ASWG>"@ + (fields_xml(done) + field_xml(name@, value@)));
}

/// Writes a record as an `ASWG` block.
pub fn aswg_xml(u: &UcsMeta) -> (r: String)
    ensures
        r@ == aswg_text(u@),
{
    let mut r: String = String::new();
    let ghost all = aswg_fields(u@);
    r.append("<ASWG>");
    assert(r@ =~= "<ASWG>"@ + fields_xml(all.take(0)));
    proof {
        assert forall|i: int| 0 <= i < 11 implies #[trigger] all.take(i).push(all[i]) == all.take(
            i + 1,
        ) by {
            assert(all.take(i).push(all[i]) =~= all.take(i + 1));
        }
        assert(all.take(11) =~= all);
    }
    push_field(&mut r, "content_type", "sfx", Ghost(all.take(0)));
    push_field(&mut r, "category", u.category.as_str(), Ghost(all.take(1)));
    push_field(&mut r, "sub_category", u.sub_category.as_str(), Ghost(all.take(2)));
    push_field(&mut r, "cat_id", u.cat_id.as_str(), Ghost(all.take(3)));
    push_field(&mut r, "user_category", u.user_category.as_str(), Ghost(all.take(4)));
    push_field(&mut r, "vendor_category", u.vendor_category.as_str(), Ghost(all.take(5)));
    push_field(&mut r, "fx_name", u.fx_name.as_str(), Ghost(all.take(6)));
    push_field(&mut r, "library", u.ucs_library.as_str(), Ghost(all.take(7)));
    push_field(&mut r, "creator_id", u.creator_id.as_str(), Ghost(all.take(8)));
    push_field(&mut r, "source_id", u.source_id.as_str(), Ghost(all.take(9)));
    push_field(&mut r, "user_data", u.user_data.as_str(), Ghost(all.take(10)));
    r.append("</ASWG>");
    r
}

} // verus!

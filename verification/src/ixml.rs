//! The iXML document of a wave file: merging a record into it.
use crate::text::{
    find, find_from, find_last, lemma_find_bounds, lemma_rfind_bounds, lower, rfind, to_chars,
    to_lower, to_text,
};
use crate::ucs::{aswg_text, aswg_xml, Ucs, UcsMeta};
use vstd::prelude::*;

verus! {

/// `hay` with the part from the first `start_tag` to the end of the first
/// `end_tag` at or after it replaced; tags are found in any ASCII case. `None` if
/// there is no such part.
pub open spec fn replaced_ci(
    hay: Seq<char>,
    start_tag: Seq<char>,
    end_tag: Seq<char>,
    replacement: Seq<char>,
) -> Option<Seq<char>> {
    match find_from(lower(hay), lower(start_tag), 0) {
        Some(a) => match find_from(lower(hay), lower(end_tag), a) {
            Some(e) => Some(
                hay.subrange(0, a) + replacement + hay.subrange(
                    e + end_tag.len(),
                    hay.len() as int,
                ),
            ),
            None => None,
        },
        None => None,
    }
}

/// Replaces the part of `hay` from `start_tag` to `end_tag`, both included and
/// both found in any ASCII case.
pub fn replace_ascii_ci(hay: &str, start_tag: &str, end_tag: &str, replacement: &str) -> (r: Option<
    String,
>)
    ensures
        match r {
            Some(s) => replaced_ci(hay@, start_tag@, end_tag@, replacement@) == Some(s@),
            None => replaced_ci(hay@, start_tag@, end_tag@, replacement@) is None,
        },
{
    let text = to_chars(hay);
    let low = to_lower(text.as_slice());
    let start = to_lower(to_chars(start_tag).as_slice());
    let end = to_lower(to_chars(end_tag).as_slice());
    let n: usize = text.len();
    match find(low.as_slice(), start.as_slice(), 0) {
        Some(a) => match find(low.as_slice(), end.as_slice(), a) {
            Some(e) => {
                proof {
                    lemma_find_bounds(low@, start@, 0);
                    lemma_find_bounds(low@, end@, a as int);
                }
                let b: usize = e + end.len();
                let mut r = to_text(text.as_slice(), 0, a);
                r.append(replacement);
                r.append(to_text(text.as_slice(), b, n).as_str());
                Some(r)
            },
            None => None,
        },
        None => None,
    }
}

/// The iXML document that holds `u` after `old`: the `ASWG` block of `old` is
/// replaced; without one the block goes before the last `</BWFXML>`; a text that
/// has neither gives way to a new document.
pub open spec fn merged(old: Option<Seq<char>>, u: Ucs) -> Seq<char> {
    match old {
        Some(x) => match replaced_ci(x, "<ASWG"@, "</ASWG>"@, aswg_text(u)) {
            Some(r) => r,
            None => match rfind(x, "</BWFXML>"@) {
                Some(p) => x.subrange(0, p) + aswg_text(u) + x.subrange(p, x.len() as int),
                None => "<BWFXML>"@ + aswg_text(u) + "</BWFXML>"@,
            },
        },
        None => "<?xml version=\"1.0\" encoding=\"UTF-8\"?><BWFXML>"@ + aswg_text(u)
            + "</BWFXML>"@,
    }
}

/// Merges a record into an iXML document, or starts a new one.
pub fn merge_ixml(old: Option<String>, u: &UcsMeta) -> (r: String)
    ensures
        r@ == merged(
            match old {
                Some(x) => Some(x@),
                None => None,
            },
            u@,
        ),
{
    let aswg = aswg_xml(u);
    match old {
        Some(x) => {
            if let Some(r) = replace_ascii_ci(x.as_str(), "<ASWG", "</ASWG>", aswg.as_str()) {
                return r;
            }
            let text = to_chars(x.as_str());
            let close = to_chars("</BWFXML>");
            match find_last(text.as_slice(), close.as_slice()) {
                Some(p) => {
                    proof {
                        lemma_rfind_bounds(text@, close@, text@.len() as int);
                    }
                    let mut r = to_text(text.as_slice(), 0, p);
                    r.append(aswg.as_str());
                    r.append(to_text(text.as_slice(), p, text.len()).as_str());
                    r
                },
                None => {
                    let mut r: String = String::new();
                    r.append("<BWFXML>");
                    r.append(aswg.as_str());
                    r.append("</BWFXML>");
                    assert(r@ =~= "<BWFXML>"@ + aswg@ + "</BWFXML>"@);
                    r
                },
            }
        },
        None => {
            let mut r: String = String::new();
            r.append("<?xml version=\"1.0\" encoding=\"UTF-8\"?><BWFXML>");
            r.append(aswg.as_str());
            r.append("</BWFXML>");
            assert(r@ =~= "<?xml version=\"1.0\" encoding=\"UTF-8\"?><BWFXML>"@ + aswg@
                + "</BWFXML>"@);
            r
        },
    }
}

} // verus!

//! The generic tags of a sound file.
use crate::text::{decimal, to_decimal};
use vstd::prelude::*;

verus! {

/// The texts of one tag, as far as it holds them.
pub struct TagText {
    pub comment: Option<String>,
    pub artist: Option<String>,
    pub album: Option<String>,
    pub genre: Option<String>,
    pub year: Option<u32>,
    pub keywords: Option<String>,
}

/// What is indexed of the tags of a file.
pub struct GenericTags {
    pub description: String,
    pub artist: String,
    pub album: String,
    pub genre: String,
    pub year: String,
    pub tags: String,
}

/// A text, or an empty one.
pub open spec fn text_or_empty(text: Option<String>) -> Seq<char> {
    match text {
        Some(t) => t@,
        None => Seq::empty(),
    }
}

/// A text, or an empty one.
fn or_empty(text: Option<String>) -> (r: String)
    ensures
        r@ == text_or_empty(text),
{
    match text {
        Some(t) => t,
        None => String::new(),
    }
}

/// A tag after a description and keywords were written into it: its comment and its
/// keywords are new, everything else stays.
pub fn retagged(tag: TagText, description: &str, keywords: &str) -> (r: TagText)
    ensures
        text_or_empty(r.comment) == description@,
        r.comment is Some,
        text_or_empty(r.keywords) == keywords@,
        r.keywords is Some,
        r.artist == tag.artist,
        r.album == tag.album,
        r.genre == tag.genre,
        r.year == tag.year,
{
    TagText {
        comment: Some(description.to_owned()),
        artist: tag.artist,
        album: tag.album,
        genre: tag.genre,
        year: tag.year,
        keywords: Some(keywords.to_owned()),
    }
}

/// The tag that counts: the primary one, or else the first.
pub open spec fn leading_tag(primary: Option<TagText>, first: Option<TagText>) -> Option<TagText> {
    match primary {
        Some(t) => Some(t),
        None => first,
    }
}

/// The texts of the primary tag of a file, or else of its first tag. What a tag
/// does not hold is empty, and so is everything of a file without a tag.
pub fn read_generic(primary: Option<TagText>, first: Option<TagText>) -> (r: GenericTags)
    ensures
        match leading_tag(primary, first) {
            Some(t) => {
                &&& r.description@ == text_or_empty(t.comment)
                &&& r.artist@ == text_or_empty(t.artist)
                &&& r.album@ == text_or_empty(t.album)
                &&& r.genre@ == text_or_empty(t.genre)
                &&& r.year@ == (match t.year {
                    Some(y) => decimal(y as nat),
                    None => Seq::empty(),
                })
                &&& r.tags@ == text_or_empty(t.keywords)
            },
            None => {
                &&& r.description@.len() == 0
                &&& r.artist@.len() == 0
                &&& r.album@.len() == 0
                &&& r.genre@.len() == 0
                &&& r.year@.len() == 0
                &&& r.tags@.len() == 0
            },
        },
{
    let tag = match primary {
        Some(t) => Some(t),
        None => first,
    };
    match tag {
        Some(t) => GenericTags {
            description: or_empty(t.comment),
            artist: or_empty(t.artist),
            album: or_empty(t.album),
            genre: or_empty(t.genre),
            year: match t.year {
                Some(y) => to_decimal(y as u64),
                None => String::new(),
            },
            tags: or_empty(t.keywords),
        },
        None => GenericTags {
            description: String::new(),
            artist: String::new(),
            album: String::new(),
            genre: String::new(),
            year: String::new(),
            tags: String::new(),
        },
    }
}

} // verus!

//! Where a file is copied to: under its own name, or under the first numbered
//! name that is free.
use crate::paths::{extension_of, file_extension, file_stem, stem_of};
use crate::text::{decimal, to_decimal};
use vstd::prelude::*;

verus! {

/// The first number that is not tried.
pub const NUMBER_LIMIT: u64 = 10000;

/// The extension of a file name with its dot; empty if there is none.
pub open spec fn dotted_extension(name: Seq<char>) -> Seq<char> {
    match extension_of(name) {
        Some(e) => "."@ + e,
        None => Seq::empty(),
    }
}

/// The file name with a number between its stem and its extension.
pub open spec fn numbered(name: Seq<char>, n: nat) -> Seq<char> {
    stem_of(name) + " ("@ + decimal(n) + ")"@ + dotted_extension(name)
}

/// The name that is tried under the number `n`; the numbers before 2 stand for
/// the name itself.
pub open spec fn candidate(name: Seq<char>, n: nat) -> Seq<char> {
    if n < 2 {
        name
    } else {
        numbered(name, n)
    }
}

/// The file name with a number between its stem and its extension.
pub fn numbered_name(name: &str, n: u64) -> (r: String)
    ensures
        r@ == numbered(name@, n as nat),
{
    let mut r = file_stem(name);
    r.append(" (");
    r.append(to_decimal(n).as_str());
    r.append(")");
    if let Some(e) = file_extension(name) {
        r.append(".");
        r.append(e.as_str());
        assert(r@ =~= numbered(name@, n as nat));
    }
    assert(r@ =~= numbered(name@, n as nat));
    r
}

/// A search for the name of a copy.
pub struct CopyName {
    pub name: String,
    pub number: u64,
    pub chosen: bool,
}

/// The model of a [`CopyName`].
#[verifier::ext_equal]
pub struct Search {
    pub name: Seq<char>,
    pub number: nat,
    pub chosen: bool,
}

impl View for CopyName {
    type V = Search;

    open spec fn view(&self) -> Search {
        Search { name: self.name@, number: self.number as nat, chosen: self.chosen }
    }
}

/// The number of a search is one that is tried.
pub open spec fn is_in_range(s: Search) -> bool {
    1 <= s.number < NUMBER_LIMIT
}

/// A search that starts with the file name itself.
pub open spec fn new_search(name: Seq<char>) -> Search {
    Search { name, number: 1, chosen: false }
}

/// The name that is tried, or the one that was chosen.
pub open spec fn tried(s: Search) -> Seq<char> {
    candidate(s.name, s.number)
}

/// A search after it was seen whether a file with the tried name exists. A name
/// that is free is chosen; after the last number the name itself is.
pub open spec fn searched(s: Search, exists: bool) -> Search {
    if s.chosen {
        s
    } else if !exists {
        Search { chosen: true, ..s }
    } else if s.number + 1 < NUMBER_LIMIT {
        Search { number: s.number + 1, ..s }
    } else {
        Search { number: 1, chosen: true, ..s }
    }
}

impl CopyName {
    /// Whether the number is one that is tried.
    pub open spec fn wf(&self) -> bool {
        is_in_range(self@)
    }

    /// A search that starts with the file name itself.
    pub fn new(name: &str) -> (r: CopyName)
        ensures
            r.wf(),
            r@ == new_search(name@),
    {
        CopyName { name: name.to_owned(), number: 1, chosen: false }
    }

    /// The name that is tried, or the one that was chosen.
    pub fn text(&self) -> (r: String)
        ensures
            r@ == tried(self@),
    {
        if self.number < 2 {
            self.name.clone()
        } else {
            numbered_name(self.name.as_str(), self.number)
        }
    }

    /// Takes up whether a file with the tried name exists.
    pub fn step(&mut self, exists: bool)
        requires
            old(self).wf(),
        ensures
            final(self).wf(),
            final(self)@ == searched(old(self)@, exists),
    {
        if !self.chosen {
            if !exists {
                self.chosen = true;
            } else if self.number + 1 < NUMBER_LIMIT {
                self.number += 1;
            } else {
                self.number = 1;
                self.chosen = true;
            }
        }
    }
}

/// A search at its end, in a folder where the names in `taken` exist.
pub open spec fn search_end(s: Search, taken: Set<Seq<char>>) -> Search
    decreases
            if s.chosen {
                0
            } else {
                1 + NUMBER_LIMIT - s.number
            },
    when is_in_range(s)
{
    if s.chosen {
        s
    } else {
        search_end(searched(s, taken.contains(tried(s))), taken)
    }
}

/// The search ends from any number on with the first free name.
proof fn lemma_search_end(s: Search, taken: Set<Seq<char>>)
    requires
        is_in_range(s),
        !s.chosen,
    ensures
        ({
            let e = search_end(s, taken);
            &&& e.name == s.name
            &&& e.chosen
            &&& is_in_range(e)
            &&& {
                ||| {
                    &&& s.number <= e.number
                    &&& !taken.contains(candidate(s.name, e.number))
                    &&& forall|n: nat|
                        s.number <= n < e.number ==> taken.contains(
                            #[trigger] candidate(s.name, n),
                        )
                }
                ||| {
                    &&& e.number == 1
                    &&& forall|n: nat|
                        s.number <= n < NUMBER_LIMIT ==> taken.contains(
                            #[trigger] candidate(s.name, n),
                        )
                }
            }
        }),
    decreases NUMBER_LIMIT - s.number,
{
    let next = searched(s, taken.contains(tried(s)));
    let e = search_end(s, taken);
    assert(tried(s) == candidate(s.name, s.number));
    assert(e == search_end(next, taken));
    if next.chosen {
        assert(e == next);
    } else {
        lemma_search_end(next, taken);
    }
}

/// A copy gets the name of the file if that is free, and else the first free
/// name with a number; it takes the place of an existing file only if every name
/// is taken, and then of the file with the same name.
pub proof fn law_copy_takes_first_free_name(name: Seq<char>, taken: Set<Seq<char>>)
    ensures
        ({
            let e = search_end(new_search(name), taken);
            &&& e.chosen
            &&& !taken.contains(name) ==> tried(e) == name
            &&& (exists|n: nat| 1 <= n < NUMBER_LIMIT && !taken.contains(#[trigger] candidate(name, n)))
                ==> !taken.contains(tried(e)) && forall|n: nat|
                1 <= n < e.number ==> taken.contains(#[trigger] candidate(name, n))
            &&& (forall|n: nat|
                1 <= n < NUMBER_LIMIT ==> taken.contains(#[trigger] candidate(name, n)))
                ==> tried(e) == name
        }),
{
    let s = new_search(name);
    lemma_search_end(s, taken);
    let e = search_end(s, taken);
    assert(candidate(name, 1) == name);
    if !taken.contains(name) {
        assert(e.number == 1);
    }
}

} // verus!

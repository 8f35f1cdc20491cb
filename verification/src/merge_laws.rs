//! Laws of merging a record into an iXML document.
use crate::ixml::{merged, replaced_ci};
use crate::markup::is_name;
use crate::text::{
    differs_at, find_from, is_clear_of, lemma_clear_join, lemma_clear_no_match,
    lemma_clear_of_first, lemma_find_is, lemma_find_meaning, lemma_rfind_bounds, lower, matches_at,
    rfind, rfind_upto,
};
use crate::ucs::{aswg_fields, aswg_text, field_xml, fields_xml, Fields, Ucs};
use crate::xml::{escaped, law_escaped_text_holds_no_markup};
use vstd::prelude::*;

verus! {

/// Case folding of a joined text.
proof fn lemma_lower_join(a: Seq<char>, b: Seq<char>)
    ensures
        lower(a + b) == lower(a) + lower(b),
{
    assert(lower(a + b) =~= lower(a) + lower(b));
}

/// No letter folds to a markup character.
proof fn lemma_lower_lt(s: Seq<char>)
    ensures
        lower(s).len() == s.len(),
        forall|i: int| 0 <= i < s.len() ==> (#[trigger] lower(s)[i] == '<' <==> s[i] == '<'),
{
}

/// Neither the opening nor the closing tag of `name` lets `pat` begin.
pub open spec fn tags_clear(name: Seq<char>, pat: Seq<char>) -> bool {
    is_clear_of(lower("<"@ + name + ">"@), pat) && is_clear_of(lower("</"@ + name + ">"@), pat)
}

/// Escaped text does not let a tag begin.
proof fn lemma_escaped_clear(s: Seq<char>, pat: Seq<char>)
    requires
        pat.len() > 0,
        pat[0] == '<',
    ensures
        is_clear_of(lower(escaped(s)), pat),
{
    law_escaped_text_holds_no_markup(s);
    lemma_lower_lt(escaped(s));
    lemma_clear_of_first(lower(escaped(s)), pat);
}

/// The opening tag of an `ASWG` block, as it is searched for.
pub open spec fn open_pattern() -> Seq<char> {
    lower("<ASWG"@)
}

/// The closing tag of an `ASWG` block, as it is searched for.
pub open spec fn close_pattern() -> Seq<char> {
    lower("</ASWG>"@)
}

/// The searched tags, letter by letter.
proof fn lemma_patterns()
    ensures
        open_pattern() == seq!['<', 'a', 's', 'w', 'g'],
        close_pattern() == seq!['<', '/', 'a', 's', 'w', 'g', '>'],
        lower("ASWG"@) == seq!['a', 's', 'w', 'g'],
{
    reveal_strlit("<ASWG");
    reveal_strlit("</ASWG>");
    reveal_strlit("ASWG");
    assert(open_pattern() =~= seq!['<', 'a', 's', 'w', 'g']);
    assert(close_pattern() =~= seq!['<', '/', 'a', 's', 'w', 'g', '>']);
    assert(lower("ASWG"@) =~= seq!['a', 's', 'w', 'g']);
}

/// Tags of names other than `ASWG` hold no closing tag of a block.
proof fn lemma_close_clear(name: Seq<char>)
    requires
        is_name(name),
        lower(name) != lower("ASWG"@),
    ensures
        tags_clear(name, close_pattern()),
{
    lemma_patterns();
    reveal_strlit("<");
    reveal_strlit("</");
    reveal_strlit(">");
    let pat = close_pattern();
    let low = lower(name);
    let w = lower("ASWG"@);
    let open = lower("<"@ + name + ">"@);
    let close = lower("</"@ + name + ">"@);
    assert forall|i: int| 0 <= i < open.len() implies #[trigger] differs_at(open, pat, i) by {
        if i == 0 {
            assert(open[i + 1] == low[0]);
            assert(open[i + 1] != pat[1]);
        } else {
            assert(open[i + 0] != pat[0]);
        }
    }
    assert forall|i: int| 0 <= i < close.len() implies #[trigger] differs_at(close, pat, i) by {
        if i == 0 {
            if exists|k: int| 0 <= k < 4 && k < low.len() && low[k] != w[k] {
                let k = choose|k: int| 0 <= k < 4 && k < low.len() && low[k] != w[k];
                assert(close[i + (k + 2)] == low[k]);
                assert(close[i + (k + 2)] != pat[k + 2]);
            } else if name.len() < 4 {
                let j: int = name.len() as int + 2;
                assert(close[i + j] == '>');
                assert(close[i + j] != pat[j]);
            } else if name.len() > 4 {
                assert(close[i + 6] == low[4]);
                assert(close[i + 6] != pat[6]);
            } else {
                assert(low =~= w);
            }
        } else {
            assert(close[i + 0] != pat[0]);
        }
    }
}

/// The names of the fields are tag names, none of them of four letters.
pub proof fn lemma_field_names(u: Ucs)
    ensures
        forall|k: int|
            0 <= k < 11 ==> is_name((#[trigger] aswg_fields(u)[k]).0) && aswg_fields(u)[k].0.len()
                > 4,
{
    reveal_strlit("content_type");
    reveal_strlit("category");
    reveal_strlit("sub_category");
    reveal_strlit("cat_id");
    reveal_strlit("user_category");
    reveal_strlit("vendor_category");
    reveal_strlit("fx_name");
    reveal_strlit("library");
    reveal_strlit("creator_id");
    reveal_strlit("source_id");
    reveal_strlit("user_data");
}

/// Fields whose tags do not let `pat` begin do not let it begin.
proof fn lemma_fields_clear(f: Fields, pat: Seq<char>)
    requires
        pat.len() > 0,
        pat[0] == '<',
        forall|k: int| 0 <= k < f.len() ==> tags_clear((#[trigger] f[k]).0, pat),
    ensures
        is_clear_of(lower(fields_xml(f)), pat),
    decreases f.len(),
{
    if f.len() > 0 {
        assert forall|k: int| 0 <= k < f.drop_last().len() implies tags_clear(
            (#[trigger] f.drop_last()[k]).0,
            pat,
        ) by {
            assert(f.drop_last()[k] == f[k]);
        }
        lemma_fields_clear(f.drop_last(), pat);
        let (name, value) = f.last();
        assert(tags_clear(f[f.len() - 1].0, pat));
        let front = fields_xml(f.drop_last());
        let open = "<"@ + name + ">"@;
        let close = "</"@ + name + ">"@;
        assert(field_xml(name, value) =~= open + escaped(value) + close);
        lemma_escaped_clear(value, pat);
        lemma_lower_join(front, field_xml(name, value));
        lemma_lower_join(open + escaped(value), close);
        lemma_lower_join(open, escaped(value));
        lemma_clear_join(lower(open), lower(escaped(value)), pat);
        lemma_clear_join(lower(open) + lower(escaped(value)), lower(close), pat);
        lemma_clear_join(lower(front), lower(field_xml(name, value)), pat);
    } else {
        assert(lower(fields_xml(f)).len() == 0);
    }
}

/// A block begins with its opening tag, and its first closing tag ends it.
proof fn lemma_block_shape(u: Ucs)
    ensures
        matches_at(lower(aswg_text(u)), open_pattern(), 0),
        is_clear_of(lower("<ASWG>"@ + fields_xml(aswg_fields(u))), close_pattern()),
        lower(aswg_text(u)) == lower("<ASWG>"@ + fields_xml(aswg_fields(u))) + close_pattern(),
        aswg_text(u).len() == ("<ASWG>"@ + fields_xml(aswg_fields(u))).len() + 7,
{
    let f = aswg_fields(u);
    lemma_patterns();
    reveal_strlit("<ASWG>");
    reveal_strlit("</ASWG>");
    lemma_field_names(u);
    assert forall|k: int| 0 <= k < f.len() implies tags_clear(
        (#[trigger] f[k]).0,
        close_pattern(),
    ) by {
        assert(lower(f[k].0).len() > 4);
        lemma_close_clear(f[k].0);
    }
    lemma_fields_clear(f, close_pattern());
    let open = lower("<ASWG>"@);
    assert(is_clear_of(open, close_pattern())) by {
        assert forall|i: int| 0 <= i < open.len() implies #[trigger] differs_at(
            open,
            close_pattern(),
            i,
        ) by {
            if i == 0 {
                assert(open[i + 1] != close_pattern()[1]);
            } else {
                assert(open[i + 0] != close_pattern()[0]);
            }
        }
    }
    lemma_lower_join("<ASWG>"@, fields_xml(f));
    lemma_clear_join(open, lower(fields_xml(f)), close_pattern());
    lemma_lower_join("<ASWG>"@ + fields_xml(f), "</ASWG>"@);
    assert(lower(aswg_text(u)).subrange(0, 5) =~= open_pattern());
}

/// A block behind a text without an opening tag is what a merge replaces.
#[verifier::rlimit(30)]
pub proof fn lemma_block_found(pre: Seq<char>, u: Ucs, post: Seq<char>, replacement: Seq<char>)
    requires
        forall|i: int| !matches_at(lower(pre), open_pattern(), i),
    ensures
        replaced_ci(pre + aswg_text(u) + post, "<ASWG"@, "</ASWG>"@, replacement) == Some(
            pre + replacement + post,
        ),
        find_from(lower(pre + aswg_text(u) + post), open_pattern(), 0) == Some(pre.len() as int),
        find_from(lower(pre + aswg_text(u) + post), close_pattern(), pre.len() as int) == Some(
            pre.len() + aswg_text(u).len() - 7,
        ),
{
    let t = pre + aswg_text(u) + post;
    let low = lower(t);
    let a = pre.len() as int;
    let head = "<ASWG>"@ + fields_xml(aswg_fields(u));
    lemma_patterns();
    lemma_block_shape(u);
    lemma_lower_join(pre + aswg_text(u), post);
    lemma_lower_join(pre, aswg_text(u));
    assert(low =~= lower(pre) + lower(aswg_text(u)) + lower(post));
    assert(matches_at(low, open_pattern(), a)) by {
        assert(low.subrange(a, a + 5) =~= lower(aswg_text(u)).subrange(0, 5));
    }
    assert forall|i: int| 0 <= i < a implies !matches_at(low, open_pattern(), i) by {
        if matches_at(low, open_pattern(), i) {
            if i + 5 <= a {
                assert(lower(pre).subrange(i, i + 5) =~= low.subrange(i, i + 5));
                assert(matches_at(lower(pre), open_pattern(), i));
            } else {
                assert(low.subrange(i, i + 5)[a - i] == low[a]);
                assert(lower(aswg_text(u))[0] == lower(aswg_text(u)).subrange(0, 5)[0]);
            }
        }
    }
    lemma_find_is(low, open_pattern(), 0, a);
    let e = a + head.len();
    assert(low =~= lower(pre) + lower(head) + (close_pattern() + lower(post)));
    lemma_clear_no_match(lower(pre), lower(head), close_pattern() + lower(post), close_pattern());
    assert(low.subrange(e, e + 7) =~= close_pattern());
    lemma_find_is(low, close_pattern(), a, e);
    reveal_strlit("</ASWG>");
    assert(t.subrange(0, a) =~= pre);
    assert(t.subrange(e + 7, t.len() as int) =~= post);
}

/// Every opening tag of a block is followed by a closing one, as far as a merge
/// looks: if there is an opening tag, there is a block to replace.
pub open spec fn is_closed(x: Seq<char>) -> bool {
    find_from(lower(x), open_pattern(), 0) is Some ==> replaced_ci(
        x,
        "<ASWG"@,
        "</ASWG>"@,
        Seq::empty(),
    ) is Some
}

/// The last merge wins: merging a second record gives the same document as
/// merging it in the first place.
pub proof fn law_last_merge_wins(old: Option<Seq<char>>, first: Ucs, second: Ucs)
    requires
        old matches Some(x) ==> is_closed(x),
    ensures
        merged(Some(merged(old, first)), second) == merged(old, second),
{
    lemma_patterns();
    match old {
        Some(x) => {
            let low = lower(x);
            lemma_find_meaning(low, open_pattern(), 0);
            match find_from(low, open_pattern(), 0) {
                Some(a) => {
                    let e = find_from(low, close_pattern(), a)->0;
                    lemma_find_meaning(low, close_pattern(), a);
                    let pre = x.subrange(0, a);
                    let post = x.subrange(e + 7, x.len() as int);
                    reveal_strlit("</ASWG>");
                    assert(merged(old, first) == pre + aswg_text(first) + post);
                    lemma_no_open_before(x, a);
                    lemma_block_found(pre, first, post, aswg_text(second));
                },
                None => {
                    lemma_new_block(x, first, second);
                },
            }
        },
        None => {
            let pre = "<?xml version=\"1.0\" encoding=\"UTF-8\"?><BWFXML>"@;
            lemma_heads_clear();
            lemma_block_found(pre, first, "</BWFXML>"@, aswg_text(second));
        },
    }
}

/// Before the first opening tag there is none.
pub proof fn lemma_no_open_before(x: Seq<char>, a: int)
    requires
        0 <= a <= x.len(),
        forall|k: int| 0 <= k < a ==> !matches_at(lower(x), open_pattern(), k),
    ensures
        forall|i: int| !matches_at(lower(x.subrange(0, a)), open_pattern(), i),
{
    lemma_patterns();
    let pre = x.subrange(0, a);
    assert forall|i: int| !matches_at(lower(pre), open_pattern(), i) by {
        if matches_at(lower(pre), open_pattern(), i) {
            assert(lower(x).subrange(i, i + 5) =~= lower(pre).subrange(i, i + 5));
            assert(matches_at(lower(x), open_pattern(), i));
        }
    }
}

/// The texts that a new document starts with hold no opening tag of a block.
pub proof fn lemma_heads_clear()
    ensures
        forall|i: int|
            !matches_at(
                lower("<?xml version=\"1.0\" encoding=\"UTF-8\"?><BWFXML>"@),
                open_pattern(),
                i,
            ),
        forall|i: int| !matches_at(lower("<BWFXML>"@), open_pattern(), i),
{
    lemma_patterns();
    reveal_strlit("<?xml version=\"1.0\" encoding=\"UTF-8\"?><BWFXML>");
    reveal_strlit("<BWFXML>");
    let long = lower("<?xml version=\"1.0\" encoding=\"UTF-8\"?><BWFXML>"@);
    let short = lower("<BWFXML>"@);
    assert forall|i: int| !matches_at(long, open_pattern(), i) by {
        if matches_at(long, open_pattern(), i) {
            assert(long.subrange(i, i + 5)[1] == long[i + 1]);
            assert(long.subrange(i, i + 5)[0] == long[i]);
            assert(long[i] == '<' && long[i + 1] == 'a');
        }
    }
    assert forall|i: int| !matches_at(short, open_pattern(), i) by {
        if matches_at(short, open_pattern(), i) {
            assert(short.subrange(i, i + 5)[1] == short[i + 1]);
            assert(short.subrange(i, i + 5)[0] == short[i]);
        }
    }
}

/// Where a merge adds a block, a second merge replaces it.
proof fn lemma_new_block(x: Seq<char>, first: Ucs, second: Ucs)
    requires
        find_from(lower(x), open_pattern(), 0) is None,
    ensures
        merged(Some(merged(Some(x), first)), second) == merged(Some(x), second),
{
    lemma_find_meaning(lower(x), open_pattern(), 0);
    match rfind(x, "</BWFXML>"@) {
        Some(p) => {
            lemma_rfind_bounds(x, "</BWFXML>"@, x.len() as int);
            lemma_no_open_before(x, p);
            lemma_block_found(
                x.subrange(0, p),
                first,
                x.subrange(p, x.len() as int),
                aswg_text(second),
            );
        },
        None => {
            lemma_heads_clear();
            lemma_block_found("<BWFXML>"@, first, "</BWFXML>"@, aswg_text(second));
        },
    }
}

/// `pat` stands in `s` at `i`.
pub open spec fn has_part(s: Seq<char>, i: int, pat: Seq<char>) -> bool {
    0 <= i && i + pat.len() <= s.len() && s.subrange(i, i + pat.len()) == pat
}

/// What is replaced reaches from the first start tag to the end of the first end tag that
/// begins there or later; the case of letters makes no difference. Without such a part
/// nothing is replaced.
pub proof fn law_part_between_tags_is_replaced(
    hay: Seq<char>,
    start: Seq<char>,
    end: Seq<char>,
    replacement: Seq<char>,
)
    ensures
        match replaced_ci(hay, start, end, replacement) {
            Some(r) => exists|i: int, j: int|
                {
                    &&& #[trigger] has_part(lower(hay), i, lower(start))
                    &&& #[trigger] has_part(lower(hay), j, lower(end))
                    &&& i <= j
                    &&& forall|k: int| k < i ==> !has_part(lower(hay), k, lower(start))
                    &&& forall|k: int| i <= k < j ==> !has_part(lower(hay), k, lower(end))
                    &&& r == hay.take(i) + replacement + hay.skip(j + end.len())
                },
            None => forall|i: int, j: int|
                #[trigger] has_part(lower(hay), i, lower(start)) && i <= j ==> !#[trigger] has_part(
                    lower(hay),
                    j,
                    lower(end),
                ),
        },
{
    let low = lower(hay);
    let s = lower(start);
    let e = lower(end);
    assert forall|k: int, pat: Seq<char>| #[trigger] has_part(low, k, pat) == matches_at(
        low,
        pat,
        k,
    ) by {}
    lemma_find_meaning(low, s, 0);
    match find_from(low, s, 0) {
        Some(i) => {
            lemma_find_meaning(low, e, i);
            match find_from(low, e, i) {
                Some(j) => {
                    assert(has_part(low, i, s) && has_part(low, j, e));
                    assert forall|k: int| k < i implies !has_part(low, k, s) by {
                        if 0 <= k {
                            assert(!matches_at(low, s, k));
                        }
                    }
                    assert forall|k: int| i <= k < j implies !has_part(low, k, e) by {
                        assert(!matches_at(low, e, k));
                    }
                    assert(hay.subrange(0, i) =~= hay.take(i));
                    assert(hay.subrange(j + end.len(), hay.len() as int) =~= hay.skip(
                        j + end.len(),
                    ));
                },
                None => {
                    assert forall|p: int, q: int|
                        #[trigger] has_part(low, p, s) && p <= q implies !#[trigger] has_part(
                        low,
                        q,
                        e,
                    ) by {
                        if p < i {
                            assert(!matches_at(low, s, p));
                        } else {
                            assert(!matches_at(low, e, q));
                        }
                    }
                },
            }
        },
        None => {
            assert forall|p: int, q: int|
                #[trigger] has_part(low, p, s) && p <= q implies !#[trigger] has_part(
                low,
                q,
                e,
            ) by {
                assert(!matches_at(low, s, p));
            }
        },
    }
}

/// The tags of a block in lower case are those that are searched for.
proof fn lemma_small_tags()
    ensures
        "<aswg"@ == open_pattern(),
        "</aswg>"@ == close_pattern(),
{
    lemma_patterns();
    reveal_strlit("<aswg");
    reveal_strlit("</aswg>");
    assert("<aswg"@ =~= open_pattern());
    assert("</aswg>"@ =~= close_pattern());
}

/// A merge replaces the block of a document: what stands before the first opening tag and
/// behind the first closing tag after it stays, and nothing of the old block does. Tags
/// are found in any case.
pub proof fn law_merge_replaces_the_block(
    before: Seq<char>,
    block: Seq<char>,
    close: Seq<char>,
    after: Seq<char>,
    u: Ucs,
)
    requires
        has_part(lower(block), 0, "<aswg"@),
        lower(close) == "</aswg>"@,
        forall|k: int|
            k < before.len() ==> !#[trigger] has_part(
                lower(before + block + close + after),
                k,
                "<aswg"@,
            ),
        forall|k: int|
            before.len() <= k < before.len() + block.len() ==> !#[trigger] has_part(
                lower(before + block + close + after),
                k,
                "</aswg>"@,
            ),
    ensures
        merged(Some(before + block + close + after), u) == before + aswg_text(u) + after,
{
    let x = before + block + close + after;
    let low = lower(x);
    let a = before.len() as int;
    let e = a + block.len() as int;
    lemma_patterns();
    lemma_small_tags();
    reveal_strlit("</ASWG>");
    assert(lower(close).len() == close.len());
    assert(low.subrange(a, a + 5) =~= open_pattern()) by {
        assert(lower(block).subrange(0, 5) =~= open_pattern());
        assert forall|i: int| 0 <= i < 5 implies low.subrange(a, a + 5)[i] == open_pattern()[i] by {
            assert(lower(block).subrange(0, 5)[i] == lower(block)[i]);
            assert(x[a + i] == block[i]);
        }
    }
    assert(low.subrange(e, e + 7) =~= close_pattern()) by {
        assert forall|i: int| 0 <= i < 7 implies low.subrange(e, e + 7)[i] == close_pattern()[i] by {
            assert(x[e + i] == close[i]);
            assert(lower(close)[i] == close_pattern()[i]);
        }
    }
    assert forall|k: int| 0 <= k < a implies !matches_at(low, open_pattern(), k) by {
        assert(!has_part(low, k, "<aswg"@));
    }
    assert forall|k: int| a <= k < e implies !matches_at(low, close_pattern(), k) by {
        assert(!has_part(low, k, "</aswg>"@));
    }
    lemma_find_is(low, open_pattern(), 0, a);
    lemma_find_is(low, close_pattern(), a, e);
    assert(x.subrange(0, a) =~= before);
    assert(x.subrange(e + 7, x.len() as int) =~= after);
}

/// A merge into a document without a block puts one before the last end tag of the root
/// element and keeps everything else; a text without such a tag gives way to a new
/// document, and so a document is made where there is none.
pub proof fn law_merge_adds_a_block(before: Seq<char>, after: Seq<char>, u: Ucs)
    ensures
        ({
            let x = before + "</BWFXML>"@ + after;
            (forall|i: int, j: int|
                #[trigger] has_part(lower(x), i, "<aswg"@) && i <= j
                    ==> !#[trigger] has_part(
                    lower(x),
                    j,
                    "</aswg>"@,
                )) && (forall|k: int|
                before.len() < k ==> !#[trigger] has_part(x, k, "</BWFXML>"@)) ==> merged(Some(x), u)
                == before + aswg_text(u) + "</BWFXML>"@ + after
        }),
        (forall|k: int| !#[trigger] has_part(before, k, "</BWFXML>"@)) && (forall|i: int, j: int|
            #[trigger] has_part(lower(before), i, "<aswg"@) && i <= j
                ==> !#[trigger] has_part(
                lower(before),
                j,
                "</aswg>"@,
            )) ==> merged(Some(before), u) == "<BWFXML>"@ + aswg_text(u) + "</BWFXML>"@,
        merged(None, u) == "<?xml version=\"1.0\" encoding=\"UTF-8\"?><BWFXML>"@ + aswg_text(u)
            + "</BWFXML>"@,
{
    lemma_patterns();
    lemma_small_tags();
    let tag = "</BWFXML>"@;
    let x = before + tag + after;
    let n = before.len() as int;
    if (forall|i: int, j: int|
        #[trigger] has_part(lower(x), i, "<aswg"@) && i <= j
            ==> !#[trigger] has_part(lower(x), j, "</aswg>"@)) && (
    forall|k: int| before.len() < k ==> !#[trigger] has_part(x, k, tag)) {
        law_part_between_tags_is_replaced(x, "<ASWG"@, "</ASWG>"@, aswg_text(u));
        assert(replaced_ci(x, "<ASWG"@, "</ASWG>"@, aswg_text(u)) is None);
        assert(x.subrange(n, n + tag.len()) =~= tag);
        lemma_last_is(x, tag, x.len() as int, n);
        assert(x.subrange(0, n) =~= before);
        assert(x.subrange(n, x.len() as int) =~= tag + after);
        assert(before + aswg_text(u) + (tag + after) =~= before + aswg_text(u) + tag + after);
    }
    if (forall|k: int| !#[trigger] has_part(before, k, tag)) && (forall|i: int, j: int|
        #[trigger] has_part(lower(before), i, "<aswg"@) && i <= j
            ==> !#[trigger] has_part(lower(before), j, "</aswg>"@)) {
        law_part_between_tags_is_replaced(before, "<ASWG"@, "</ASWG>"@, aswg_text(u));
        assert(replaced_ci(before, "<ASWG"@, "</ASWG>"@, aswg_text(u)) is None);
        lemma_last_none(before, tag, before.len() as int);
    }
}

/// The last place of a pattern is what a search from the end finds.
proof fn lemma_last_is(s: Seq<char>, pat: Seq<char>, upto: int, i: int)
    requires
        0 <= i <= upto,
        has_part(s, i, pat),
        forall|k: int| i < k ==> !#[trigger] has_part(s, k, pat),
    ensures
        rfind_upto(s, pat, upto) == Some(i),
    decreases upto - i,
{
    if i < upto {
        assert(!has_part(s, upto, pat));
        lemma_last_is(s, pat, upto - 1, i);
    }
}

/// A pattern that stands nowhere is not found from the end.
proof fn lemma_last_none(s: Seq<char>, pat: Seq<char>, upto: int)
    requires
        forall|k: int| !#[trigger] has_part(s, k, pat),
    ensures
        rfind_upto(s, pat, upto) is None,
    decreases upto + 1,
{
    if upto >= 0 {
        assert(!has_part(s, upto, pat));
        lemma_last_none(s, pat, upto - 1);
    }
}

} // verus!

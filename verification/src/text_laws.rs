//! Laws of the operations on texts: what searching, case folding, trimming and decimal
//! notation give, told by the characters of their texts.
use crate::markup::number_of;
use crate::text::{
    decimal, digit, find_from, is_white, lemma_find_one, lemma_rfind_one, lower, matches_at, occurs,
    rfind, rfind_upto, same_ignoring_case, trim_back, trim_back_char, trim_front, trimmed,
};
use vstd::prelude::*;

verus! {

/// `c` does not stand in `s`.
pub open spec fn is_free_of(s: Seq<char>, c: char) -> bool {
    forall|i: int| 0 <= i < s.len() ==> #[trigger] s[i] != c
}

/// Case folding changes the capital letters of ASCII, each to the letter 32 places
/// behind it, and nothing else.
pub proof fn law_lower_changes_capitals_only(s: Seq<char>)
    ensures
        lower(s).len() == s.len(),
        forall|i: int|
            0 <= i < s.len() ==> if 65 <= s[i] as int <= 90 {
                #[trigger] lower(s)[i] as int == s[i] as int + 32
            } else {
                lower(s)[i] == s[i]
            },
{
}

/// Texts are the same but for case if they are equally long and every two characters
/// of them are equal or are the two forms of one ASCII letter.
pub proof fn law_case_is_ignored(a: Seq<char>, b: Seq<char>)
    ensures
        same_ignoring_case(a, b) <==> a.len() == b.len() && forall|i: int|
            0 <= i < a.len() ==> {
                ||| #[trigger] a[i] == b[i]
                ||| 65 <= a[i] as int <= 90 && b[i] as int == a[i] as int + 32
                ||| 65 <= b[i] as int <= 90 && a[i] as int == b[i] as int + 32
            },
{
    let x = lower(a);
    let y = lower(b);
    if same_ignoring_case(a, b) {
        assert(x.len() == a.len() && y.len() == b.len());
        assert forall|i: int| 0 <= i < a.len() implies {
            ||| #[trigger] a[i] == b[i]
            ||| 65 <= a[i] as int <= 90 && b[i] as int == a[i] as int + 32
            ||| 65 <= b[i] as int <= 90 && a[i] as int == b[i] as int + 32
        } by {
            assert(x[i] == y[i]);
            assert(x[i] as int == y[i] as int);
        }
    }
    if a.len() == b.len() && forall|i: int|
        0 <= i < a.len() ==> {
            ||| #[trigger] a[i] == b[i]
            ||| 65 <= a[i] as int <= 90 && b[i] as int == a[i] as int + 32
            ||| 65 <= b[i] as int <= 90 && a[i] as int == b[i] as int + 32
        } {
        assert forall|i: int| 0 <= i < a.len() implies x[i] == y[i] by {
            assert(a[i] == b[i] || a[i] != b[i]);
            assert(x[i] as int == y[i] as int);
        }
        assert(x =~= y);
    }
}

/// A search finds the first place at or after `from` where the pattern stands, and
/// nothing if there is no such place.
pub proof fn law_search_finds_the_first(s: Seq<char>, pat: Seq<char>, from: int)
    requires
        0 <= from,
    ensures
        match find_from(s, pat, from) {
            Some(i) => {
                &&& from <= i && i + pat.len() <= s.len()
                &&& s.subrange(i, i + pat.len()) == pat
                &&& forall|k: int|
                    from <= k < i ==> #[trigger] s.subrange(k, k + pat.len()) != pat
            },
            None => forall|k: int|
                from <= k && k + pat.len() <= s.len() ==> #[trigger] s.subrange(k, k + pat.len())
                    != pat,
        },
    decreases s.len() - from + 1,
{
    if from + pat.len() <= s.len() && !matches_at(s, pat, from) {
        law_search_finds_the_first(s, pat, from + 1);
    }
}

/// A search from the end finds the last place where the pattern stands, and nothing if
/// there is no such place.
pub proof fn law_search_finds_the_last(s: Seq<char>, pat: Seq<char>)
    ensures
        match rfind(s, pat) {
            Some(i) => {
                &&& 0 <= i && i + pat.len() <= s.len()
                &&& s.subrange(i, i + pat.len()) == pat
                &&& forall|k: int|
                    i < k && k + pat.len() <= s.len() ==> #[trigger] s.subrange(k, k + pat.len())
                        != pat
            },
            None => forall|k: int|
                0 <= k && k + pat.len() <= s.len() ==> #[trigger] s.subrange(k, k + pat.len())
                    != pat,
        },
{
    lemma_last(s, pat, s.len() as int);
}

proof fn lemma_last(s: Seq<char>, pat: Seq<char>, upto: int)
    requires
        upto <= s.len(),
    ensures
        match rfind_upto(s, pat, upto) {
            Some(i) => {
                &&& 0 <= i <= upto && i + pat.len() <= s.len()
                &&& s.subrange(i, i + pat.len()) == pat
                &&& forall|k: int|
                    i < k <= upto && k + pat.len() <= s.len() ==> #[trigger] s.subrange(
                        k,
                        k + pat.len(),
                    ) != pat
            },
            None => forall|k: int|
                0 <= k <= upto && k + pat.len() <= s.len() ==> #[trigger] s.subrange(
                    k,
                    k + pat.len(),
                ) != pat,
        },
    decreases upto + 1,
{
    if upto >= 0 && !matches_at(s, pat, upto) {
        lemma_last(s, pat, upto - 1);
    }
}

/// A text holds a pattern if it is the pattern with something before and behind it.
pub proof fn law_pattern_stands_between(before: Seq<char>, pat: Seq<char>, after: Seq<char>)
    ensures
        occurs(before + pat + after, pat),
        forall|s: Seq<char>| #[trigger] occurs(s, pat) ==> exists|i: int|
            0 <= i && i + pat.len() <= s.len() && s == #[trigger] s.take(i) + pat + s.skip(
                i + pat.len(),
            ),
{
    let s = before + pat + after;
    let n = before.len() as int;
    assert(s.subrange(n, n + pat.len()) =~= pat);
    assert(matches_at(s, pat, n));
    assert forall|s: Seq<char>| #[trigger] occurs(s, pat) implies exists|i: int|
        0 <= i && i + pat.len() <= s.len() && s == #[trigger] s.take(i) + pat + s.skip(
            i + pat.len(),
        ) by {
        let i = choose|i: int| matches_at(s, pat, i);
        assert(s =~= s.take(i) + s.subrange(i, i + pat.len()) + s.skip(i + pat.len()));
        assert(s == s.take(i) + pat + s.skip(i + pat.len()));
    }
}

/// A pattern of one character stands where the character is.
proof fn lemma_one_matches(s: Seq<char>, c: char, i: int)
    ensures
        matches_at(s, seq![c], i) <==> 0 <= i < s.len() && s[i] == c,
{
    if 0 <= i < s.len() {
        assert(s.subrange(i, i + 1)[0] == s[i]);
        if s[i] == c {
            assert(s.subrange(i, i + 1) =~= seq![c]);
        } else {
            assert(s.subrange(i, i + 1) != seq![c]);
        }
    }
}

/// The first place of a character is what a search finds.
proof fn lemma_first_place(s: Seq<char>, c: char, from: int, i: int)
    requires
        0 <= from <= i < s.len(),
        s[i] == c,
        forall|k: int| from <= k < i ==> #[trigger] s[k] != c,
    ensures
        find_from(s, seq![c], from) == Some(i),
    decreases i - from,
{
    lemma_one_matches(s, c, from);
    if from < i {
        lemma_first_place(s, c, from + 1, i);
    }
}

/// The last place of a character is what a search from the end finds.
proof fn lemma_last_place(s: Seq<char>, c: char, upto: int, i: int)
    requires
        0 <= i <= upto,
        i < s.len(),
        s[i] == c,
        forall|k: int| i < k < s.len() ==> #[trigger] s[k] != c,
    ensures
        rfind_upto(s, seq![c], upto) == Some(i),
    decreases upto - i,
{
    lemma_one_matches(s, c, upto);
    if i < upto {
        lemma_last_place(s, c, upto - 1, i);
    }
}

/// The first and the last place of a character that stands once.
pub proof fn lemma_only_place(before: Seq<char>, c: char, after: Seq<char>)
    ensures
        is_free_of(before, c) ==> find_from(before + seq![c] + after, seq![c], 0) == Some(
            before.len() as int,
        ),
        is_free_of(after, c) ==> rfind(before + seq![c] + after, seq![c]) == Some(
            before.len() as int,
        ),
{
    let s = before + seq![c] + after;
    let n = before.len() as int;
    if is_free_of(before, c) {
        assert forall|k: int| 0 <= k < n implies #[trigger] s[k] != c by {
            assert(before[k] != c);
        }
        lemma_first_place(s, c, 0, n);
    }
    if is_free_of(after, c) {
        assert forall|k: int| n < k < s.len() implies #[trigger] s[k] != c by {
            assert(after[k - n - 1] != c);
        }
        lemma_last_place(s, c, s.len() as int, n);
    }
}

/// A character that does not stand in a text is not found.
pub proof fn lemma_no_place(s: Seq<char>, c: char)
    requires
        is_free_of(s, c),
    ensures
        find_from(s, seq![c], 0) is None,
        rfind(s, seq![c]) is None,
{
    lemma_find_one(s, c, 0);
    lemma_rfind_one(s, c);
}

/// The white space that is trimmed is that of Unicode.
pub proof fn law_white_space_is_that_of_unicode(c: char)
    ensures
        is_white(c) <==> seq![
            9int, 10, 11, 12, 13, 32, 133, 160, 5760, 8192, 8193, 8194, 8195, 8196, 8197, 8198,
            8199, 8200, 8201, 8202, 8232, 8233, 8239, 8287, 12288,
        ].contains(c as int),
{
    let all = seq![
        9int, 10, 11, 12, 13, 32, 133, 160, 5760, 8192, 8193, 8194, 8195, 8196, 8197, 8198, 8199,
        8200, 8201, 8202, 8232, 8233, 8239, 8287, 12288,
    ];
    let n = c as int;
    if is_white(c) {
        let k: int = if n <= 13 {
            n - 9
        } else if n == 32 {
            5
        } else if n == 133 {
            6
        } else if n == 160 {
            7
        } else if n == 5760 {
            8
        } else if n <= 8202 {
            n - 8192 + 9
        } else if n == 8232 {
            20
        } else if n == 8233 {
            21
        } else if n == 8239 {
            22
        } else if n == 8287 {
            23
        } else {
            24
        };
        assert(all[k] == n);
    }
}

/// Every character of a text is white space.
pub open spec fn is_all_white(s: Seq<char>) -> bool {
    forall|i: int| 0 <= i < s.len() ==> is_white(#[trigger] s[i])
}

proof fn lemma_trim_front(s: Seq<char>)
    ensures
        exists|n: int|
            0 <= n <= s.len() && is_all_white(#[trigger] s.take(n)) && trim_front(s) == s.skip(n),
        trim_front(s).len() > 0 ==> !is_white(trim_front(s)[0]),
    decreases s.len(),
{
    if s.len() > 0 && is_white(s[0]) {
        lemma_trim_front(s.drop_first());
        let t = s.drop_first();
        let n = choose|n: int|
            0 <= n <= t.len() && is_all_white(#[trigger] t.take(n)) && trim_front(t) == t.skip(n);
        assert forall|i: int| 0 <= i < s.take(n + 1).len() implies is_white(
            #[trigger] s.take(n + 1)[i],
        ) by {
            if i > 0 {
                assert(t.take(n)[i - 1] == s[i]);
            }
        }
        assert(t.skip(n) =~= s.skip(n + 1));
        assert(is_all_white(s.take(n + 1)));
    } else {
        assert(is_all_white(s.take(0)));
        assert(s.skip(0) =~= s);
    }
}

proof fn lemma_trim_back(s: Seq<char>)
    ensures
        exists|n: int|
            0 <= n <= s.len() && is_all_white(#[trigger] s.skip(n)) && trim_back(s) == s.take(n),
        trim_back(s).len() > 0 ==> !is_white(trim_back(s).last()),
    decreases s.len(),
{
    if s.len() > 0 && is_white(s.last()) {
        let t = s.drop_last();
        lemma_trim_back(t);
        let n = choose|n: int|
            0 <= n <= t.len() && is_all_white(#[trigger] t.skip(n)) && trim_back(t) == t.take(n);
        assert forall|i: int| 0 <= i < s.skip(n).len() implies is_white(#[trigger] s.skip(n)[i]) by {
            if n + i < t.len() {
                assert(t.skip(n)[i] == s[n + i]);
            }
        }
        assert(t.take(n) =~= s.take(n));
        assert(is_all_white(s.skip(n)));
    } else {
        assert(is_all_white(s.skip(s.len() as int)));
        assert(s.take(s.len() as int) =~= s);
    }
}

/// Trimming takes the white space from both ends of a text and nothing else: what is
/// left neither starts nor ends with white space.
pub proof fn law_trimming_takes_white_ends(s: Seq<char>)
    ensures
        exists|a: int, b: int|
            0 <= a <= b <= s.len() && trimmed(s) == #[trigger] s.subrange(a, b) && is_all_white(
                s.take(a),
            ) && is_all_white(s.skip(b)),
        trimmed(s).len() > 0 ==> !is_white(trimmed(s)[0]) && !is_white(trimmed(s).last()),
        trimmed(s).len() == 0 <==> is_all_white(s),
{
    lemma_trim_front(s);
    let t = trim_front(s);
    lemma_trim_back(t);
    let a = choose|n: int|
        0 <= n <= s.len() && is_all_white(#[trigger] s.take(n)) && trim_front(s) == s.skip(n);
    let m = choose|n: int|
        0 <= n <= t.len() && is_all_white(#[trigger] t.skip(n)) && trim_back(t) == t.take(n);
    assert(t.take(m) =~= s.subrange(a, a + m));
    assert(t.skip(m) =~= s.skip(a + m));
    assert(trimmed(s) == s.subrange(a, a + m));
    if trimmed(s).len() > 0 {
        assert(trimmed(s)[0] == t[0]);
        let k = m - 1;
        assert(s[a] == t[0]);
        if is_all_white(s) {
            assert(is_white(s[a]));
        }
    } else {
        assert forall|i: int| 0 <= i < s.len() implies is_white(#[trigger] s[i]) by {
            if i < a {
                assert(s.take(a)[i] == s[i]);
            } else {
                assert(s.skip(a + m)[i - a] == s[i]);
            }
        }
    }
}

/// Trimming a character takes all of them from the end of a text and nothing else.
pub proof fn law_trimming_takes_trailing_characters(s: Seq<char>, c: char)
    ensures
        trim_back_char(s, c) == s.take(trim_back_char(s, c).len() as int),
        trim_back_char(s, c).len() <= s.len(),
        forall|i: int| trim_back_char(s, c).len() <= i < s.len() ==> #[trigger] s[i] == c,
        trim_back_char(s, c).len() > 0 ==> trim_back_char(s, c).last() != c,
    decreases s.len(),
{
    if s.len() > 0 && s.last() == c {
        let t = s.drop_last();
        law_trimming_takes_trailing_characters(t, c);
        let n = trim_back_char(s, c).len() as int;
        assert(t.take(n) =~= s.take(n));
        assert forall|i: int| n <= i < s.len() implies #[trigger] s[i] == c by {
            if i < t.len() {
                assert(t[i] == c);
            }
        }
    } else {
        assert(s.take(s.len() as int) =~= s);
    }
}

/// Decimal notation is made of digits, has no zero in front, and stands for its number.
pub proof fn law_decimal_stands_for_its_number(n: nat)
    ensures
        number_of(decimal(n), 10) == n,
        decimal(n).len() > 0,
        forall|i: int| 0 <= i < decimal(n).len() ==> '0' <= #[trigger] decimal(n)[i] <= '9',
        n > 0 ==> decimal(n)[0] != '0',
        n < 10 <==> decimal(n).len() == 1,
    decreases n,
{
    let d = decimal(n);
    if n < 10 {
        assert(d.drop_last() =~= Seq::empty());
        assert(number_of(d.drop_last(), 10) == 0);
        assert(d.last() == digit(n));
    } else {
        law_decimal_stands_for_its_number(n / 10);
        assert(d.drop_last() =~= decimal(n / 10));
        assert(d.last() == digit(n % 10));
        assert(d[0] == decimal(n / 10)[0]);
        assert forall|i: int| 0 <= i < d.len() implies '0' <= #[trigger] d[i] <= '9' by {
            if i < d.len() - 1 {
                assert(d[i] == decimal(n / 10)[i]);
            }
        }
    }
}

/// Different numbers have different decimal notations.
pub proof fn law_decimal_tells_numbers_apart(m: nat, n: nat)
    requires
        decimal(m) == decimal(n),
    ensures
        m == n,
{
    law_decimal_stands_for_its_number(m);
    law_decimal_stands_for_its_number(n);
}

} // verus!

//! Character-level text operations: searching, ASCII case folding, trimming and
//! the conversions between `str`, `String` and character vectors.
use vstd::prelude::*;

verus! {

/// `String::push` appends the given character to the end of the string.
pub assume_specification[ String::push ](s: &mut String, c: char)
    ensures
        final(s)@ == old(s)@.push(c),
;

/// The ASCII lower-case form of a character; every other character stands for
/// itself.
pub open spec fn lower_char(c: char) -> char {
    if 'A' <= c <= 'Z' {
        (c as u8 + 32) as char
    } else {
        c
    }
}

/// ASCII case folding of a whole text.
pub open spec fn lower(s: Seq<char>) -> Seq<char> {
    s.map_values(|c: char| lower_char(c))
}

/// Two texts that differ at most in the case of ASCII letters.
pub open spec fn same_ignoring_case(a: Seq<char>, b: Seq<char>) -> bool {
    lower(a) == lower(b)
}

/// `pat` stands in `s` at index `i`.
pub open spec fn matches_at(s: Seq<char>, pat: Seq<char>, i: int) -> bool {
    0 <= i && i + pat.len() <= s.len() && s.subrange(i, i + pat.len()) == pat
}

/// `pat` stands somewhere in `s`.
pub open spec fn occurs(s: Seq<char>, pat: Seq<char>) -> bool {
    exists|i: int| matches_at(s, pat, i)
}

/// The least index at or after `from` where `pat` stands in `s`.
pub open spec fn find_from(s: Seq<char>, pat: Seq<char>, from: int) -> Option<int>
    decreases s.len() - from + 1,
{
    if from < 0 || from + pat.len() > s.len() {
        None
    } else if matches_at(s, pat, from) {
        Some(from)
    } else {
        find_from(s, pat, from + 1)
    }
}

/// The greatest index at or before `upto` where `pat` stands in `s`.
pub open spec fn rfind_upto(s: Seq<char>, pat: Seq<char>, upto: int) -> Option<int>
    decreases upto + 1,
{
    if upto < 0 {
        None
    } else if matches_at(s, pat, upto) {
        Some(upto)
    } else {
        rfind_upto(s, pat, upto - 1)
    }
}

/// The greatest index where `pat` stands in `s`.
pub open spec fn rfind(s: Seq<char>, pat: Seq<char>) -> Option<int> {
    rfind_upto(s, pat, s.len() as int)
}

/// The characters with the Unicode `White_Space` property.
pub open spec fn is_white(c: char) -> bool {
    ||| '\u{9}' <= c <= '\u{d}'
    ||| c == ' '
    ||| c == '\u{85}'
    ||| c == '\u{a0}'
    ||| c == '\u{1680}'
    ||| '\u{2000}' <= c <= '\u{200a}'
    ||| c == '\u{2028}'
    ||| c == '\u{2029}'
    ||| c == '\u{202f}'
    ||| c == '\u{205f}'
    ||| c == '\u{3000}'
}

/// `s` without its leading white space.
pub open spec fn trim_front(s: Seq<char>) -> Seq<char>
    decreases s.len(),
{
    if s.len() > 0 && is_white(s[0]) {
        trim_front(s.drop_first())
    } else {
        s
    }
}

/// `s` without its trailing white space.
pub open spec fn trim_back(s: Seq<char>) -> Seq<char>
    decreases s.len(),
{
    if s.len() > 0 && is_white(s.last()) {
        trim_back(s.drop_last())
    } else {
        s
    }
}

/// `s` without its leading and trailing white space.
pub open spec fn trimmed(s: Seq<char>) -> Seq<char> {
    trim_back(trim_front(s))
}

/// `s` without any `c` at its end.
pub open spec fn trim_back_char(s: Seq<char>, c: char) -> Seq<char>
    decreases s.len(),
{
    if s.len() > 0 && s.last() == c {
        trim_back_char(s.drop_last(), c)
    } else {
        s
    }
}

/// The text that is given, if there is one.
pub open spec fn text_of(text: Option<&str>) -> Option<Seq<char>> {
    match text {
        Some(t) => Some(t@),
        None => None,
    }
}

/// The characters of `s`.
pub fn to_chars(s: &str) -> (v: Vec<char>)
    ensures
        v@ == s@,
{
    let mut v: Vec<char> = Vec::new();
    for c in it: s.chars()
        invariant
            it.seq() == s@,
            v@ == s@.take(it.index() as int),
    {
        v.push(c);
    }
    v
}

/// The text that `v[from..to]` spells.
pub fn to_text(v: &[char], from: usize, to: usize) -> (s: String)
    requires
        from <= to <= v@.len(),
    ensures
        s@ == v@.subrange(from as int, to as int),
{
    let mut s: String = String::new();
    let mut i: usize = from;
    while i < to
        invariant
            from <= i <= to <= v@.len(),
            s@ == v@.subrange(from as int, i as int),
        decreases to - i,
    {
        s.push(v[i]);
        i += 1;
    }
    s
}

/// Folds an ASCII capital letter to lower case.
pub fn to_lower_char(c: char) -> (r: char)
    ensures
        r == lower_char(c),
{
    if 'A' <= c && c <= 'Z' {
        (c as u8 + 32) as char
    } else {
        c
    }
}

/// Folds the ASCII capital letters of a text to lower case.
pub fn to_lower(v: &[char]) -> (r: Vec<char>)
    ensures
        r@ == lower(v@),
{
    let mut r: Vec<char> = Vec::new();
    let mut i: usize = 0;
    while i < v.len()
        invariant
            i <= v@.len(),
            r@ == lower(v@.take(i as int)),
        decreases v@.len() - i,
    {
        r.push(to_lower_char(v[i]));
        i += 1;
        assert(lower(v@.take(i as int)) =~= lower(v@.take(i - 1)).push(lower_char(v@[i - 1])));
    }
    assert(v@.take(i as int) =~= v@);
    r
}

/// Whether `pat` stands in `s` at index `i`.
pub fn stands_at(s: &[char], pat: &[char], i: usize) -> (r: bool)
    ensures
        r == matches_at(s@, pat@, i as int),
{
    if i > s.len() || pat.len() > s.len() - i {
        return false;
    }
    let n: usize = s.len();
    let mut k: usize = 0;
    while k < pat.len()
        invariant
            n == s@.len(),
            i + pat@.len() <= n,
            k <= pat@.len(),
            forall|j: int| 0 <= j < k ==> s@[i + j] == pat@[j],
        decreases pat@.len() - k,
    {
        if s[i + k] != pat[k] {
            assert(s@.subrange(i as int, i + pat@.len())[k as int] != pat@[k as int]);
            return false;
        }
        k += 1;
    }
    assert(s@.subrange(i as int, i + pat@.len()) =~= pat@);
    true
}

/// Finds the first occurrence of `pat` at or after `from`.
pub fn find(s: &[char], pat: &[char], from: usize) -> (r: Option<usize>)
    ensures
        match r {
            Some(i) => find_from(s@, pat@, from as int) == Some(i as int),
            None => find_from(s@, pat@, from as int) is None,
        },
{
    if from > s.len() {
        return None;
    }
    let mut i: usize = from;
    while pat.len() <= s.len() - i
        invariant
            from <= i <= s@.len(),
            find_from(s@, pat@, from as int) == find_from(s@, pat@, i as int),
        decreases s@.len() - i,
    {
        if stands_at(s, pat, i) {
            return Some(i);
        }
        if i == s.len() {
            assert(find_from(s@, pat@, i + 1) is None);
            return None;
        }
        i += 1;
    }
    None
}

/// Finds the last occurrence of `pat`.
pub fn find_last(s: &[char], pat: &[char]) -> (r: Option<usize>)
    ensures
        match r {
            Some(i) => rfind(s@, pat@) == Some(i as int),
            None => rfind(s@, pat@) is None,
        },
{
    let mut i: usize = s.len();
    loop
        invariant
            i <= s@.len(),
            rfind(s@, pat@) == rfind_upto(s@, pat@, i as int),
        decreases i,
    {
        if stands_at(s, pat, i) {
            return Some(i);
        }
        if i == 0 {
            assert(rfind_upto(s@, pat@, -1) is None);
            return None;
        }
        i -= 1;
    }
}

/// Whether a character is Unicode white space.
pub fn is_white_space(c: char) -> (r: bool)
    ensures
        r == is_white(c),
{
    ('\u{9}' <= c && c <= '\u{d}') || c == ' ' || c == '\u{85}' || c == '\u{a0}' || c == '\u{1680}'
        || ('\u{2000}' <= c && c <= '\u{200a}') || c == '\u{2028}' || c == '\u{2029}'
        || c == '\u{202f}' || c == '\u{205f}' || c == '\u{3000}'
}

/// The text that `v[from..to]` spells, without white space at its ends.
pub fn trim_text(v: &[char], from: usize, to: usize) -> (s: String)
    requires
        from <= to <= v@.len(),
    ensures
        s@ == trimmed(v@.subrange(from as int, to as int)),
{
    let mut a: usize = from;
    while a < to && is_white_space(v[a])
        invariant
            from <= a <= to <= v@.len(),
            trim_front(v@.subrange(from as int, to as int)) == trim_front(
                v@.subrange(a as int, to as int),
            ),
        decreases to - a,
    {
        assert(v@.subrange(a as int, to as int).drop_first() =~= v@.subrange(a + 1, to as int));
        a += 1;
    }
    assert(trim_front(v@.subrange(a as int, to as int)) == v@.subrange(a as int, to as int));
    let mut b: usize = to;
    while a < b && is_white_space(v[b - 1])
        invariant
            a <= b <= to <= v@.len(),
            trim_back(v@.subrange(a as int, to as int)) == trim_back(
                v@.subrange(a as int, b as int),
            ),
        decreases b - a,
    {
        assert(v@.subrange(a as int, b as int).drop_last() =~= v@.subrange(a as int, b - 1));
        b -= 1;
    }
    to_text(v, a, b)
}

/// Removes every `c` from the end of a text.
pub fn trim_end_char(s: &str, c: char) -> (r: String)
    ensures
        r@ == trim_back_char(s@, c),
{
    let v = to_chars(s);
    let mut b: usize = v.len();
    assert(v@.subrange(0, b as int) =~= v@);
    while 0 < b && v[b - 1] == c
        invariant
            b <= v@.len(),
            trim_back_char(s@, c) == trim_back_char(v@.subrange(0, b as int), c),
        decreases b,
    {
        assert(v@.subrange(0, b as int).drop_last() =~= v@.subrange(0, b - 1));
        b -= 1;
    }
    to_text(v.as_slice(), 0, b)
}

/// Whether two texts are equal up to the case of ASCII letters.
pub fn eq_ignoring_case(a: &str, b: &str) -> (r: bool)
    ensures
        r == same_ignoring_case(a@, b@),
{
    let x = to_chars(a);
    let y = to_chars(b);
    let x = to_lower(x.as_slice());
    let y = to_lower(y.as_slice());
    assert(x@.subrange(0, x@.len() as int) =~= x@);
    x.len() == y.len() && stands_at(x.as_slice(), y.as_slice(), 0)
}

/// Whether two texts are equal.
pub fn eq_text(a: &str, b: &str) -> (r: bool)
    ensures
        r == (a@ == b@),
{
    let x = to_chars(a);
    let y = to_chars(b);
    assert(x@.subrange(0, x@.len() as int) =~= x@);
    x.len() == y.len() && stands_at(x.as_slice(), y.as_slice(), 0)
}

/// A decimal digit.
pub open spec fn digit(d: nat) -> char {
    (48 + d) as char
}

/// A number in decimal notation.
pub open spec fn decimal(n: nat) -> Seq<char>
    decreases n,
{
    if n < 10 {
        seq![digit(n)]
    } else {
        decimal(n / 10).push(digit(n % 10))
    }
}

/// Writes a number in decimal notation.
pub fn to_decimal(n: u64) -> (s: String)
    ensures
        s@ == decimal(n as nat),
    decreases n,
{
    let last: char = (48 + (n % 10) as u8) as char;
    let mut s: String = if n < 10 {
        String::new()
    } else {
        to_decimal(n / 10)
    };
    s.push(last);
    assert(s@ =~= decimal(n as nat));
    s
}

/// An occurrence lies inside the text and not before where the search began.
pub proof fn lemma_find_bounds(s: Seq<char>, pat: Seq<char>, from: int)
    ensures
        match find_from(s, pat, from) {
            Some(i) => 0 <= from <= i && i + pat.len() <= s.len(),
            None => true,
        },
    decreases s.len() - from + 1,
{
    if 0 <= from && from + pat.len() <= s.len() && !matches_at(s, pat, from) {
        lemma_find_bounds(s, pat, from + 1);
    }
}

/// A last occurrence lies inside the text.
pub proof fn lemma_rfind_bounds(s: Seq<char>, pat: Seq<char>, upto: int)
    ensures
        match rfind_upto(s, pat, upto) {
            Some(i) => 0 <= i <= upto && i + pat.len() <= s.len(),
            None => true,
        },
    decreases upto + 1,
{
    if upto >= 0 && !matches_at(s, pat, upto) {
        lemma_rfind_bounds(s, pat, upto - 1);
    }
}

/// A single character is found at an index inside the text.
pub proof fn lemma_find_one(s: Seq<char>, c: char, from: int)
    requires
        0 <= from,
    ensures
        match find_from(s, seq![c], from) {
            Some(i) => from <= i < s.len() && s[i] == c,
            None => true,
        },
    decreases s.len() - from + 1,
{
    if from + 1 <= s.len() {
        if matches_at(s, seq![c], from) {
            assert(s.subrange(from, from + 1)[0] == c);
        } else {
            lemma_find_one(s, c, from + 1);
        }
    }
}

/// A single character is found last at an index inside the text.
pub proof fn lemma_rfind_one(s: Seq<char>, c: char)
    ensures
        match rfind(s, seq![c]) {
            Some(i) => 0 <= i < s.len() && s[i] == c,
            None => true,
        },
{
    lemma_rfind_upto_one(s, c, s.len() as int);
}

proof fn lemma_rfind_upto_one(s: Seq<char>, c: char, upto: int)
    ensures
        match rfind_upto(s, seq![c], upto) {
            Some(i) => 0 <= i < s.len() && s[i] == c,
            None => true,
        },
    decreases upto + 1,
{
    if upto >= 0 {
        if matches_at(s, seq![c], upto) {
            assert(s.subrange(upto, upto + 1)[0] == c);
        } else {
            lemma_rfind_upto_one(s, c, upto - 1);
        }
    }
}

/// `s` differs from `pat`, laid at index `i`, inside `s`.
pub open spec fn differs_at(s: Seq<char>, pat: Seq<char>, i: int) -> bool {
    exists|j: int| 0 <= j < pat.len() && i + j < s.len() && #[trigger] s[i + j] != pat[j]
}

/// `pat` does not even begin at any index of `s`, whatever may follow `s`.
pub open spec fn is_clear_of(s: Seq<char>, pat: Seq<char>) -> bool {
    forall|i: int| 0 <= i < s.len() ==> #[trigger] differs_at(s, pat, i)
}

/// Texts that are clear of a pattern stay so when joined.
pub proof fn lemma_clear_join(a: Seq<char>, b: Seq<char>, pat: Seq<char>)
    requires
        is_clear_of(a, pat),
        is_clear_of(b, pat),
    ensures
        is_clear_of(a + b, pat),
{
    assert forall|i: int| 0 <= i < (a + b).len() implies #[trigger] differs_at(a + b, pat, i) by {
        if i < a.len() {
            assert(differs_at(a, pat, i));
            let j = choose|j: int|
                0 <= j < pat.len() && i + j < a.len() && #[trigger] a[i + j] != pat[j];
            assert((a + b)[i + j] != pat[j]);
        } else {
            assert(differs_at(b, pat, i - a.len()));
            let j = choose|j: int|
                0 <= j < pat.len() && (i - a.len()) + j < b.len() && #[trigger] b[(i - a.len()) + j]
                    != pat[j];
            assert((a + b)[i + j] != pat[j]);
        }
    }
}

/// A text without the first character of a pattern is clear of it.
pub proof fn lemma_clear_of_first(s: Seq<char>, pat: Seq<char>)
    requires
        pat.len() > 0,
        forall|i: int| 0 <= i < s.len() ==> #[trigger] s[i] != pat[0],
    ensures
        is_clear_of(s, pat),
{
    assert forall|i: int| 0 <= i < s.len() implies #[trigger] differs_at(s, pat, i) by {
        assert(s[i + 0] != pat[0]);
    }
}

/// Where a text is clear of a pattern, the pattern does not stand.
pub proof fn lemma_clear_no_match(before: Seq<char>, s: Seq<char>, after: Seq<char>, pat: Seq<char>)
    requires
        is_clear_of(s, pat),
    ensures
        forall|i: int|
            before.len() <= i < before.len() + s.len() ==> !matches_at(before + s + after, pat, i),
{
    let t = before + s + after;
    assert forall|i: int| before.len() <= i < before.len() + s.len() implies !matches_at(
        t,
        pat,
        i,
    ) by {
        assert(differs_at(s, pat, i - before.len()));
        let j = choose|j: int|
            0 <= j < pat.len() && (i - before.len()) + j < s.len() && #[trigger] s[(i
                - before.len()) + j] != pat[j];
        if matches_at(t, pat, i) {
            assert(t.subrange(i, i + pat.len())[j] == t[i + j]);
            assert(t[i + j] == s[(i - before.len()) + j]);
        }
    }
}

/// What a search finds: an occurrence with none before it, or that there is none.
pub proof fn lemma_find_meaning(s: Seq<char>, pat: Seq<char>, from: int)
    requires
        0 <= from,
    ensures
        match find_from(s, pat, from) {
            Some(i) => from <= i && matches_at(s, pat, i) && forall|k: int|
                from <= k < i ==> !matches_at(s, pat, k),
            None => forall|k: int| from <= k ==> !matches_at(s, pat, k),
        },
    decreases s.len() - from + 1,
{
    if from + pat.len() <= s.len() && !matches_at(s, pat, from) {
        lemma_find_meaning(s, pat, from + 1);
    }
}

/// The first occurrence is what a search finds.
pub proof fn lemma_find_is(s: Seq<char>, pat: Seq<char>, from: int, i: int)
    requires
        0 <= from <= i,
        matches_at(s, pat, i),
        forall|k: int| from <= k < i ==> !matches_at(s, pat, k),
    ensures
        find_from(s, pat, from) == Some(i),
    decreases i - from,
{
    if from < i {
        lemma_find_is(s, pat, from + 1, i);
    }
}

} // verus!

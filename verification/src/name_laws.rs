//! Laws of file names: their extensions, the names of copies, and what a name says of a
//! sound effect.
use crate::copies::candidate;
use crate::paths::{
    extension_of, is_audio_ext, is_installed, is_wave_name, lower_ext, normalized, stem_of,
};
use crate::record_laws::texts_of;
use crate::text::{decimal, lemma_rfind_one, lower, matches_at, occurs, rfind, trimmed};
use crate::text_laws::{
    is_free_of, law_decimal_stands_for_its_number, law_decimal_tells_numbers_apart,
    law_search_finds_the_last, lemma_no_place, lemma_only_place,
};
use crate::ucs::{after_last, before_first, ucs_of_name, ucs_of_stem};
use vstd::prelude::*;

verus! {

/// The extension of a file name is what follows its last dot, however many dots stand
/// before that one; the stem is what stands before it. In lower case, the letters of
/// the extension are folded and nothing else.
pub proof fn law_extension_follows_the_last_dot(stem: Seq<char>, ext: Seq<char>)
    requires
        stem.len() > 0,
        is_free_of(ext, '.'),
    ensures
        ({
            let name = stem + seq!['.'] + ext;
            &&& stem_of(name) == stem
            &&& extension_of(name) == Some(ext)
            &&& lower_ext(Some(name)) == lower(ext)
        }),
{
    let name = stem + seq!['.'] + ext;
    lemma_only_place(stem, '.', ext);
    assert(name.subrange(0, stem.len() as int) =~= stem);
    assert(name.subrange(stem.len() as int + 1, name.len() as int) =~= ext);
}

/// A file name without a dot has no extension, nor has one whose only dot is its first
/// character; such a name is its own stem. Without a file name there is no extension.
pub proof fn law_name_without_extension(name: Seq<char>)
    requires
        is_free_of(name, '.') || (name[0] == '.' && is_free_of(name.skip(1), '.')),
    ensures
        stem_of(name) == name,
        extension_of(name) is None,
        lower_ext(Some(name)).len() == 0,
        lower_ext(None).len() == 0,
        !is_wave_name(Some(name)),
        !is_wave_name(None),
{
    if is_free_of(name, '.') {
        lemma_no_place(name, '.');
    } else {
        lemma_only_place(Seq::empty(), '.', name.skip(1));
        assert(name =~= Seq::<char>::empty() + seq!['.'] + name.skip(1));
    }
}

/// Every file name is a stem and an extension with a dot between them, or has no
/// extension.
proof fn lemma_name_parts(name: Seq<char>)
    ensures
        match extension_of(name) {
            Some(e) => stem_of(name).len() > 0 && is_free_of(e, '.') && name == stem_of(name) + seq![
                '.',
            ] + e,
            None => is_free_of(name, '.') || (name.len() > 0 && name[0] == '.' && is_free_of(
                name.skip(1),
                '.',
            )),
        },
{
    lemma_rfind_one(name, '.');
    law_search_finds_the_last(name, seq!['.']);
    match rfind(name, seq!['.']) {
        Some(i) => {
            let rest = name.subrange(i + 1, name.len() as int);
            assert forall|k: int| 0 <= k < rest.len() implies #[trigger] rest[k] != '.' by {
                let j = i + 1 + k;
                assert(name.subrange(j, j + seq!['.'].len()) != seq!['.']);
                if name[j] == '.' {
                    assert(name.subrange(j, j + 1) =~= seq!['.']);
                }
            }
            assert(name =~= name.subrange(0, i) + seq!['.'] + rest);
            if i == 0 {
                assert(rest =~= name.skip(1));
            }
        },
        None => {
            assert forall|k: int| 0 <= k < name.len() implies #[trigger] name[k] != '.' by {
                assert(name.subrange(k, k + seq!['.'].len()) != seq!['.']);
                if name[k] == '.' {
                    assert(name.subrange(k, k + 1) =~= seq!['.']);
                }
            }
        },
    }
}

/// The extensions of the files that are indexed are these, and no others.
pub proof fn law_sound_files_have_these_extensions(ext: Seq<char>)
    ensures
        is_audio_ext(ext) <==> seq![
            "wav"@, "wave"@, "mp3"@, "flac"@, "ogg"@, "oga"@, "opus"@, "m4a"@, "mp4"@, "aac"@,
            "aiff"@, "aif"@, "aifc"@, "wma"@, "ape"@, "wv"@, "caf"@, "ac3"@, "amr"@, "mid"@,
            "midi"@,
        ].contains(ext),
{
    let all = seq![
        "wav"@, "wave"@, "mp3"@, "flac"@, "ogg"@, "oga"@, "opus"@, "m4a"@, "mp4"@, "aac"@, "aiff"@,
        "aif"@, "aifc"@, "wma"@, "ape"@, "wv"@, "caf"@, "ac3"@, "amr"@, "mid"@, "midi"@,
    ];
    assert(all.len() == 21);
    assert(all[0] == "wav"@ && all[1] == "wave"@ && all[2] == "mp3"@ && all[3] == "flac"@ && all[4]
        == "ogg"@ && all[5] == "oga"@ && all[6] == "opus"@);
    assert(all[7] == "m4a"@ && all[8] == "mp4"@ && all[9] == "aac"@ && all[10] == "aiff"@ && all[11]
        == "aif"@ && all[12] == "aifc"@ && all[13] == "wma"@);
    assert(all[14] == "ape"@ && all[15] == "wv"@ && all[16] == "caf"@ && all[17] == "ac3"@ && all[18]
        == "amr"@ && all[19] == "mid"@ && all[20] == "midi"@);
}

/// A file is a wave file if its extension, in any case, is `wav` or `wave`.
pub proof fn law_wave_files_are_told_by_their_extension(stem: Seq<char>, ext: Seq<char>)
    requires
        stem.len() > 0,
        is_free_of(ext, '.'),
    ensures
        is_wave_name(Some(stem + seq!['.'] + ext)) <==> lower(ext) == "wav"@ || lower(ext)
            == "wave"@,
{
    law_extension_follows_the_last_dot(stem, ext);
    reveal_strlit("wav");
    reveal_strlit("wave");
    assert(lower("wav"@) =~= "wav"@);
    assert(lower("wave"@) =~= "wave"@);
}

/// A numbered name has the number in brackets between the stem and the extension.
pub proof fn law_number_stands_before_the_extension(stem: Seq<char>, ext: Seq<char>, n: nat)
    requires
        stem.len() > 0,
        is_free_of(ext, '.'),
        2 <= n,
    ensures
        candidate(stem + seq!['.'] + ext, n) == stem + seq![' ', '('] + decimal(n) + seq![')', '.']
            + ext,
{
    law_extension_follows_the_last_dot(stem, ext);
    reveal_strlit(" (");
    reveal_strlit(")");
    reveal_strlit(".");
    assert(candidate(stem + seq!['.'] + ext, n) =~= stem + seq![' ', '('] + decimal(n) + seq![
        ')',
        '.',
    ] + ext);
}

/// A numbered name of a file without an extension ends with the number in brackets.
pub proof fn law_number_ends_a_bare_name(name: Seq<char>, n: nat)
    requires
        is_free_of(name, '.') || (name[0] == '.' && is_free_of(name.skip(1), '.')),
        2 <= n,
    ensures
        candidate(name, n) == name + seq![' ', '('] + decimal(n) + seq![')'],
{
    law_name_without_extension(name);
    reveal_strlit(" (");
    reveal_strlit(")");
    assert(candidate(name, n) =~= name + seq![' ', '('] + decimal(n) + seq![')']);
}

/// A number in brackets holds no dot.
proof fn lemma_number_text(n: nat)
    ensures
        is_free_of(seq![' ', '('] + decimal(n) + seq![')'], '.'),
{
    law_decimal_stands_for_its_number(n);
    let t = seq![' ', '('] + decimal(n) + seq![')'];
    assert forall|i: int| 0 <= i < t.len() implies #[trigger] t[i] != '.' by {
        if 2 <= i < t.len() - 1 {
            assert(t[i] == decimal(n)[i - 2]);
        }
    }
}

/// A copy keeps the extension of the file, whatever its number.
pub proof fn law_copy_keeps_the_extension(name: Seq<char>, n: nat)
    ensures
        extension_of(candidate(name, n)) == extension_of(name),
{
    lemma_name_parts(name);
    lemma_number_text(n);
    if n >= 2 {
        let number = seq![' ', '('] + decimal(n) + seq![')'];
        match extension_of(name) {
            Some(e) => {
                let stem = stem_of(name);
                law_number_stands_before_the_extension(stem, e, n);
                assert(candidate(name, n) =~= (stem + number) + seq!['.'] + e);
                law_extension_follows_the_last_dot(stem + number, e);
            },
            None => {
                law_number_ends_a_bare_name(name, n);
                let c = candidate(name, n);
                assert(c =~= name + number);
                assert forall|i: int| 1 <= i < c.len() implies #[trigger] c[i] != '.' by {
                    if i < name.len() {
                        assert(name[i] == name.skip(1)[i - 1]);
                    } else {
                        assert(c[i] == number[i - name.len()]);
                    }
                }
                assert forall|i: int| 0 <= i < c.skip(1).len() implies #[trigger] c.skip(1)[i]
                    != '.' by {
                    assert(c.skip(1)[i] == c[i + 1]);
                }
                if name.len() == 0 {
                    assert(c[0] == number[0]);
                }
                if c[0] != '.' {
                    assert(is_free_of(c, '.'));
                }
                law_name_without_extension(c);
            },
        }
    }
}

/// Different numbers make different names, and the first name is that of the file.
pub proof fn law_numbers_make_different_names(name: Seq<char>, m: nat, n: nat)
    requires
        1 <= m < n,
    ensures
        candidate(name, m) != candidate(name, n),
        candidate(name, 1) == name,
{
    lemma_name_parts(name);
    law_decimal_stands_for_its_number(n);
    let (head, end) = match extension_of(name) {
        Some(e) => (stem_of(name), seq!['.'] + e),
        None => (name, Seq::empty()),
    };
    assert(name =~= head + end);
    assert forall|k: nat| 2 <= k implies #[trigger] candidate(name, k) == head + seq![' ', '(']
        + decimal(k) + (seq![')'] + end) by {
        match extension_of(name) {
            Some(e) => {
                law_number_stands_before_the_extension(head, e, k);
            },
            None => {
                law_number_ends_a_bare_name(name, k);
            },
        }
        assert(candidate(name, k) =~= head + seq![' ', '('] + decimal(k) + (seq![')'] + end));
    }
    if candidate(name, m) == candidate(name, n) {
        if m < 2 {
            assert(candidate(name, n).len() > name.len());
        } else {
            let a = candidate(name, m);
            let b = candidate(name, n);
            let k = head.len() as int + 2;
            assert(a.len() == head.len() + 2 + decimal(m).len() + 1 + end.len());
            assert(b.len() == head.len() + 2 + decimal(n).len() + 1 + end.len());
            assert(a.subrange(k, k + decimal(m).len()) =~= decimal(m));
            assert(b.subrange(k, k + decimal(n).len()) =~= decimal(n));
            law_decimal_tells_numbers_apart(m, n);
        }
    }
}

/// A file name says what its stem says; without a file name nothing is said.
pub proof fn law_name_says_what_its_stem_says(stem: Seq<char>, ext: Seq<char>)
    ensures
        stem.len() > 0 && is_free_of(ext, '.') ==> ucs_of_name(Some(stem + seq!['.'] + ext))
            == ucs_of_stem(stem),
        is_free_of(stem, '.') ==> ucs_of_name(Some(stem)) == ucs_of_stem(stem),
        forall|i: int| 0 <= i < 10 ==> (#[trigger] texts_of(ucs_of_name(None))[i]).len() == 0,
{
    if stem.len() > 0 && is_free_of(ext, '.') {
        law_extension_follows_the_last_dot(stem, ext);
    }
    if is_free_of(stem, '.') {
        law_name_without_extension(stem);
    }
    lemma_no_place(Seq::empty(), '_');
}

/// A stem without an underscore says nothing.
pub proof fn law_stem_without_underscore_says_nothing(stem: Seq<char>)
    requires
        is_free_of(stem, '_'),
    ensures
        forall|i: int| 0 <= i < 10 ==> (#[trigger] texts_of(ucs_of_stem(stem))[i]).len() == 0,
{
    lemma_no_place(stem, '_');
}

/// A stem starts with the category up to the first underscore. Behind it, up to the
/// next underscore or to the end, stands the name of the effect: what follows the last
/// hyphen, if there is one, without white space at its ends. Nothing else is said.
pub proof fn law_stem_says_category_and_name(
    category: Seq<char>,
    front: Option<Seq<char>>,
    name: Seq<char>,
    rest: Option<Seq<char>>,
)
    requires
        is_free_of(category, '_'),
        is_free_of(name, '_') && is_free_of(name, '-'),
        front matches Some(f) ==> is_free_of(f, '_'),
    ensures
        ({
            let core = match front {
                Some(f) => f + seq!['-'] + name,
                None => name,
            };
            let stem = category + seq!['_'] + core + match rest {
                Some(r) => seq!['_'] + r,
                None => Seq::empty(),
            };
            let none = Seq::<char>::empty();
            texts_of(ucs_of_stem(stem)) == seq![
                category, none, none, none, none, trimmed(name), none, none, none, none,
            ]
        }),
{
    let core = match front {
        Some(f) => f + seq!['-'] + name,
        None => name,
    };
    let end = match rest {
        Some(r) => seq!['_'] + r,
        None => Seq::empty(),
    };
    let stem = category + seq!['_'] + core + end;
    let behind = core + end;
    assert(stem =~= category + seq!['_'] + behind);
    lemma_only_place(category, '_', behind);
    assert(stem.subrange(0, category.len() as int) =~= category);
    assert(stem.subrange(category.len() as int + 1, stem.len() as int) =~= behind);
    assert(is_free_of(core, '_')) by {
        if let Some(f) = front {
            assert forall|i: int| 0 <= i < core.len() implies #[trigger] core[i] != '_' by {
                if i < f.len() {
                    assert(core[i] == f[i]);
                } else if i > f.len() {
                    assert(core[i] == name[i - f.len() - 1]);
                }
            }
        }
    }
    match rest {
        Some(r) => {
            assert(behind =~= core + seq!['_'] + r);
            lemma_only_place(core, '_', r);
            assert(behind.subrange(0, core.len() as int) =~= core);
        },
        None => {
            assert(behind =~= core);
            lemma_no_place(core, '_');
        },
    }
    assert(before_first(behind, '_') == core);
    match front {
        Some(f) => {
            lemma_only_place(f, '-', name);
            assert(core.subrange(f.len() as int + 1, core.len() as int) =~= name);
        },
        None => {
            lemma_no_place(name, '-');
        },
    }
    assert(after_last(core, '-') == name);
}

/// A normalized path has a slash for every backslash, lower case for the capital
/// letters of ASCII, and else the characters of the path.
pub proof fn law_normalized_path(path: Seq<char>)
    ensures
        normalized(path).len() == path.len(),
        forall|i: int|
            0 <= i < path.len() ==> if path[i] == '\\' {
                #[trigger] normalized(path)[i] == '/'
            } else if 65 <= path[i] as int <= 90 {
                normalized(path)[i] as int == path[i] as int + 32
            } else {
                normalized(path)[i] == path[i]
            },
{
}

/// A folder is that of an installed application if it holds an uninstaller; if one of
/// three places stands in its path, in any case and with slashes of either kind; or if
/// it is called like the application, in any case, and its path starts with that of the
/// user's application data. Otherwise it is not.
pub proof fn law_installed_applications(
    path: Seq<char>,
    name: Option<Seq<char>>,
    has_uninstaller: bool,
    local: Option<Seq<char>>,
)
    ensures
        is_installed(path, name, has_uninstaller, local) <==> {
            let text = normalized(path);
            ||| has_uninstaller
            ||| exists|i: int|
                0 <= i <= text.len() - 15 && #[trigger] text.subrange(i, i + 15)
                    == "/program files/"@
            ||| exists|i: int|
                0 <= i <= text.len() - 21 && #[trigger] text.subrange(i, i + 21)
                    == "/program files (x86)/"@
            ||| exists|i: int|
                0 <= i <= text.len() - 24 && #[trigger] text.subrange(i, i + 24)
                    == "/applications/lings.app/"@
            ||| {
                &&& local matches Some(l) && l.len() <= path.len() && normalized(path.take(l.len() as int))
                    == normalized(l)
                &&& name matches Some(n) && lower(n) == "lings"@
            }
        },
{
    let text = normalized(path);
    reveal_strlit("/program files/");
    reveal_strlit("/program files (x86)/");
    reveal_strlit("/applications/lings.app/");
    reveal_strlit("lings");
    assert(lower("lings"@) =~= "lings"@);
    assert("/program files/"@.len() == 15);
    assert("/program files (x86)/"@.len() == 21);
    assert("/applications/lings.app/"@.len() == 24);
    lemma_occurs(text, "/program files/"@);
    lemma_occurs(text, "/program files (x86)/"@);
    lemma_occurs(text, "/applications/lings.app/"@);
    if let Some(l) = local {
        if l.len() <= path.len() {
            assert(text.subrange(0, l.len() as int) =~= normalized(path.take(l.len() as int)));
        }
        assert(matches_at(text, normalized(l), 0) <==> l.len() <= path.len() && normalized(
            path.take(l.len() as int),
        ) == normalized(l));
    }
}

/// A pattern occurs in a text if it is one of the parts of its length.
proof fn lemma_occurs(s: Seq<char>, pat: Seq<char>)
    ensures
        occurs(s, pat) <==> exists|i: int|
            0 <= i <= s.len() - pat.len() && #[trigger] s.subrange(i, i + pat.len()) == pat,
{
    if occurs(s, pat) {
        let i = choose|i: int| matches_at(s, pat, i);
        assert(s.subrange(i, i + pat.len()) == pat);
    }
    if exists|i: int|
        0 <= i <= s.len() - pat.len() && #[trigger] s.subrange(i, i + pat.len()) == pat {
        let i = choose|i: int|
            0 <= i <= s.len() - pat.len() && #[trigger] s.subrange(i, i + pat.len()) == pat;
        assert(matches_at(s, pat, i));
    }
}

} // verus!

//! File paths: their text, their parts and the places that the application looks
//! at.
use crate::text::{
    eq_ignoring_case, eq_text, find, find_last, lemma_find_meaning, lemma_rfind_one, lower,
    lower_char, matches_at, occurs, rfind, same_ignoring_case, stands_at, text_of, to_chars,
    to_lower, to_lower_char, to_text,
};
use std::path::Path;
use vstd::prelude::*;

verus! {

/// A path of the file system.
#[verifier::external_type_specification]
#[verifier::external_body]
pub struct ExPath(std::path::Path);

/// The text that a path holds, with the replacement character for what is not
/// Unicode.
pub uninterp spec fn path_text(path: &std::path::Path) -> Seq<char>;

/// Calls `Path::to_string_lossy`: the text of a path is a function of the path
/// alone.
#[verifier::external_body]
pub fn text_path(p: &Path) -> (text: String)
    ensures
        text@ == path_text(p),
{
    p.to_string_lossy().into_owned()
}

/// A character that separates the parts of a path on some system.
pub open spec fn is_separator(c: char) -> bool {
    c == '/' || c == '\\' || c == ':'
}

/// A part of a path that is a name: it is not empty, `.` or `..`.
pub open spec fn is_part_name(name: Seq<char>) -> bool {
    &&& name.len() > 0
    &&& name != seq!['.']
    &&& name != seq!['.', '.']
}

/// A file name that every system takes for one: no system splits it.
pub open spec fn is_plain_name(name: Seq<char>) -> bool {
    is_part_name(name) && forall|i: int| 0 <= i < name.len() ==> !is_separator(#[trigger] name[i])
}

/// The file name at the end of a path, if its last part is a name.
pub open spec fn name_of_part(part: Seq<char>) -> Option<Seq<char>> {
    if is_part_name(part) {
        Some(part)
    } else {
        None
    }
}

/// A character that splits a path: a slash or, on Windows, a backslash.
pub open spec fn splits(c: char, windows: bool) -> bool {
    c == '/' || (windows && c == '\\')
}

/// A path without what may follow its last part: separators, and dots between
/// them.
pub open spec fn without_end(text: Seq<char>, windows: bool) -> Seq<char>
    decreases text.len(),
{
    if text.len() > 0 && splits(text.last(), windows) {
        without_end(text.drop_last(), windows)
    } else if text.len() > 1 && text.last() == '.' && splits(text[text.len() - 2], windows) {
        without_end(text.drop_last(), windows)
    } else {
        text
    }
}

/// What follows the last separator of a path.
pub open spec fn after_separator(text: Seq<char>, windows: bool) -> Seq<char>
    decreases text.len(),
{
    if text.len() == 0 || splits(text.last(), windows) {
        Seq::empty()
    } else {
        after_separator(text.drop_last(), windows).push(text.last())
    }
}

/// A path without the letter of a drive at its start.
pub open spec fn without_drive(text: Seq<char>) -> Seq<char> {
    if text.len() >= 2 && ('a' <= text[0] <= 'z' || 'A' <= text[0] <= 'Z') && text[1] == ':' {
        text.skip(2)
    } else {
        text
    }
}

/// The last part of a path where only slashes split it.
pub open spec fn unix_part(text: Seq<char>) -> Seq<char> {
    after_separator(without_end(text, false), false)
}

/// The last part of a path where slashes and backslashes split it and it may start
/// with a drive.
pub open spec fn windows_part(text: Seq<char>) -> Seq<char> {
    after_separator(without_end(without_drive(text), true), true)
}

/// A text that starts with two separators, as network paths and paths to devices
/// do.
pub open spec fn is_network_text(text: Seq<char>) -> bool {
    text.len() >= 2 && splits(text[0], true) && splits(text[1], true)
}

/// How many characters stand before the first separator of a path.
pub open spec fn first_separator(text: Seq<char>) -> int
    decreases text.len(),
{
    if text.len() == 0 || splits(text[0], true) {
        0
    } else {
        1 + first_separator(text.drop_first())
    }
}

/// The part of a path before its first separator.
pub open spec fn first_part(text: Seq<char>) -> Seq<char> {
    text.take(first_separator(text))
}

/// The rest of a path behind its first separator.
pub open spec fn behind_first(text: Seq<char>) -> Seq<char> {
    if first_separator(text) < text.len() {
        text.skip(first_separator(text) + 1)
    } else {
        Seq::empty()
    }
}

/// A network path that names a server and a share: what follows its two separators
/// is not one of the marks of other paths, `?` and `.`.
pub open spec fn names_share(text: Seq<char>) -> bool {
    let server = first_part(text.skip(2));
    let share = first_part(behind_first(text.skip(2)));
    &&& is_network_text(text)
    &&& server.len() > 0 && server != seq!['?'] && server != seq!['.']
    &&& share.len() > 0
}

/// A network path from the separator behind the server and the share on: nothing, where
/// it ends with the share.
pub open spec fn share_rest(text: Seq<char>) -> Seq<char> {
    let names = text.skip(2);
    let ahead = first_separator(names) + 1 + first_separator(behind_first(names));
    names.skip(ahead)
}

/// The last part of a network path behind the server and the share.
pub open spec fn share_part(text: Seq<char>) -> Seq<char> {
    after_separator(without_end(share_rest(text), true), true)
}

/// A path with backslashes only that starts with one of the marks of verbatim paths
/// and of devices, `\\?\` and `\\.\`.
pub open spec fn is_marked_text(text: Seq<char>) -> bool {
    &&& text.len() >= 4 && text[0] == '\\' && text[1] == '\\' && text[3] == '\\'
    &&& text[2] == '?' || text[2] == '.'
    &&& forall|i: int| 0 <= i < text.len() ==> #[trigger] text[i] != '/'
}

/// The rest of a marked path behind the name of the drive or the device or, if `UNC`
/// stands first, behind the server and the share.
pub open spec fn behind_mark(text: Seq<char>) -> Seq<char> {
    let rest = text.skip(4);
    if same_ignoring_case(first_part(rest), "UNC"@) {
        behind_first(behind_first(behind_first(rest)))
    } else {
        behind_first(rest)
    }
}

/// `name` can be the file name of `path`. It is part of the path's text. It is the
/// last part of the path, as one or the other system splits it, and there is none where
/// that system finds no part, or the folder above; where every system splits the path
/// alike there is no choice. Of a network path the server and the share are no such
/// part, nor is what follows the mark of a verbatim path or of a device.
pub open spec fn file_name_fits(path: &Path, name: Option<Seq<char>>) -> bool {
    let text = path_text(path);
    let on_unix = name == name_of_part(unix_part(text));
    &&& name matches Some(n) ==> n.len() > 0 && occurs(text, n)
    &&& !is_network_text(text) && is_plain_name(unix_part(text)) ==> on_unix
    &&& !is_network_text(text) && unix_part(text) != seq!['.'] && windows_part(text) != seq!['.']
        ==> on_unix || name == name_of_part(windows_part(text))
    &&& names_share(text) ==> on_unix || name == name_of_part(share_part(text))
    &&& is_marked_text(text) && is_part_name(after_separator(behind_mark(text), true)) ==> name
        == Some(text) || name == Some(after_separator(behind_mark(text), true))
}

/// Calls `Path::file_name`: the final component of the path, if it is a name.
/// Separators at the end of the path, and dots between them, are left off. Which
/// characters separate components depends on the system: slashes, and on Windows
/// backslashes too, where a path may also start with a drive or with a server and a
/// share, or with the mark of a verbatim path or of a device. Of a path that is nothing
/// but a dot or a drive and a dot, of one that starts with two separators and names no
/// server and share, and of one that mixes such a mark with slashes, or ends with it or
/// with a separator behind it, nothing is said but that a name is part of the text.
#[verifier::external_body]
pub(crate) fn file_name(path: &Path) -> (name: Option<String>)
    ensures
        file_name_fits(
            path,
            match name {
                Some(n) => Some(n@),
                None => None,
            },
        ),
{
    path.file_name().map(|n| n.to_string_lossy().into_owned())
}

/// A text that every system splits at its slashes and nowhere else.
pub open spec fn is_plain_text(text: Seq<char>) -> bool {
    &&& !is_network_text(text)
    &&& forall|i: int| 0 <= i < text.len() ==> #[trigger] text[i] != '\\' && text[i] != ':'
}

/// A path without its last part, where `head` stands before `rest`: what separates the
/// parts is left off with it, but a separator at the start of `rest` is a root and
/// stays.
pub open spec fn folder_behind(head: Seq<char>, rest: Seq<char>, windows: bool) -> Seq<char> {
    let whole = without_end(rest, windows);
    let front = whole.take(whole.len() - after_separator(whole, windows).len());
    let folder = without_end(front, windows);
    if folder.len() == 0 && front.len() > 0 {
        head + front.take(1)
    } else {
        head + folder
    }
}

/// A path without its last part, where only slashes split it.
pub open spec fn unix_folder(text: Seq<char>) -> Seq<char> {
    folder_behind(Seq::empty(), text, false)
}

/// A path without its last part, where slashes and backslashes split it and it may
/// start with a drive.
pub open spec fn windows_folder(text: Seq<char>) -> Seq<char> {
    let rest = without_drive(text);
    folder_behind(text.take(text.len() - rest.len()), rest, true)
}

/// A network path without its last part behind the server and the share.
pub open spec fn share_folder(text: Seq<char>) -> Seq<char> {
    let rest = share_rest(text);
    folder_behind(text.take(text.len() - rest.len()), rest, true)
}

/// What follows the mark of a path is the name of a drive or of a device or, behind
/// `UNC` in a verbatim path, of a server and of a share.
pub open spec fn names_mark(text: Seq<char>) -> bool {
    let name = first_part(text.skip(4));
    let behind = behind_first(text.skip(4));
    if same_ignoring_case(name, "UNC"@) {
        &&& text[2] == '?' && name == "UNC"@
        &&& first_part(behind).len() > 0
        &&& first_part(behind_first(behind)).len() > 0
    } else {
        name.len() > 0
    }
}

/// A marked path without its last part, where dots are left off with it as in other
/// paths.
pub open spec fn marked_folder(text: Seq<char>) -> Seq<char> {
    let rest = text.skip(text.len() - behind_mark(text).len() - 1);
    folder_behind(text.take(text.len() - rest.len()), rest, true)
}

/// A text without the backslashes at its end.
pub open spec fn without_backslashes(text: Seq<char>) -> Seq<char>
    decreases text.len(),
{
    if text.len() > 0 && text.last() == '\\' {
        without_backslashes(text.drop_last())
    } else {
        text
    }
}

/// A marked path without its last part, where dots are parts like others.
pub open spec fn verbatim_folder(text: Seq<char>) -> Seq<char> {
    let rest = text.skip(text.len() - behind_mark(text).len() - 1);
    let front = rest.take(rest.len() - after_separator(rest, true).len());
    let folder = without_backslashes(front);
    let head = text.take(text.len() - rest.len());
    if folder.len() == 0 {
        head + front.take(1)
    } else {
        head + folder
    }
}

/// `folder` can be the path without its final component. It is a shorter beginning
/// of the path. It is what one or the other system leaves of the path without its last
/// part: there is one where both find such a part, and none where neither does; where
/// every system splits the path alike there is no choice. Of a network path the server
/// and the share stay, and so does what follows the mark of a verbatim path or of a
/// device.
pub open spec fn folder_fits(path: &Path, folder: Option<&Path>) -> bool {
    let text = path_text(path);
    let on_unix = folder matches Some(f) && path_text(f) == unix_folder(text);
    &&& folder matches Some(f) ==> path_text(f).len() < text.len() && path_text(f) == text.take(
        path_text(f).len() as int,
    )
    &&& is_plain_text(text) && unix_part(text).len() > 0 ==> on_unix
    &&& !is_network_text(text) && unix_part(text).len() == 0 ==> folder is None
    &&& !is_network_text(text) && unix_part(text).len() > 0 ==> on_unix || if windows_part(
        text,
    ).len() > 0 {
        folder matches Some(f) && path_text(f) == windows_folder(text)
    } else {
        folder is None
    }
    &&& names_share(text) && unix_part(text).len() > 0 ==> on_unix || if share_part(text).len() > 0 {
        folder matches Some(f) && path_text(f) == share_folder(text)
    } else {
        folder is None
    }
    &&& is_marked_text(text) && names_mark(text) && is_part_name(
        after_separator(behind_mark(text), true),
    ) ==> on_unix || (folder matches Some(f) && (path_text(f) == marked_folder(text) || path_text(f)
        == verbatim_folder(text)))
}

/// `Path::parent` gives the path without its final component, if there is one. Which
/// characters separate components depends on the system, as it does for
/// `Path::file_name`. Of a path that starts with two separators it is only said that a
/// folder is a shorter beginning of it where it names no server and share, or where the
/// mark of a verbatim path or of a device is mixed with slashes, is not followed by a name
/// or is not followed by a file name at the end.
pub assume_specification[ Path::parent ](path: &Path) -> (folder: Option<&Path>)
    ensures
        folder_fits(path, folder),
;

/// The folder by which it is told whether the library of a listed file is there: the
/// folder of the file itself.
pub fn library_place(path: &Path) -> (folder: Option<&Path>)
    ensures
        folder_fits(path, folder),
{
    path.parent()
}

/// The index of the last dot of a file name, unless it is the first character.
pub open spec fn extension_dot(name: Seq<char>) -> Option<int> {
    match rfind(name, seq!['.']) {
        Some(i) => if i > 0 {
            Some(i)
        } else {
            None
        },
        None => None,
    }
}

/// A file name without its extension.
pub open spec fn stem_of(name: Seq<char>) -> Seq<char> {
    match extension_dot(name) {
        Some(i) => name.subrange(0, i),
        None => name,
    }
}

/// The extension of a file name, without its dot.
pub open spec fn extension_of(name: Seq<char>) -> Option<Seq<char>> {
    match extension_dot(name) {
        Some(i) => Some(name.subrange(i + 1, name.len() as int)),
        None => None,
    }
}

/// The file name without its extension.
pub fn file_stem(name: &str) -> (stem: String)
    ensures
        stem@ == stem_of(name@),
{
    let chars = to_chars(name);
    let dot: Vec<char> = vec!['.'];
    assert(dot@ =~= seq!['.']);
    assert(chars@.subrange(0, chars@.len() as int) =~= name@);
    match find_last(chars.as_slice(), dot.as_slice()) {
        Some(i) => {
            proof {
                lemma_rfind_one(name@, '.');
            }
            if i > 0 {
                to_text(chars.as_slice(), 0, i)
            } else {
                to_text(chars.as_slice(), 0, chars.len())
            }
        },
        None => to_text(chars.as_slice(), 0, chars.len()),
    }
}

/// The extension of the file name, without its dot.
pub fn file_extension(name: &str) -> (ext: Option<String>)
    ensures
        match ext {
            Some(e) => extension_of(name@) == Some(e@),
            None => extension_of(name@) is None,
        },
{
    let chars = to_chars(name);
    let n: usize = chars.len();
    let dot: Vec<char> = vec!['.'];
    assert(dot@ =~= seq!['.']);
    match find_last(chars.as_slice(), dot.as_slice()) {
        Some(i) => {
            proof {
                lemma_rfind_one(name@, '.');
            }
            if i > 0 {
                Some(to_text(chars.as_slice(), i + 1, n))
            } else {
                None
            }
        },
        None => None,
    }
}

/// The extensions of the files that are indexed, in lower case.
pub open spec fn is_audio_ext(ext: Seq<char>) -> bool {
    ||| ext == "wav"@
    ||| ext == "wave"@
    ||| ext == "mp3"@
    ||| ext == "flac"@
    ||| ext == "ogg"@
    ||| ext == "oga"@
    ||| ext == "opus"@
    ||| ext == "m4a"@
    ||| ext == "mp4"@
    ||| ext == "aac"@
    ||| ext == "aiff"@
    ||| ext == "aif"@
    ||| ext == "aifc"@
    ||| ext == "wma"@
    ||| ext == "ape"@
    ||| ext == "wv"@
    ||| ext == "caf"@
    ||| ext == "ac3"@
    ||| ext == "amr"@
    ||| ext == "mid"@
    ||| ext == "midi"@
}

/// The extension of a file name in lower case; empty if there is none.
pub open spec fn lower_ext(name: Option<Seq<char>>) -> Seq<char> {
    match name {
        Some(n) => match extension_of(n) {
            Some(e) => lower(e),
            None => Seq::empty(),
        },
        None => Seq::empty(),
    }
}

/// The extension of a file name in lower case; empty if there is none.
pub fn lower_extension(name: Option<&str>) -> (ext: String)
    ensures
        ext@ == lower_ext(text_of(name)),
{
    match name {
        Some(n) => match file_extension(n) {
            Some(e) => {
                let chars = to_chars(e.as_str());
                let low = to_lower(chars.as_slice());
                assert(low@.subrange(0, low@.len() as int) =~= low@);
                to_text(low.as_slice(), 0, low.len())
            },
            None => String::new(),
        },
        None => String::new(),
    }
}

/// Whether files with this lower-case extension are indexed.
pub fn is_audio_extension(ext: &str) -> (r: bool)
    ensures
        r == is_audio_ext(ext@),
{
    eq_text(ext, "wav")
        || eq_text(ext, "wave")
        || eq_text(ext, "mp3")
        || eq_text(ext, "flac")
        || eq_text(ext, "ogg")
        || eq_text(ext, "oga")
        || eq_text(ext, "opus")
        || eq_text(ext, "m4a")
        || eq_text(ext, "mp4")
        || eq_text(ext, "aac")
        || eq_text(ext, "aiff")
        || eq_text(ext, "aif")
        || eq_text(ext, "aifc")
        || eq_text(ext, "wma")
        || eq_text(ext, "ape")
        || eq_text(ext, "wv")
        || eq_text(ext, "caf")
        || eq_text(ext, "ac3")
        || eq_text(ext, "amr")
        || eq_text(ext, "mid")
        || eq_text(ext, "midi")
}

/// The extension of a wave file, in any case.
pub open spec fn is_wave_name(name: Option<Seq<char>>) -> bool {
    name matches Some(n) && extension_of(n) matches Some(e) && (same_ignoring_case(e, "wav"@)
        || same_ignoring_case(e, "wave"@))
}

/// Whether a file name is that of a wave file, into which iXML can be written.
pub fn is_wave_file(name: Option<&str>) -> (r: bool)
    ensures
        r == is_wave_name(text_of(name)),
{
    match name {
        Some(n) => match file_extension(n) {
            Some(e) => eq_ignoring_case(e.as_str(), "wav") || eq_ignoring_case(e.as_str(), "wave"),
            None => false,
        },
        None => false,
    }
}

/// The name of a library: the file name of its folder, or the whole path.
pub fn library_name(name: Option<&str>, path: &str) -> (r: String)
    ensures
        r@ == (match text_of(name) {
            Some(n) => n,
            None => path@,
        }),
{
    match name {
        Some(n) => n.to_owned(),
        None => path.to_owned(),
    }
}

/// The name of the library in the folder `root`: the file name of the folder, or
/// its whole path.
pub fn library_name_at(root: &Path) -> (r: String)
    ensures
        exists|name: Option<Seq<char>>| #[trigger]
            file_name_fits(root, name) && r@ == (match name {
                Some(n) => n,
                None => path_text(root),
            }),
{
    let text = text_path(root);
    match file_name(root) {
        Some(n) => {
            assert(file_name_fits(root, Some(n@)));
            library_name(Some(n.as_str()), text.as_str())
        },
        None => {
            assert(file_name_fits(root, None));
            library_name(None, text.as_str())
        },
    }
}

/// A slash for a backslash, and else the lower-case form of a character.
pub open spec fn normal_char(c: char) -> char {
    if c == '\\' {
        '/'
    } else {
        lower_char(c)
    }
}

/// A path with slashes only, in lower case.
pub open spec fn normalized(s: Seq<char>) -> Seq<char> {
    s.map_values(|c: char| normal_char(c))
}

/// A place that installers put the application into.
pub open spec fn is_install_place(path: Seq<char>) -> bool {
    ||| occurs(normalized(path), "/program files/"@)
    ||| occurs(normalized(path), "/program files (x86)/"@)
    ||| occurs(normalized(path), "/applications/lings.app/"@)
}

/// A folder is that of an installed application if it holds an uninstaller, if it
/// lies in a place for applications, or if it is called `lings` and its path
/// starts with that of the user's application data.
pub open spec fn is_installed(
    path: Seq<char>,
    name: Option<Seq<char>>,
    has_uninstaller: bool,
    local_app_data: Option<Seq<char>>,
) -> bool {
    ||| has_uninstaller
    ||| is_install_place(path)
    ||| {
        &&& local_app_data matches Some(local)
        &&& matches_at(normalized(path), normalized(local), 0)
        &&& name matches Some(n)
        &&& same_ignoring_case(n, "lings"@)
    }
}

/// Writes a path with slashes only and in lower case.
fn normalize(s: &str) -> (r: Vec<char>)
    ensures
        r@ == normalized(s@),
{
    let v = to_chars(s);
    let mut r: Vec<char> = Vec::new();
    let mut i: usize = 0;
    while i < v.len()
        invariant
            i <= v@.len(),
            v@ == s@,
            r@ == normalized(v@.take(i as int)),
        decreases v@.len() - i,
    {
        if v[i] == '\\' {
            r.push('/');
        } else {
            r.push(to_lower_char(v[i]));
        }
        i += 1;
        assert(r@ =~= normalized(v@.take(i as int)));
    }
    assert(v@.take(i as int) =~= v@);
    r
}

/// Whether `pat` stands somewhere in `s`.
fn contains(s: &[char], pat: &str) -> (r: bool)
    ensures
        r == occurs(s@, pat@),
{
    let p = to_chars(pat);
    proof {
        lemma_find_meaning(s@, pat@, 0);
    }
    find(s, p.as_slice(), 0).is_some()
}

/// Whether a folder with the given path and name is that of an installed
/// application.
pub fn is_installed_at(
    path: &str,
    name: Option<&str>,
    has_uninstaller: bool,
    local_app_data: Option<&str>,
) -> (r: bool)
    ensures
        r == is_installed(path@, text_of(name), has_uninstaller, text_of(local_app_data)),
{
    if has_uninstaller {
        return true;
    }
    let text = normalize(path);
    if contains(text.as_slice(), "/program files/") || contains(
        text.as_slice(),
        "/program files (x86)/",
    ) || contains(text.as_slice(), "/applications/lings.app/") {
        return true;
    }
    match (local_app_data, name) {
        (Some(local), Some(n)) => {
            let local = normalize(local);
            stands_at(text.as_slice(), local.as_slice(), 0) && eq_ignoring_case(n, "lings")
        },
        _ => false,
    }
}

/// Whether a folder is that of an installed application, given whether it holds
/// an uninstaller and the path of the user's application data.
pub fn is_installed_dir(dir: &Path, has_uninstaller: bool, local_app_data: Option<&str>) -> (r: bool)
    ensures
        exists|name: Option<Seq<char>>| #[trigger]
            file_name_fits(dir, name) && r == is_installed(
                path_text(dir),
                name,
                has_uninstaller,
                text_of(local_app_data),
            ),
{
    let text = text_path(dir);
    match file_name(dir) {
        Some(n) => {
            let ghost name = Some(n@);
            assert(file_name_fits(dir, name));
            is_installed_at(text.as_str(), Some(n.as_str()), has_uninstaller, local_app_data)
        },
        None => {
            let ghost name: Option<Seq<char>> = None;
            assert(file_name_fits(dir, name));
            is_installed_at(text.as_str(), None, has_uninstaller, local_app_data)
        },
    }
}

/// The name of the database file.
pub const DB_FILE: &'static str = "lings.db";

/// The folder of the database, next to the application: an installed application
/// and a portable one have different folders.
pub fn db_folder(installed: bool) -> (r: &'static str)
    ensures
        r@ == (if installed {
            "database"@
        } else {
            "Lings_db"@
        }),
{
    if installed {
        "database"
    } else {
        "Lings_db"
    }
}

} // verus!

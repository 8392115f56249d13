//! File paths as text: names, stems, and what an extension says of a file.
//!
//! What a file is called is read off at `/` and at `\`, so that a path written on
//! either kind of system reads the same. Where a file is to stand follows the
//! system: on Windows `\` separates too, and a path may begin with a drive. Shares
//! and devices are split like any other path.

use vstd::prelude::*;

use crate::model::FileKind;
use crate::text::{chars_of, owned, same, string_range};
#[allow(unused_imports)]
use crate::text::{deep, lemma_deep_push, opt};

verus! {

// ---------------------------------------------------------------------------
// Splitting
// ---------------------------------------------------------------------------

/// Whether `c` separates the components of a path.
pub open spec fn is_sep(c: char, windows: bool) -> bool {
    c == '/' || (windows && c == '\\')
}

/// The separator that a system writes.
pub open spec fn main_sep(windows: bool) -> char {
    if windows {
        '\\'
    } else {
        '/'
    }
}

/// Where the last component of `s` begins.
pub open spec fn name_start(s: Seq<char>, windows: bool) -> nat
    decreases s.len(),
{
    if s.len() == 0 || is_sep(s.last(), windows) {
        s.len()
    } else {
        name_start(s.drop_last(), windows)
    }
}

/// What follows the last separator of `s`, of either kind.
pub open spec fn file_name_spec(s: Seq<char>) -> Seq<char> {
    s.skip(name_start(s, true) as int)
}

/// The length of `s` without separators and `.` components at its end.
pub open spec fn path_end(s: Seq<char>, windows: bool) -> nat
    decreases s.len(),
{
    if s.len() > 0 && is_sep(s.last(), windows) {
        path_end(s.drop_last(), windows)
    } else if s.len() >= 2 && s.last() == '.' && is_sep(s[s.len() - 2], windows) {
        path_end(s.drop_last(), windows)
    } else {
        s.len()
    }
}

/// Whether `c` is an ASCII letter.
pub open spec fn is_letter(c: char) -> bool {
    'a' <= c <= 'z' || 'A' <= c <= 'Z'
}

/// How much of a path is its drive.
pub open spec fn drive_len(s: Seq<char>, windows: bool) -> nat {
    if windows && s.len() >= 2 && is_letter(s[0]) && s[1] == ':' {
        2
    } else {
        0
    }
}

/// Where the last dot of `s` stands, or none.
pub open spec fn last_dot(s: Seq<char>) -> Option<nat>
    decreases s.len(),
{
    if s.len() == 0 {
        None
    } else if s.last() == '.' {
        Some((s.len() - 1) as nat)
    } else {
        last_dot(s.drop_last())
    }
}

/// A name without its extension: what stands before the last dot, or all of it
/// where there is no dot but a leading one.
pub open spec fn stem_of(name: Seq<char>) -> Seq<char> {
    match last_dot(name) {
        Some(i) => if i > 0 {
            name.take(i as int)
        } else {
            name
        },
        None => name,
    }
}

/// A path as a directory: with one separator at its end, unless it is empty.
pub open spec fn as_dir(s: Seq<char>, windows: bool) -> Seq<char> {
    let t = s.take(path_end(s, windows) as int);
    if t.len() > 0 {
        t.push(main_sep(windows))
    } else if s.len() > 0 {
        s.take(1)
    } else {
        s
    }
}

/// The directory part of a path without a drive, and the name of the file there.
/// `.` and `..` name no file.
pub open spec fn split_rest(s: Seq<char>, windows: bool) -> (Seq<char>, Option<Seq<char>>) {
    let t = s.take(path_end(s, windows) as int);
    let start = name_start(t, windows) as int;
    let name = t.skip(start);
    if name.len() == 0 || name == seq!['.'] || name == seq!['.', '.'] {
        (as_dir(s, windows), None)
    } else {
        (as_dir(t.take(start), windows), Some(name))
    }
}

/// The directory part of a path, with the separator at its end, and the name of the
/// file there.
pub open spec fn split_path(s: Seq<char>, windows: bool) -> (Seq<char>, Option<Seq<char>>) {
    let drive = drive_len(s, windows) as int;
    let (dir, name) = split_rest(s.skip(drive), windows);
    (s.take(drive) + dir, name)
}

proof fn lemma_name_start_bound(s: Seq<char>, windows: bool)
    ensures
        name_start(s, windows) <= s.len(),
        forall|i: int|
            name_start(s, windows) <= i < s.len() ==> !is_sep(#[trigger] s[i], windows),
        name_start(s, windows) > 0 ==> is_sep(s[name_start(s, windows) - 1], windows),
    decreases s.len(),
{
    if s.len() > 0 && !is_sep(s.last(), windows) {
        let rest = s.drop_last();
        lemma_name_start_bound(rest, windows);
        assert forall|i: int| name_start(s, windows) <= i < s.len() implies !is_sep(
            #[trigger] s[i],
            windows,
        ) by {
            if i < s.len() - 1 {
                assert(s[i] == rest[i]);
            }
        }
    }
}

proof fn lemma_path_end_bound(s: Seq<char>, windows: bool)
    ensures
        path_end(s, windows) <= s.len(),
        path_end(s, windows) < s.len() ==> is_sep(s[path_end(s, windows) as int], windows),
    decreases s.len(),
{
    let end = path_end(s, windows) as int;
    let rest = s.drop_last();
    if s.len() > 0 && is_sep(s.last(), windows) {
        lemma_path_end_bound(rest, windows);
        if end < s.len() - 1 {
            assert(s[end] == rest[end]);
        }
    } else if s.len() >= 2 && s.last() == '.' && is_sep(s[s.len() - 2], windows) {
        lemma_path_end_bound(rest, windows);
        assert(is_sep(rest.last(), windows));
        assert(path_end(rest, windows) == path_end(rest.drop_last(), windows));
        lemma_path_end_bound(rest.drop_last(), windows);
        assert(s[end] == rest[end]);
    }
}

/// A directory is empty or ends with a separator, and is then as the path begins.
proof fn lemma_as_dir_ends(s: Seq<char>, windows: bool)
    ensures
        ({
            let dir = as_dir(s, windows);
            &&& dir.len() == 0 <==> s.len() == 0
            &&& dir.len() > 0 ==> is_sep(dir.last(), windows)
            &&& dir.len() <= s.len() + 1
            &&& forall|i: int| 0 <= i < dir.len() - 1 ==> #[trigger] dir[i] == s[i]
        }),
{
    lemma_path_end_bound(s, windows);
}

proof fn lemma_name_start_of_sum(dir: Seq<char>, name: Seq<char>, windows: bool)
    requires
        dir.len() == 0 || is_sep(dir.last(), windows),
        forall|i: int| 0 <= i < name.len() ==> !is_sep(#[trigger] name[i], windows),
    ensures
        name_start(dir + name, windows) == dir.len(),
    decreases name.len(),
{
    if name.len() > 0 {
        let rest = name.drop_last();
        assert((dir + name).drop_last() =~= dir + rest);
        assert((dir + name).last() == name[name.len() - 1]);
        assert forall|i: int| 0 <= i < rest.len() implies !is_sep(#[trigger] rest[i], windows) by {
            assert(rest[i] == name[i]);
        }
        lemma_name_start_of_sum(dir, rest, windows);
    } else {
        assert(dir + name =~= dir);
    }
}

/// What stands in the directory of a path under a name of its own is split into
/// just these two. The name ends with neither a dot nor a separator, holds no
/// separator, and does not make a drive where the path has none.
pub proof fn lemma_split_of_sibling(s: Seq<char>, name: Seq<char>, windows: bool)
    requires
        name.len() > 0,
        forall|i: int| 0 <= i < name.len() ==> !is_sep(#[trigger] name[i], windows),
        name.last() != '.',
        drive_len(s, windows) == 0 ==> drive_len(split_path(s, windows).0 + name, windows) == 0,
    ensures
        split_path(split_path(s, windows).0 + name, windows).1 == Some(name),
{
    let drive = drive_len(s, windows) as int;
    let rest = s.skip(drive);
    let dir = split_rest(rest, windows).0;
    let t = rest.take(path_end(rest, windows) as int);
    lemma_as_dir_ends(rest, windows);
    lemma_as_dir_ends(t.take(name_start(t, windows) as int), windows);
    let whole = split_path(s, windows).0 + name;
    assert(whole =~= s.take(drive) + (dir + name));
    assert(drive_len(whole, windows) == drive) by {
        if drive == 2 {
            assert(whole[0] == s[0] && whole[1] == s[1]);
        }
    }
    assert(whole.skip(drive) =~= dir + name);
    let w = dir + name;
    assert(w.last() == name[name.len() - 1]);
    assert(path_end(w, windows) == w.len());
    assert(w.take(w.len() as int) =~= w);
    lemma_name_start_of_sum(dir, name, windows);
    assert(w.skip(dir.len() as int) =~= name);
}

/// The name of a file holds no separator.
pub proof fn lemma_name_has_no_separator(s: Seq<char>, windows: bool)
    ensures
        split_path(s, windows).1 matches Some(name) ==> name.len() > 0 && forall|i: int|
            0 <= i < name.len() ==> !is_sep(#[trigger] name[i], windows),
{
    let rest = s.skip(drive_len(s, windows) as int);
    let t = rest.take(path_end(rest, windows) as int);
    lemma_path_end_bound(rest, windows);
    lemma_name_start_bound(t, windows);
}

/// Where a path has no drive, its directory makes none, whatever name follows that
/// begins with the file's own, or with two letters.
pub proof fn lemma_no_drive_appears(s: Seq<char>, name: Seq<char>, windows: bool)
    requires
        drive_len(s, windows) == 0,
        name.len() >= 2,
        name[1] != ':' || (split_path(s, windows).1 matches Some(n) && n.len() >= 2 && n[0]
            == name[0] && n[1] == ':'),
    ensures
        drive_len(split_path(s, windows).0 + name, windows) == 0,
{
    let rest = s.skip(0);
    assert(rest =~= s);
    let end = path_end(s, windows) as int;
    let t = s.take(end);
    let start = name_start(t, windows) as int;
    let dir = split_rest(s, windows).0;
    lemma_path_end_bound(s, windows);
    lemma_name_start_bound(t, windows);
    lemma_as_dir_ends(s, windows);
    lemma_as_dir_ends(t.take(start), windows);
    let whole = split_path(s, windows).0 + name;
    assert(whole =~= dir + name);
    if dir.len() == 1 {
        assert(whole[0] == dir.last());
    } else if dir.len() == 2 {
        assert(whole[1] == dir.last());
    } else if dir.len() > 2 {
        assert(whole[0] == s[0] && whole[1] == s[1]);
    } else if name[1] == ':' {
        assert(whole[0] == name[0] && whole[1] == name[1]);
        assert(start == 0);
        assert(t.skip(0) =~= t);
        assert(s[0] == t[0] && s[1] == t[1]);
    }
}

/// What stands before the last dot, where no dot follows.
pub proof fn lemma_last_dot_of_sum(head: Seq<char>, tail: Seq<char>)
    requires
        !tail.contains('.'),
    ensures
        last_dot(head.push('.') + tail) == Some(head.len()),
    decreases tail.len(),
{
    let whole = head.push('.') + tail;
    if tail.len() > 0 {
        let rest = tail.drop_last();
        assert(whole.drop_last() =~= head.push('.') + rest);
        assert(tail.contains(tail[tail.len() - 1]));
        assert(whole.last() == tail[tail.len() - 1]);
        assert(!rest.contains('.')) by {
            if rest.contains('.') {
                let i = choose|i: int| 0 <= i < rest.len() && rest[i] == '.';
                assert(tail[i] == '.');
            }
        }
        lemma_last_dot_of_sum(head, rest);
    } else {
        assert(whole.last() == '.');
    }
}

proof fn lemma_last_dot_bound(s: Seq<char>)
    ensures
        last_dot(s) matches Some(i) ==> i < s.len() && s[i as int] == '.',
    decreases s.len(),
{
    if s.len() > 0 && s.last() != '.' {
        lemma_last_dot_bound(s.drop_last());
    }
}

/// A name is its stem, or its stem and what begins with a dot.
pub proof fn lemma_stem_parts(name: Seq<char>)
    ensures
        stem_of(name).len() <= name.len(),
        name.len() > 0 ==> stem_of(name).len() > 0,
        stem_of(name) == name.take(stem_of(name).len() as int),
        stem_of(name).len() < name.len() ==> name[stem_of(name).len() as int] == '.',
{
    lemma_last_dot_bound(name);
    assert(name.take(name.len() as int) =~= name);
}

fn separates(c: char, windows: bool) -> (r: bool)
    ensures
        r == is_sep(c, windows),
{
    c == '/' || (windows && c == '\\')
}

fn find_name_start(chars: &Vec<char>, end: usize, windows: bool) -> (r: usize)
    requires
        end <= chars@.len(),
    ensures
        r <= end,
        r == name_start(chars@.take(end as int), windows),
{
    let mut i: usize = end;
    while i > 0 && !separates(chars[i - 1], windows)
        invariant
            i <= end <= chars@.len(),
            name_start(chars@.take(end as int), windows) == name_start(
                chars@.take(i as int),
                windows,
            ),
        decreases i,
    {
        assert(chars@.take(i as int).drop_last() =~= chars@.take(i - 1));
        i = i - 1;
    }
    i
}

fn find_path_end(chars: &Vec<char>, end: usize, windows: bool) -> (r: usize)
    requires
        end <= chars@.len(),
    ensures
        r <= end,
        r == path_end(chars@.take(end as int), windows),
{
    let mut i: usize = end;
    loop
        invariant
            i <= end <= chars@.len(),
            path_end(chars@.take(end as int), windows) == path_end(
                chars@.take(i as int),
                windows,
            ),
        decreases i,
    {
        assert(i > 0 ==> chars@.take(i as int).drop_last() =~= chars@.take(i - 1));
        let trailing: bool = i > 0 && separates(chars[i - 1], windows);
        let current: bool = i >= 2 && chars[i - 1] == '.' && separates(chars[i - 2], windows);
        if !trailing && !current {
            return i;
        }
        i = i - 1;
    }
}

/// What stands before a place, as a directory.
fn directory(chars: &Vec<char>, end: usize, windows: bool) -> (r: String)
    requires
        end <= chars@.len(),
    ensures
        r@ == as_dir(chars@.take(end as int), windows),
{
    let ghost s = chars@.take(end as int);
    let kept: usize = find_path_end(chars, end, windows);
    let mut dir: String = string_range(chars, 0, kept);
    assert(dir@ =~= s.take(kept as int));
    if kept > 0 {
        dir.push(if windows {
            '\\'
        } else {
            '/'
        });
    } else if end > 0 {
        dir = string_range(chars, 0, 1);
        assert(dir@ =~= s.take(1));
    }
    assert(dir@ =~= as_dir(s, windows));
    dir
}

fn find_last_dot(chars: &Vec<char>) -> (r: Option<usize>)
    ensures
        match r {
            Some(i) => last_dot(chars@) == Some(i as nat) && i < chars@.len(),
            None => last_dot(chars@) is None,
        },
{
    let mut i: usize = chars.len();
    assert(chars@.take(i as int) =~= chars@);
    while i > 0
        invariant
            i <= chars@.len(),
            last_dot(chars@) == last_dot(chars@.take(i as int)),
        decreases i,
    {
        assert(chars@.take(i as int).drop_last() =~= chars@.take(i - 1));
        if chars[i - 1] == '.' {
            return Some(i - 1);
        }
        i = i - 1;
    }
    None
}

/// What follows the last separator of `path`.
pub fn file_name(path: &str) -> (r: String)
    ensures
        r@ == file_name_spec(path@),
{
    let chars: Vec<char> = chars_of(path);
    let start: usize = find_name_start(&chars, chars.len(), true);
    assert(chars@.take(chars@.len() as int) =~= path@);
    let r: String = string_range(&chars, start, chars.len());
    assert(r@ =~= file_name_spec(path@));
    r
}

/// A name without its extension.
pub fn stem(name: &str) -> (r: String)
    ensures
        r@ == stem_of(name@),
{
    let chars: Vec<char> = chars_of(name);
    match find_last_dot(&chars) {
        Some(i) => {
            if i > 0 {
                let r: String = string_range(&chars, 0, i);
                assert(r@ =~= stem_of(name@));
                return r;
            }
        },
        None => {},
    }
    owned(name)
}

/// The directory part of a path without a drive, and the name of the file there.
fn split_body(path: &str, windows: bool) -> (r: (String, Option<String>))
    ensures
        (r.0@, opt(r.1)) == split_rest(path@, windows),
{
    let chars: Vec<char> = chars_of(path);
    assert(chars@.take(chars@.len() as int) =~= path@);
    let end: usize = find_path_end(&chars, chars.len(), windows);
    let start: usize = find_name_start(&chars, end, windows);
    let name: String = string_range(&chars, start, end);
    let ghost t = path@.take(end as int);
    assert(name@ =~= t.skip(start as int));
    proof {
        reveal_strlit(".");
        reveal_strlit("..");
        assert("."@ =~= seq!['.']);
        assert(".."@ =~= seq!['.', '.']);
    }
    if name.as_str().is_empty() || same(name.as_str(), ".") || same(name.as_str(), "..") {
        (directory(&chars, chars.len(), windows), None)
    } else {
        assert(chars@.take(start as int) =~= t.take(start as int));
        (directory(&chars, start, windows), Some(name))
    }
}

/// The directory part of a path, with the separator at its end, and the name of the
/// file there.
pub fn split(path: &str, windows: bool) -> (r: (String, Option<String>))
    ensures
        (r.0@, opt(r.1)) == split_path(path@, windows),
{
    let chars: Vec<char> = chars_of(path);
    let drive: usize = if windows && chars.len() >= 2 && ('a' <= chars[0] && chars[0] <= 'z'
        || 'A' <= chars[0] && chars[0] <= 'Z') && chars[1] == ':' {
        2
    } else {
        0
    };
    let rest: String = string_range(&chars, drive, chars.len());
    assert(rest@ =~= path@.skip(drive as int));
    let (dir, name): (String, Option<String>) = split_body(rest.as_str(), windows);
    let mut whole: String = string_range(&chars, 0, drive);
    assert(whole@ =~= path@.take(drive as int));
    whole.append(dir.as_str());
    (whole, name)
}

// ---------------------------------------------------------------------------
// What an extension says
// ---------------------------------------------------------------------------

/// The lowercase form of a text, by Unicode's rules.
pub uninterp spec fn lowercase(s: Seq<char>) -> Seq<char>;

/// Whether every character is one of the first 128.
pub open spec fn all_ascii(s: Seq<char>) -> bool {
    forall|i: int| 0 <= i < s.len() ==> (#[trigger] s[i]) as int <= 127
}

/// A Latin capital as its small letter; any other of the first 128 as it is.
pub open spec fn ascii_lower(c: char) -> char {
    if 'A' <= c <= 'Z' {
        (c as int + 32) as char
    } else {
        c
    }
}

/// `str::to_lowercase`: the result depends on the text alone, and on text of
/// the first 128 characters it makes each Latin capital small and keeps the
/// rest.
pub assume_specification[ str::to_lowercase ](string: &str) -> (lowered: String)
    ensures
        lowered@ == lowercase(string@),
        all_ascii(string@) ==> lowered@ == string@.map_values(|c: char| ascii_lower(c)),
;

/// What follows the last dot of a text, or all of it where there is none.
pub open spec fn after_last_dot(s: Seq<char>) -> Seq<char> {
    match last_dot(s) {
        Some(i) => s.skip((i + 1) as int),
        None => s,
    }
}

/// What a file is, going by its extension in lowercase.
pub open spec fn kind_of_extension(ext: Seq<char>) -> FileKind {
    if ext == "srt"@ || ext == "vtt"@ || ext == "ass"@ {
        FileKind::Subtitle
    } else if ext == "jpg"@ || ext == "jpeg"@ || ext == "png"@ || ext == "webp"@ {
        FileKind::Thumbnail
    } else if ext == "json"@ {
        FileKind::Info
    } else if ext == "m4a"@ || ext == "mp3"@ || ext == "opus"@ || ext == "ogg"@ || ext == "flac"@
        || ext == "wav"@ {
        FileKind::Audio
    } else {
        FileKind::Video
    }
}

/// What a file is, going by a path that is in lowercase already.
pub fn classify_lower(lower: &str) -> (r: FileKind)
    ensures
        r == kind_of_extension(after_last_dot(lower@)),
{
    let chars: Vec<char> = chars_of(lower);
    let len: usize = chars.len();
    let ext: String = match find_last_dot(&chars) {
        Some(i) => string_range(&chars, i + 1, len),
        None => owned(lower),
    };
    assert(ext@ =~= after_last_dot(lower@));
    let e: &str = ext.as_str();
    if same(e, "srt") || same(e, "vtt") || same(e, "ass") {
        FileKind::Subtitle
    } else if same(e, "jpg") || same(e, "jpeg") || same(e, "png") || same(e, "webp") {
        FileKind::Thumbnail
    } else if same(e, "json") {
        FileKind::Info
    } else if same(e, "m4a") || same(e, "mp3") || same(e, "opus") || same(e, "ogg") || same(
        e,
        "flac",
    ) || same(e, "wav") {
        FileKind::Audio
    } else {
        FileKind::Video
    }
}

/// What a file is, going by its extension in any case.
pub fn classify(path: &str) -> (r: FileKind)
    ensures
        r == kind_of_extension(after_last_dot(lowercase(path@))),
{
    let lower: String = path.to_lowercase();
    classify_lower(lower.as_str())
}

// ---------------------------------------------------------------------------
// Covers
// ---------------------------------------------------------------------------

/// The extensions a cover may have, the preferred one first. webp comes last:
/// it is what is left where a conversion did not happen.
pub open spec fn cover_extensions() -> Seq<Seq<char>> {
    seq!["png"@, "jpg"@, "jpeg"@, "webp"@]
}

/// The paths at which the cover of a media file may stand, in order.
pub open spec fn cover_paths(media: Seq<char>, windows: bool) -> Seq<Seq<char>> {
    let (dir, name) = split_path(media, windows);
    match name {
        Some(n) => Seq::new(4, |i: int| dir + stem_of(n) + "."@ + cover_extensions()[i]),
        None => Seq::<Seq<char>>::empty(),
    }
}

fn cover_path(dir: &str, stem: &str, ext: &str) -> (r: String)
    ensures
        r@ == dir@ + stem@ + "."@ + ext@,
{
    let mut out: String = owned(dir);
    out.append(stem);
    out.append(".");
    out.append(ext);
    out
}

/// The paths at which the cover of a media file may stand, in order: beside it,
/// under its stem.
pub fn cover_candidates(media: &str, windows: bool) -> (r: Vec<String>)
    ensures
        deep(r@) == cover_paths(media@, windows),
{
    broadcast use lemma_deep_push;

    let mut out: Vec<String> = Vec::new();
    let (dir, name): (String, Option<String>) = split(media, windows);
    match name {
        Some(n) => {
            let st: String = stem(n.as_str());
            out.push(cover_path(dir.as_str(), st.as_str(), "png"));
            out.push(cover_path(dir.as_str(), st.as_str(), "jpg"));
            out.push(cover_path(dir.as_str(), st.as_str(), "jpeg"));
            out.push(cover_path(dir.as_str(), st.as_str(), "webp"));
        },
        None => {},
    }
    assert(deep(out@) =~= cover_paths(media@, windows));
    out
}

/// The first of the candidate paths at which a file stands.
pub open spec fn first_file(paths: Seq<Seq<char>>, is_file: Seq<bool>) -> Option<Seq<char>>
    decreases paths.len(),
{
    if paths.len() == 0 || is_file.len() == 0 {
        None
    } else if is_file[0] {
        Some(paths[0])
    } else {
        first_file(paths.skip(1), is_file.skip(1))
    }
}

/// The cover beside a media file: the first of its candidates that is a file.
/// `is_file` says of each candidate whether it is one.
pub fn sibling_thumbnail(candidates: &Vec<String>, is_file: &Vec<bool>) -> (r: Option<String>)
    ensures
        opt(r) == first_file(deep(candidates@), is_file@),
{
    let mut i: usize = 0;
    let ghost p = deep(candidates@);
    assert(p.skip(0) =~= p);
    assert(is_file@.skip(0) =~= is_file@);
    while i < candidates.len() && i < is_file.len()
        invariant
            i <= candidates@.len(),
            i <= is_file@.len(),
            p == deep(candidates@),
            first_file(p, is_file@) == first_file(p.skip(i as int), is_file@.skip(i as int)),
        decreases candidates@.len() - i,
    {
        assert(p.skip(i as int)[0] == candidates@[i as int]@);
        assert(is_file@.skip(i as int)[0] == is_file@[i as int]);
        if is_file[i] {
            return Some(candidates[i].clone());
        }
        assert(p.skip(i as int).skip(1) =~= p.skip(i + 1));
        assert(is_file@.skip(i as int).skip(1) =~= is_file@.skip(i + 1));
        i = i + 1;
    }
    None
}

proof fn lemma_cover_tail(i: int)
    requires
        0 <= i < 4,
    ensures
        ({
            let e = cover_extensions()[i];
            &&& e.len() == (if i < 2 {
                3nat
            } else {
                4nat
            })
            &&& e.last() == (if i < 3 {
                'g'
            } else {
                'p'
            })
            &&& e[e.len() - 2] == (if i == 0 {
                'n'
            } else if i == 1 {
                'p'
            } else if i == 2 {
                'e'
            } else {
                'b'
            })
        }),
{
    reveal_strlit("png");
    reveal_strlit("jpg");
    reveal_strlit("jpeg");
    reveal_strlit("webp");
}

/// A video does not borrow the cover of another in its folder: two media files
/// of one directory that have a candidate in common have one stem.
pub proof fn lemma_covers_are_not_shared(
    dir: Seq<char>,
    stem1: Seq<char>,
    stem2: Seq<char>,
    i: int,
    j: int,
)
    requires
        0 <= i < 4,
        0 <= j < 4,
        dir + stem1 + "."@ + cover_extensions()[i] == dir + stem2 + "."@ + cover_extensions()[j],
    ensures
        i == j,
        stem1 == stem2,
{
    let a = dir + stem1 + "."@ + cover_extensions()[i];
    let b = dir + stem2 + "."@ + cover_extensions()[j];
    lemma_cover_tail(i);
    lemma_cover_tail(j);
    reveal_strlit(".");
    assert(a.last() == cover_extensions()[i].last());
    assert(b.last() == cover_extensions()[j].last());
    assert(a[a.len() - 2] == cover_extensions()[i][cover_extensions()[i].len() - 2]);
    assert(b[b.len() - 2] == cover_extensions()[j][cover_extensions()[j].len() - 2]);
    assert(i == j);
    let k = dir.len() as int;
    assert(stem1.len() == stem2.len());
    assert(stem1 =~= a.subrange(k, k + stem1.len()));
    assert(stem2 =~= b.subrange(k, k + stem2.len()));
}

// ---------------------------------------------------------------------------
// Revealing a file
// ---------------------------------------------------------------------------

/// A path with every `/` as a `\`.
pub open spec fn native(path: Seq<char>) -> Seq<char> {
    path.map_values(
        |c: char|
            if c == '/' {
                '\\'
            } else {
                c
            },
    )
}

/// The argument that makes the file manager select `path`. Only the path is
/// quoted: the file manager does not recognise a quoted flag.
pub fn select_arg(path: &str) -> (r: String)
    ensures
        r@ == "/select,\""@ + native(path@) + "\""@,
{
    let chars: Vec<char> = chars_of(path);
    let mut out: String = owned("/select,\"");
    let mut i: usize = 0;
    assert(native(path@).take(0) =~= Seq::<char>::empty());
    while i < chars.len()
        invariant
            i <= chars@.len(),
            chars@ == path@,
            out@ == "/select,\""@ + native(path@).take(i as int),
        decreases chars@.len() - i,
    {
        let c: char = if chars[i] == '/' {
            '\\'
        } else {
            chars[i]
        };
        out.push(c);
        i = i + 1;
        assert(native(path@).take(i as int) =~= native(path@).take(i - 1).push(c));
        assert(out@ =~= "/select,\""@ + native(path@).take(i as int));
    }
    assert(native(path@).take(i as int) =~= native(path@));
    out.append("\"");
    out
}

// ---------------------------------------------------------------------------
// What the parts of a path are
// ---------------------------------------------------------------------------

/// A file is called by what follows the last separator, of either kind.
pub proof fn lemma_file_is_called_by_its_last_part(dir: Seq<char>, sep: char, name: Seq<char>)
    requires
        !name.contains('/'),
        !name.contains('\\'),
    ensures
        file_name_spec(name) == name,
        sep == '/' || sep == '\\' ==> file_name_spec(dir + seq![sep] + name) == name,
{
    assert forall|i: int| 0 <= i < name.len() implies !is_sep(#[trigger] name[i], true) by {
        assert(name.contains(name[i]));
    }
    let e = Seq::<char>::empty();
    lemma_name_start_of_sum(e, name, true);
    assert(e + name =~= name);
    assert(file_name_spec(name) =~= name);
    if sep == '/' || sep == '\\' {
        lemma_name_start_of_sum(dir + seq![sep], name, true);
        assert(file_name_spec(dir + seq![sep] + name) =~= name);
    }
}

/// A name's stem is what stands before its last dot. A name without a dot, or with none
/// but at its beginning, is its own stem.
pub proof fn lemma_stem_stands_before_the_last_dot(stem: Seq<char>, ext: Seq<char>)
    requires
        !ext.contains('.'),
    ensures
        stem.len() > 0 ==> stem_of(stem.push('.') + ext) == stem,
        stem_of(ext) == ext,
        stem_of(seq!['.'] + ext) == seq!['.'] + ext,
        after_last_dot(stem.push('.') + ext) == ext,
        after_last_dot(ext) == ext,
{
    lemma_last_dot_of_sum(stem, ext);
    let e = Seq::<char>::empty();
    lemma_last_dot_of_sum(e, ext);
    assert(e.push('.') + ext =~= seq!['.'] + ext);
    assert((stem.push('.') + ext).take(stem.len() as int) =~= stem);
    assert((stem.push('.') + ext).skip((stem.len() + 1) as int) =~= ext);
    lemma_last_dot_bound(ext);
    if last_dot(ext) is Some {
        assert(ext.contains(ext[last_dot(ext)->0 as int]));
    }
}

/// What a file is follows from what stands behind the last dot of its path: subtitles,
/// pictures, metadata and sound each have their extensions, and all else is video.
pub proof fn lemma_extension_tells_the_kind(head: Seq<char>, ext: Seq<char>)
    requires
        !ext.contains('.'),
    ensures
        ({
            let kind = kind_of_extension(after_last_dot(head.push('.') + ext));
            &&& kind is Subtitle <==> ext == "srt"@ || ext == "vtt"@ || ext == "ass"@
            &&& kind is Thumbnail <==> ext == "jpg"@ || ext == "jpeg"@ || ext == "png"@ || ext
                == "webp"@
            &&& kind is Info <==> ext == "json"@
            &&& kind is Audio <==> ext == "m4a"@ || ext == "mp3"@ || ext == "opus"@ || ext
                == "ogg"@ || ext == "flac"@ || ext == "wav"@
            &&& ext == "mp4"@ || ext == "mkv"@ || ext == "webm"@ ==> kind is Video
        }),
{
    lemma_stem_stands_before_the_last_dot(head, ext);
    reveal_strlit("srt");
    reveal_strlit("vtt");
    reveal_strlit("ass");
    reveal_strlit("jpg");
    reveal_strlit("jpeg");
    reveal_strlit("png");
    reveal_strlit("webp");
    reveal_strlit("json");
    reveal_strlit("m4a");
    reveal_strlit("mp3");
    reveal_strlit("opus");
    reveal_strlit("ogg");
    reveal_strlit("flac");
    reveal_strlit("wav");
    reveal_strlit("mp4");
    reveal_strlit("mkv");
    reveal_strlit("webm");
    assert(ext.len() == 3 ==> {
        &&& ext == "m4a"@ ==> ext[0] == 'm' && ext[1] == '4'
        &&& ext == "mp3"@ ==> ext[0] == 'm' && ext[2] == '3'
        &&& ext == "ogg"@ ==> ext[0] == 'o'
        &&& ext == "wav"@ ==> ext[0] == 'w'
        &&& ext == "mp4"@ ==> ext[0] == 'm' && ext[2] == '4' && ext[1] == 'p'
        &&& ext == "mkv"@ ==> ext[0] == 'm' && ext[1] == 'k'
        &&& ext == "srt"@ ==> ext[0] == 's'
        &&& ext == "vtt"@ ==> ext[0] == 'v'
        &&& ext == "ass"@ ==> ext[0] == 'a'
        &&& ext == "jpg"@ ==> ext[0] == 'j'
        &&& ext == "png"@ ==> ext[0] == 'p'
    });
    assert(ext.len() == 4 ==> {
        &&& ext == "jpeg"@ ==> ext[0] == 'j' && ext[1] == 'p'
        &&& ext == "json"@ ==> ext[0] == 'j' && ext[1] == 's'
        &&& ext == "webp"@ ==> ext[0] == 'w' && ext[3] == 'p'
        &&& ext == "webm"@ ==> ext[0] == 'w' && ext[3] == 'm'
        &&& ext == "opus"@ ==> ext[0] == 'o'
        &&& ext == "flac"@ ==> ext[0] == 'f'
    });
}

/// A path is split at the last separator: what stands before it, with it, is the
/// directory, and what follows is the file's name. A drive belongs to the directory.
pub proof fn lemma_path_is_split_at_the_last_separator(
    dir: Seq<char>,
    name: Seq<char>,
    windows: bool,
    drive: char,
)
    requires
        name.len() > 0,
        name != seq!['.'],
        name != seq!['.', '.'],
        forall|i: int| 0 <= i < name.len() ==> !is_sep(#[trigger] name[i], windows),
        dir.len() > 0 ==> !is_sep(dir.last(), windows),
        dir.len() >= 2 ==> !(dir.last() == '.' && is_sep(dir[dir.len() - 2], windows)),
        is_letter(drive),
    ensures
        ({
            let sep = seq![main_sep(windows)];
            let whole = dir + sep + name;
            &&& !windows || whole.len() < 2 || whole[1] != ':' ==> split_path(whole, windows) == (
                dir + sep,
                Some(name),
            )
            &&& !windows || name.len() < 2 || name[1] != ':' ==> split_path(name, windows) == (
                Seq::<char>::empty(),
                Some(name),
            )
            &&& windows ==> split_path(seq![drive, ':'] + whole, windows) == (
                seq![drive, ':'] + (dir + sep),
                Some(name),
            )
        }),
{
    let sep = seq![main_sep(windows)];
    let whole = dir + sep + name;
    let e = Seq::<char>::empty();
    lemma_split_rest_at(dir + sep, name, windows);
    lemma_split_rest_at(e, name, windows);
    assert(e + name =~= name);
    assert(as_dir(e, windows) =~= e);
    let d = dir + sep;
    assert(d.drop_last() =~= dir);
    assert(path_end(dir, windows) == dir.len());
    assert(path_end(d, windows) == dir.len());
    assert(as_dir(d, windows) =~= d);
    assert(split_rest(whole, windows) == (d, Some(name)));
    assert(whole.skip(0) =~= whole);
    assert(whole.take(0) + d =~= d);
    assert(name.skip(0) =~= name);
    assert(name.take(0) + e =~= e);
    let full = seq![drive, ':'] + whole;
    assert(full.skip(2) =~= whole);
    assert(full.take(2) =~= seq![drive, ':']);
}

proof fn lemma_split_rest_at(dir: Seq<char>, name: Seq<char>, windows: bool)
    requires
        name.len() > 0,
        name != seq!['.'],
        name != seq!['.', '.'],
        forall|i: int| 0 <= i < name.len() ==> !is_sep(#[trigger] name[i], windows),
        dir.len() == 0 || is_sep(dir.last(), windows),
    ensures
        split_rest(dir + name, windows) == (as_dir(dir, windows), Some(name)),
{
    let s = dir + name;
    assert(s.last() == name.last());
    if name.len() == 1 {
        assert(name[0] != '.') by {
            if name[0] == '.' {
                assert(name =~= seq!['.']);
            }
        }
    } else {
        assert(s[s.len() - 2] == name[name.len() - 2]);
    }
    assert(path_end(s, windows) == s.len());
    assert(s.take(s.len() as int) =~= s);
    lemma_name_start_of_sum(dir, name, windows);
    assert(s.skip(dir.len() as int) =~= name);
    assert(s.take(dir.len() as int) =~= dir);
}

/// The cover of a media file stands beside it, under its stem: as png, else jpg, else
/// jpeg, else webp. What names no file has none.
pub proof fn lemma_covers_stand_beside_the_file(media: Seq<char>, windows: bool)
    ensures
        ({
            let (dir, name) = split_path(media, windows);
            &&& name is None ==> cover_paths(media, windows).len() == 0
            &&& name is Some ==> cover_paths(media, windows) == seq![
                dir + stem_of(name->0) + "."@ + "png"@,
                dir + stem_of(name->0) + "."@ + "jpg"@,
                dir + stem_of(name->0) + "."@ + "jpeg"@,
                dir + stem_of(name->0) + "."@ + "webp"@,
            ]
        }),
{
    let (dir, name) = split_path(media, windows);
    if name is Some {
        assert(cover_paths(media, windows) =~= seq![
            dir + stem_of(name->0) + "."@ + "png"@,
            dir + stem_of(name->0) + "."@ + "jpg"@,
            dir + stem_of(name->0) + "."@ + "jpeg"@,
            dir + stem_of(name->0) + "."@ + "webp"@,
        ]);
    }
}

/// Of the candidates the first one at which a file stands is taken.
pub proof fn lemma_first_candidate_is_taken(paths: Seq<Seq<char>>, is_file: Seq<bool>, m: int)
    requires
        paths.len() == is_file.len(),
    ensures
        0 <= m < paths.len() && is_file[m] && (forall|i: int| 0 <= i < m ==> !#[trigger] is_file[i])
            ==> first_file(paths, is_file) == Some(paths[m]),
        (forall|i: int| 0 <= i < paths.len() ==> !#[trigger] is_file[i]) ==> first_file(
            paths,
            is_file,
        ) is None,
    decreases paths.len(),
{
    if paths.len() > 0 {
        let rest = is_file.skip(1);
        lemma_first_candidate_is_taken(paths.skip(1), rest, m - 1);
        assert forall|i: int| 0 <= i < rest.len() implies rest[i] == is_file[i + 1] by {}
    }
}

/// A path for the file manager has a `\` wherever there was a `/`, and is otherwise the
/// same.
pub proof fn lemma_native_path_has_backslashes(path: Seq<char>)
    ensures
        native(path).len() == path.len(),
        forall|i: int|
            0 <= i < path.len() ==> #[trigger] native(path)[i] == (if path[i] == '/' {
                '\\'
            } else {
                path[i]
            }),
{
}

/// `..` names no file, nor does a path of nothing but separators or of none; and what ends
/// in a separator, or in one and a dot, is split as if it did not.
pub proof fn lemma_dots_and_separators_name_no_file(dir: Seq<char>, s: Seq<char>)
    requires
        dir.len() == 0 || dir.last() == '/',
    ensures
        split_path(dir + seq!['.', '.'], false).1 is None,
        split_path(Seq::<char>::empty(), false) == (Seq::<char>::empty(), None::<Seq<char>>),
        split_path(seq!['/'], false) == (seq!['/'], None::<Seq<char>>),
        split_path(seq!['.'], false).1 is None,
        s.len() > 0 ==> split_path(s.push('/'), false) == split_path(s, false),
        s.len() > 0 ==> split_path(s.push('/').push('.'), false) == split_path(s, false),
{
    let e = Seq::<char>::empty();
    let up = dir + seq!['.', '.'];
    assert(up[up.len() - 2] == '.');
    assert(path_end(up, false) == up.len());
    assert(up.take(up.len() as int) =~= up);
    lemma_name_start_of_sum(dir, seq!['.', '.'], false);
    assert(up.skip(dir.len() as int) =~= seq!['.', '.']);
    assert(up.skip(0) =~= up);
    assert(e.skip(0) =~= e);
    assert(e.take(0) =~= e);
    assert(as_dir(e, false) =~= e);
    assert(split_path(e, false).0 =~= e);
    let root = seq!['/'];
    assert(root.drop_last() =~= e);
    assert(path_end(root, false) == 0) by {
        assert(path_end(e, false) == 0);
    }
    assert(root.take(0) =~= e);
    assert(root.skip(0) =~= root);
    assert(as_dir(root, false) =~= root);
    assert(e.skip(name_start(e, false) as int) =~= e);
    assert(split_path(root, false).0 =~= root);
    let dot = seq!['.'];
    assert(path_end(dot, false) == 1);
    assert(dot.take(1) =~= dot);
    assert(dot.skip(0) =~= dot);
    assert(dot.drop_last() =~= e);
    assert(name_start(dot, false) == 0) by {
        assert(name_start(e, false) == 0);
    }
    if s.len() > 0 {
        lemma_path_end_bound(s, false);
        let (a, b) = (s.push('/'), s.push('/').push('.'));
        assert(a.drop_last() =~= s);
        assert(b.drop_last() =~= a);
        assert(b[b.len() - 2] == '/');
        assert(path_end(a, false) == path_end(s, false));
        assert(path_end(b, false) == path_end(a, false));
        let n = path_end(s, false) as int;
        assert(a.take(n) =~= s.take(n));
        assert(b.take(n) =~= s.take(n));
        assert(a.take(1) =~= s.take(1));
        assert(b.take(1) =~= s.take(1));
        assert(a.skip(0) =~= a);
        assert(b.skip(0) =~= b);
        assert(s.skip(0) =~= s);
        assert(as_dir(a, false) == as_dir(s, false));
        assert(as_dir(b, false) == as_dir(s, false));
        assert(a.take(0) =~= e);
        assert(b.take(0) =~= e);
        assert(s.take(0) =~= e);
    }
}

/// A slash separates everywhere, a backslash on Windows alone, where it is also what is
/// written. A drive is a Latin letter and a colon, on Windows alone.
pub proof fn lemma_separators_and_drives(c: char, rest: Seq<char>)
    ensures
        is_sep(c, false) <==> c == '/',
        is_sep(c, true) <==> c == '/' || c == '\\',
        main_sep(false) == '/',
        main_sep(true) == '\\',
        drive_len(seq![c, ':'] + rest, false) == 0,
        'a' <= c <= 'z' || 'A' <= c <= 'Z' ==> drive_len(seq![c, ':'] + rest, true) == 2,
        !('a' <= c <= 'z' || 'A' <= c <= 'Z') ==> drive_len(seq![c, ':'] + rest, true) == 0,
        c != ':' ==> drive_len(seq!['C', c] + rest, true) == 0,
{
}

} // verus!

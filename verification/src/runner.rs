//! Locating the external binaries, what they are run with, and reading what
//! they report.

use vstd::prelude::*;

use crate::paths::split;
use crate::text::{
    chars_of, concat, decimal_i64, is_before, is_trimmed_empty, join, lines, owned, same,
    string_range, trim,
};
#[allow(unused_imports)]
use crate::paths::{
    is_sep, lemma_last_dot_of_sum, lemma_name_has_no_separator, lemma_no_drive_appears,
    lemma_split_of_sibling, lemma_stem_parts, split_path, stem_of,
};
#[allow(unused_imports)]
use crate::text::{
    before, deep, has_prefix, is_blank, is_plain, join_spec, lemma_before_total,
    lemma_before_transitive, lemma_deep_add, lemma_deep_push, lemma_trim_empty_iff_blank,
    lemma_trim_takes_the_ends, lemma_usual_whitespace, lines_spec, opt, signed, trim_spec,
};
use crate::ytdlp::{s, Double};

verus! {

// ---------------------------------------------------------------------------
// Locating binaries
// ---------------------------------------------------------------------------

/// A binary's file name: with `.exe` on Windows.
pub fn exe_name(stem: &str, windows: bool) -> (r: String)
    ensures
        r@ == (if windows {
            stem@ + ".exe"@
        } else {
            stem@
        }),
{
    if windows {
        concat(stem, ".exe")
    } else {
        owned(stem)
    }
}

/// A path, and whether a file stands there.
#[derive(Debug, PartialEq, Eq)]
pub struct Place {
    pub path: String,
    pub is_file: bool,
}

/// The value of a `Place`.
pub struct PlaceView {
    pub path: Seq<char>,
    pub is_file: bool,
}

impl View for Place {
    type V = PlaceView;

    open spec fn view(&self) -> PlaceView {
        PlaceView { path: self.path@, is_file: self.is_file }
    }
}

/// Where a binary may stand, besides a path that the user gave.
#[derive(Debug, PartialEq, Eq)]
pub struct SearchPlaces {
    /// Next to the program itself: the portable layout.
    pub portable: Option<Place>,
    /// In the application's data directory.
    pub bundled: Place,
    /// In each directory of the search path, in its order.
    pub on_path: Vec<Place>,
}

/// The path of the first place at which a file stands.
pub open spec fn first_place(places: Seq<PlaceView>) -> Option<Seq<char>>
    decreases places.len(),
{
    if places.len() == 0 {
        None
    } else if places[0].is_file {
        Some(places[0].path)
    } else {
        first_place(places.skip(1))
    }
}

/// The list that holds the value, where there is one.
pub open spec fn as_list(o: Option<PlaceView>) -> Seq<PlaceView> {
    match o {
        Some(p) => seq![p],
        None => Seq::<PlaceView>::empty(),
    }
}

/// Every place, in the order in which they are tried: the override, next to the
/// program, the data directory, the search path.
pub open spec fn search_order(override_path: Option<PlaceView>, at: SearchPlaces) -> Seq<PlaceView> {
    as_list(override_path) + as_list(opt(at.portable)) + seq![at.bundled@] + deep(at.on_path@)
}

proof fn lemma_first_place_add(a: Seq<PlaceView>, b: Seq<PlaceView>)
    ensures
        first_place(a + b) == (match first_place(a) {
            Some(p) => Some(p),
            None => first_place(b),
        }),
    decreases a.len(),
{
    if a.len() == 0 {
        assert(a + b =~= b);
    } else {
        assert((a + b)[0] == a[0]);
        assert((a + b).skip(1) =~= a.skip(1) + b);
        lemma_first_place_add(a.skip(1), b);
    }
}

proof fn lemma_first_place_one(p: PlaceView)
    ensures
        first_place(seq![p]) == (if p.is_file {
            Some(p.path)
        } else {
            None
        }),
{
    assert(seq![p].skip(1) =~= Seq::<PlaceView>::empty());
    assert(first_place(Seq::<PlaceView>::empty()) is None);
}

/// The first directory of the search path that holds the binary.
pub fn which_on_path(places: &Vec<Place>) -> (r: Option<String>)
    ensures
        opt(r) == first_place(deep(places@)),
{
    let ghost p = deep(places@);
    let mut i: usize = 0;
    assert(p.skip(0) =~= p);
    while i < places.len()
        invariant
            i <= places@.len(),
            p == deep(places@),
            first_place(p) == first_place(p.skip(i as int)),
        decreases places@.len() - i,
    {
        assert(p.skip(i as int)[0] == places@[i as int]@);
        if places[i].is_file {
            return Some(places[i].path.clone());
        }
        assert(p.skip(i as int).skip(1) =~= p.skip(i + 1));
        i = i + 1;
    }
    None
}

/// Where a binary is: the first place, in the order in which they are tried, at
/// which a file stands. The portable place comes before the data directory so
/// that a portable copy wins over a stale global install.
pub fn resolve(override_path: Option<&Place>, at: &SearchPlaces) -> (r: Option<String>)
    ensures
        opt(r) == first_place(
            search_order(
                match override_path {
                    Some(p) => Some(p@),
                    None => None,
                },
                *at,
            ),
        ),
{
    proof {
        let o = match override_path {
            Some(p) => Some(p@),
            None => None,
        };
        let a = as_list(o);
        let b = as_list(opt(at.portable));
        let c = seq![at.bundled@];
        let d = deep(at.on_path@);
        lemma_first_place_add(a + b + c, d);
        lemma_first_place_add(a + b, c);
        lemma_first_place_add(a, b);
        lemma_first_place_one(at.bundled@);
        match o {
            Some(p) => lemma_first_place_one(p),
            None => {},
        }
        match opt(at.portable) {
            Some(p) => lemma_first_place_one(p),
            None => {},
        }
    }
    match override_path {
        Some(p) => {
            if p.is_file {
                return Some(p.path.clone());
            }
        },
        None => {},
    }
    match &at.portable {
        Some(p) => {
            if p.is_file {
                return Some(p.path.clone());
            }
        },
        None => {},
    }
    if at.bundled.is_file {
        return Some(at.bundled.path.clone());
    }
    which_on_path(&at.on_path)
}

proof fn lemma_first_place_is_file(places: Seq<PlaceView>)
    ensures
        first_place(places) matches Some(p) ==> exists|i: int|
            0 <= i < places.len() && (#[trigger] places[i]).path == p && places[i].is_file,
        (exists|i: int| 0 <= i < places.len() && (#[trigger] places[i]).is_file) ==> first_place(
            places,
        ) is Some,
    decreases places.len(),
{
    if places.len() > 0 && !places[0].is_file {
        let rest = places.skip(1);
        lemma_first_place_is_file(rest);
        if first_place(rest) is Some {
            let p = first_place(rest)->0;
            let i = choose|i: int|
                0 <= i < rest.len() && (#[trigger] rest[i]).path == p && rest[i].is_file;
            assert(places[i + 1] == rest[i]);
        }
        if exists|i: int| 0 <= i < places.len() && (#[trigger] places[i]).is_file {
            let i = choose|i: int| 0 <= i < places.len() && (#[trigger] places[i]).is_file;
            assert(rest[i - 1] == places[i]);
        }
    }
}

/// What is found is a place at which a file stands, and something is found
/// wherever a file stands at any place. An override at which no file stands is
/// passed over.
pub proof fn lemma_resolve_finds_files_only(override_path: Option<PlaceView>, at: SearchPlaces)
    ensures
        ({
            let places = search_order(override_path, at);
            &&& first_place(places) matches Some(p) ==> exists|i: int|
                0 <= i < places.len() && (#[trigger] places[i]).path == p && places[i].is_file
            &&& (exists|i: int| 0 <= i < places.len() && (#[trigger] places[i]).is_file)
                ==> first_place(places) is Some
        }),
        override_path matches Some(o) && !o.is_file ==> first_place(search_order(override_path, at))
            == first_place(search_order(None, at)),
{
    lemma_first_place_is_file(search_order(override_path, at));
    match override_path {
        Some(o) => {
            let rest = as_list(opt(at.portable)) + seq![at.bundled@] + deep(at.on_path@);
            lemma_first_place_one(o);
            lemma_first_place_add(seq![o], rest);
            assert(search_order(override_path, at) =~= seq![o] + rest);
            assert(search_order(None, at) =~= rest);
        },
        None => {},
    }
}

/// The path of ffmpeg, or what to tell the user where it was not found.
pub fn ffmpeg_path(found: Option<String>) -> (r: Result<String, String>)
    ensures
        match found {
            Some(p) => r == Ok::<String, String>(p),
            None => r matches Err(e) && e@
                == "ffmpeg not found in bin dir, next to the exe, or on PATH"@,
        },
{
    match found {
        Some(p) => Ok(p),
        None => Err(owned("ffmpeg not found in bin dir, next to the exe, or on PATH")),
    }
}

/// The path of ffprobe, or what to tell the user where it was not found.
pub fn ffprobe_path(found: Option<String>) -> (r: Result<String, String>)
    ensures
        match found {
            Some(p) => r == Ok::<String, String>(p),
            None => r matches Err(e) && e@
                == "ffprobe not found in bin dir, next to the exe, or on PATH"@,
        },
{
    match found {
        Some(p) => Ok(p),
        None => Err(owned("ffprobe not found in bin dir, next to the exe, or on PATH")),
    }
}

// ---------------------------------------------------------------------------
// Explaining a missing yt-dlp
// ---------------------------------------------------------------------------

/// Whether the names are in order, equal ones allowed.
pub open spec fn in_order(names: Seq<Seq<char>>) -> bool {
    forall|i: int, j: int|
        0 <= i < j < names.len() ==> !before(#[trigger] names[j], #[trigger] names[i])
}

proof fn lemma_not_before_chain(a: Seq<char>, b: Seq<char>, c: Seq<char>)
    requires
        !before(b, a),
        !before(c, b),
    ensures
        !before(c, a),
{
    lemma_before_total(a, b);
    lemma_before_total(b, c);
    if before(c, a) {
        if a == b {
        } else {
            lemma_before_transitive(c, a, b);
        }
    }
}

/// Inserts a name into a list that is in order, keeping it so.
fn insert_sorted(names: &mut Vec<String>, name: String)
    requires
        in_order(deep(old(names)@)),
    ensures
        in_order(deep(final(names)@)),
        deep(final(names)@).to_multiset() == deep(old(names)@).to_multiset().insert(name@),
{
    let ghost p = deep(names@);
    let ghost x = name@;
    let mut i: usize = names.len();
    while i > 0 && is_before(name.as_str(), names[i - 1].as_str())
        invariant
            i <= names@.len(),
            names@ == old(names)@,
            p == deep(names@),
            x == name@,
            forall|k: int| i <= k < p.len() ==> before(x, #[trigger] p[k]),
        decreases i,
    {
        assert(p[i - 1] == names@[i - 1]@);
        i = i - 1;
    }
    proof {
        if i > 0 {
            assert(p[i - 1] == names@[i - 1]@);
            assert(!before(x, p[i - 1]));
        }
    }
    names.insert(i, name);
    proof {
        let q = deep(names@);
        assert(q =~= p.insert(i as int, x));
        p.insert_ensures(i as int, x);
        vstd::seq_lib::to_multiset_insert(p, i as int, x);
        assert forall|a: int, b: int| 0 <= a < b < q.len() implies !before(
            #[trigger] q[b],
            #[trigger] q[a],
        ) by {
            if b < i {
                assert(q[a] == p[a] && q[b] == p[b]);
            } else if b == i {
                assert(q[a] == p[a] && q[b] == x);
                if a < i - 1 {
                    assert(!before(p[i - 1], p[a]));
                    lemma_not_before_chain(p[a], p[i - 1], x);
                }
            } else if a == i {
                assert(q[a] == x && q[b] == p[b - 1]);
                lemma_before_total(x, p[b - 1]);
            } else if a < i {
                assert(q[a] == p[a] && q[b] == p[b - 1]);
            } else {
                assert(q[a] == p[a - 1] && q[b] == p[b - 1]);
            }
        }
    }
}

/// The names in order.
pub fn sort_names(names: Vec<String>) -> (r: Vec<String>)
    ensures
        in_order(deep(r@)),
        deep(r@).to_multiset() == deep(names@).to_multiset(),
{
    broadcast use vstd::multiset::group_multiset_axioms;

    let mut out: Vec<String> = Vec::new();
    let mut i: usize = 0;
    let ghost p = deep(names@);
    proof {
        assert(deep(out@) =~= Seq::<Seq<char>>::empty());
        assert(p.take(0) =~= Seq::<Seq<char>>::empty());
    }
    while i < names.len()
        invariant
            i <= names@.len(),
            p == deep(names@),
            in_order(deep(out@)),
            deep(out@).to_multiset() == p.take(i as int).to_multiset(),
        decreases names@.len() - i,
    {
        let next: String = names[i].clone();
        proof {
            assert(p.take(i + 1) =~= p.take(i as int).push(names@[i as int]@));
            vstd::seq_lib::to_multiset_build(p.take(i as int), names@[i as int]@);
        }
        insert_sorted(&mut out, next);
        i = i + 1;
    }
    assert(p.take(i as int) =~= p);
    out
}

/// What to say of a directory's contents: its names in order, or that it is
/// empty.
pub fn listing_text(names: Vec<String>) -> (r: String)
    ensures
        names@.len() == 0 ==> r@ == "<empty>"@,
        names@.len() > 0 ==> exists|sorted: Seq<Seq<char>>|
            in_order(sorted) && sorted.to_multiset() == deep(names@).to_multiset() && r@
                == #[trigger] join_spec(sorted, ", "@),
{
    if names.len() == 0 {
        return owned("<empty>");
    }
    let sorted: Vec<String> = sort_names(names);
    join(&sorted, ", ")
}

/// What is known of where yt-dlp was looked for, each path as it is to be shown.
#[derive(Debug, PartialEq, Eq)]
pub struct MissingYtdlp {
    pub bundled: String,
    pub exists: bool,
    pub is_file: bool,
    pub listing: String,
    pub portable: String,
    pub known_folder: String,
    pub env_local: String,
}

/// The word for a truth value.
pub open spec fn truth(b: bool) -> Seq<char> {
    if b {
        "true"@
    } else {
        "false"@
    }
}

fn truth_text(b: bool) -> (r: &'static str)
    ensures
        r@ == truth(b),
{
    if b {
        "true"
    } else {
        "false"
    }
}

/// Explains where yt-dlp was looked for. A path that exists but is no file is a
/// permission problem, not a missing download, so both are told.
pub fn missing_ytdlp_text(m: &MissingYtdlp) -> (r: String)
    ensures
        r@ == "yt-dlp not found.  app-data: "@ + m.bundled@ + " (exists "@ + truth(m.exists)
            + ", is_file "@ + truth(m.is_file) + ")  |  dir: ["@ + m.listing@
            + "]  |  portable: "@ + m.portable@ + "  |  known-folder: "@ + m.known_folder@
            + "  |  env LOCALAPPDATA: "@ + m.env_local@,
{
    let mut out: String = owned("yt-dlp not found.  app-data: ");
    out.append(m.bundled.as_str());
    out.append(" (exists ");
    out.append(truth_text(m.exists));
    out.append(", is_file ");
    out.append(truth_text(m.is_file));
    out.append(")  |  dir: [");
    out.append(m.listing.as_str());
    out.append("]  |  portable: ");
    out.append(m.portable.as_str());
    out.append("  |  known-folder: ");
    out.append(m.known_folder.as_str());
    out.append("  |  env LOCALAPPDATA: ");
    out.append(m.env_local.as_str());
    out
}

// ---------------------------------------------------------------------------
// Probe
// ---------------------------------------------------------------------------

/// The part of a metadata probe that the New Download dialog needs.
#[derive(Debug, PartialEq)]
pub struct Probe {
    /// "video" or "playlist".
    pub kind: Option<String>,
    pub id: Option<String>,
    pub title: Option<String>,
    pub duration: Option<Double>,
    pub thumbnail: Option<String>,
    pub webpage_url: Option<String>,
    pub uploader: Option<String>,
    pub playlist_count: Option<i64>,
    pub entries: Option<Vec<ProbeEntry>>,
}

#[derive(Debug, PartialEq)]
pub struct ProbeEntry {
    pub id: Option<String>,
    pub title: Option<String>,
    pub duration: Option<Double>,
    pub url: Option<String>,
    pub thumbnails: Option<Vec<Thumbnail>>,
}

#[derive(Debug, PartialEq)]
pub struct Thumbnail {
    pub url: Option<String>,
}

impl Probe {
    /// Whether the probe found a playlist.
    pub open spec fn playlist(self) -> bool {
        opt(self.kind) == Some("playlist"@)
    }

    pub fn is_playlist(&self) -> (r: bool)
        ensures
            r == self.playlist(),
    {
        match &self.kind {
            Some(k) => same(k.as_str(), "playlist"),
            None => false,
        }
    }

    /// How many videos this URL will produce: one, unless it is a playlist; for
    /// a playlist the number of its entries where they are listed, else the
    /// count it states.
    pub fn item_count(&self) -> (r: usize)
        ensures
            r == (if !self.playlist() {
                1int
            } else if self.entries is Some {
                self.entries->0@.len() as int
            } else if self.playlist_count is Some {
                (self.playlist_count->0 as usize) as int
            } else {
                0int
            }),
    {
        if self.is_playlist() {
            match &self.entries {
                Some(e) => e.len(),
                None => match self.playlist_count {
                    Some(c) => c as usize,
                    None => 0,
                },
            }
        } else {
            1
        }
    }
}

/// The last three lines, the last one first.
pub open spec fn newest_three(lines: Seq<Seq<char>>) -> Seq<Seq<char>> {
    Seq::new(
        if lines.len() < 3 {
            lines.len()
        } else {
            3
        },
        |i: int| lines[lines.len() - 1 - i],
    )
}

/// The last three lines, the last one first, with ` | ` between them.
pub fn tail_text(log: &Vec<String>) -> (r: String)
    ensures
        r@ == join_spec(newest_three(deep(log@)), " | "@),
{
    broadcast use lemma_deep_push;

    let ghost all = deep(log@);
    let mut out: Vec<String> = Vec::new();
    let mut i: usize = 0;
    while i < 3 && i < log.len()
        invariant
            i <= 3,
            i <= log@.len(),
            all == deep(log@),
            deep(out@) == newest_three(all).take(i as int),
        decreases 3 - i,
    {
        let next: String = log[log.len() - 1 - i].clone();
        let ghost before_out = deep(out@);
        out.push(next);
        assert(deep(out@) == before_out.push(all[all.len() - 1 - i]));
        i = i + 1;
        assert(newest_three(all).take(i as int) =~= newest_three(all).take(i - 1).push(
            all[all.len() - i],
        ));
    }
    assert(newest_three(all).take(i as int) =~= newest_three(all));
    join(&out, " | ")
}

/// What to tell the user of a probe that failed: the newest lines of what
/// yt-dlp wrote, which explain it better than anything invented here.
pub fn probe_failure_text(stderr: &str) -> (r: String)
    ensures
        r@ == "yt-dlp probe failed: "@ + join_spec(newest_three(lines_spec(stderr@)), " | "@),
{
    let all: Vec<String> = lines(stderr);
    let tail: String = tail_text(&all);
    concat("yt-dlp probe failed: ", tail.as_str())
}

// ---------------------------------------------------------------------------
// Updating yt-dlp
// ---------------------------------------------------------------------------

/// The last line that is not blank.
pub open spec fn last_filled(lines: Seq<Seq<char>>) -> Option<Seq<char>>
    decreases lines.len(),
{
    if lines.len() == 0 {
        None
    } else if trim_spec(lines.last()).len() > 0 {
        Some(lines.last())
    } else {
        last_filled(lines.drop_last())
    }
}

/// What an update reported: the last line that is not blank.
pub open spec fn update_line(stdout: Seq<char>, stderr: Seq<char>) -> Seq<char> {
    match last_filled(lines_spec(stdout + stderr)) {
        Some(l) => l,
        None => "yt-dlp reported nothing"@,
    }
}

/// What an update of yt-dlp came to, given what it wrote and whether it exited
/// cleanly.
pub fn update_result(stdout: &str, stderr: &str, success: bool) -> (r: Result<String, String>)
    ensures
        success ==> (r matches Ok(l) && l@ == update_line(stdout@, stderr@)),
        !success ==> (r matches Err(l) && l@ == update_line(stdout@, stderr@)),
{
    let combined: String = concat(stdout, stderr);
    let all: Vec<String> = lines(combined.as_str());
    let ghost v = deep(all@);
    let mut i: usize = all.len();
    assert(v.take(i as int) =~= v);
    while i > 0 && is_trimmed_empty(all[i - 1].as_str())
        invariant
            i <= all@.len(),
            v == deep(all@),
            last_filled(v) == last_filled(v.take(i as int)),
        decreases i,
    {
        assert(v.take(i as int).drop_last() =~= v.take(i - 1));
        assert(v.take(i as int).last() == all@[i - 1]@);
        i = i - 1;
    }
    let last: String = if i > 0 {
        assert(v.take(i as int).last() == all@[i - 1]@);
        all[i - 1].clone()
    } else {
        owned("yt-dlp reported nothing")
    };
    if success {
        Ok(last)
    } else {
        Err(last)
    }
}

// ---------------------------------------------------------------------------
// Exits
// ---------------------------------------------------------------------------

/// Ends the event stream of a run that exited cleanly.
pub const EXIT_OK: &'static str = "RDLP_EXIT ok";

/// Begins the last line of a run that did not.
pub const EXIT_FAIL_PREFIX: &'static str = "RDLP_EXIT fail ";

/// How a process ended.
#[derive(Debug, Clone, Copy, PartialEq, Eq, Structural)]
pub enum Exit {
    /// Cleanly.
    Success,
    /// With a code, or without one where a signal ended it.
    Failure(Option<i32>),
    /// In a way that could not be learned.
    Unknown,
}

/// The line that ends a run's event stream.
pub open spec fn exit_line_spec(exit: Exit) -> Seq<char> {
    match exit {
        Exit::Success => EXIT_OK@,
        Exit::Failure(Some(code)) => EXIT_FAIL_PREFIX@ + signed(code as int),
        Exit::Failure(None) => EXIT_FAIL_PREFIX@ + signed(-1),
        Exit::Unknown => EXIT_FAIL_PREFIX@ + "unknown"@,
    }
}

/// The line that ends a run's event stream.
pub fn exit_line(exit: Exit) -> (r: String)
    ensures
        r@ == exit_line_spec(exit),
{
    match exit {
        Exit::Success => owned(EXIT_OK),
        Exit::Failure(code) => {
            let code: i32 = match code {
                Some(c) => c,
                None => -1,
            };
            let digits: String = decimal_i64(code as i64);
            concat(EXIT_FAIL_PREFIX, digits.as_str())
        },
        Exit::Unknown => concat(EXIT_FAIL_PREFIX, "unknown"),
    }
}

/// A clean exit and a failed one are never mistaken for each other.
pub proof fn lemma_exit_lines_differ(exit: Exit)
    ensures
        exit_line_spec(exit) == EXIT_OK@ <==> exit == Exit::Success,
        has_prefix(exit_line_spec(exit), EXIT_FAIL_PREFIX@) <==> exit != Exit::Success,
{
    reveal_strlit("RDLP_EXIT ok");
    reveal_strlit("RDLP_EXIT fail ");
    assert(EXIT_OK@.len() == 12);
    assert(EXIT_FAIL_PREFIX@.len() == 15);
    if exit != Exit::Success {
        let l = exit_line_spec(exit);
        assert(l.take(15) =~= EXIT_FAIL_PREFIX@);
    }
}

// ---------------------------------------------------------------------------
// Conversion
// ---------------------------------------------------------------------------

/// A target format. Each one bakes in a pair of codecs that work together.
#[derive(Debug, Clone, Copy, PartialEq, Eq, Structural)]
pub enum ConvertFormat {
    Mp4H264Aac,
    MkvH264Aac,
    WebmVp9Opus,
    Mp3Audio,
}

impl ConvertFormat {
    /// The key that a format is stored as, and the extension of its files.
    pub open spec fn key(self) -> Seq<char> {
        match self {
            ConvertFormat::Mp4H264Aac => "mp4"@,
            ConvertFormat::MkvH264Aac => "mkv"@,
            ConvertFormat::WebmVp9Opus => "webm"@,
            ConvertFormat::Mp3Audio => "mp3"@,
        }
    }

    /// The format that a key stands for; an unknown one is mp4.
    pub open spec fn keyed(s: Seq<char>) -> ConvertFormat {
        if s == "mkv"@ {
            ConvertFormat::MkvH264Aac
        } else if s == "webm"@ {
            ConvertFormat::WebmVp9Opus
        } else if s == "mp3"@ {
            ConvertFormat::Mp3Audio
        } else {
            ConvertFormat::Mp4H264Aac
        }
    }

    /// The name shown for a format.
    pub open spec fn label_spec(self) -> Seq<char> {
        match self {
            ConvertFormat::Mp4H264Aac => "MP4 (H.264/AAC)"@,
            ConvertFormat::MkvH264Aac => "MKV (H.264/AAC)"@,
            ConvertFormat::WebmVp9Opus => "WebM (VP9/Opus)"@,
            ConvertFormat::Mp3Audio => "MP3 (audio only)"@,
        }
    }

    /// Every format, in the order in which they are offered.
    pub open spec fn all_spec() -> Seq<ConvertFormat> {
        seq![
            ConvertFormat::Mp4H264Aac,
            ConvertFormat::MkvH264Aac,
            ConvertFormat::WebmVp9Opus,
            ConvertFormat::Mp3Audio,
        ]
    }

    /// Every format, in the order in which they are offered.
    pub fn all() -> (r: Vec<ConvertFormat>)
        ensures
            r@ == ConvertFormat::all_spec(),
    {
        let mut out: Vec<ConvertFormat> = Vec::new();
        out.push(ConvertFormat::Mp4H264Aac);
        out.push(ConvertFormat::MkvH264Aac);
        out.push(ConvertFormat::WebmVp9Opus);
        out.push(ConvertFormat::Mp3Audio);
        assert(out@ =~= ConvertFormat::all_spec());
        out
    }

    pub fn as_str(self) -> (r: &'static str)
        ensures
            r@ == self.key(),
    {
        match self {
            ConvertFormat::Mp4H264Aac => "mp4",
            ConvertFormat::MkvH264Aac => "mkv",
            ConvertFormat::WebmVp9Opus => "webm",
            ConvertFormat::Mp3Audio => "mp3",
        }
    }

    pub fn parse(s: &str) -> (r: ConvertFormat)
        ensures
            r == ConvertFormat::keyed(s@),
    {
        if same(s, "mkv") {
            ConvertFormat::MkvH264Aac
        } else if same(s, "webm") {
            ConvertFormat::WebmVp9Opus
        } else if same(s, "mp3") {
            ConvertFormat::Mp3Audio
        } else {
            ConvertFormat::Mp4H264Aac
        }
    }

    pub fn label(self) -> (r: &'static str)
        ensures
            r@ == self.label_spec(),
    {
        match self {
            ConvertFormat::Mp4H264Aac => "MP4 (H.264/AAC)",
            ConvertFormat::MkvH264Aac => "MKV (H.264/AAC)",
            ConvertFormat::WebmVp9Opus => "WebM (VP9/Opus)",
            ConvertFormat::Mp3Audio => "MP3 (audio only)",
        }
    }

    pub fn extension(self) -> (r: &'static str)
        ensures
            r@ == self.key(),
    {
        self.as_str()
    }

    /// The codec arguments: always a full re-encode, so that it works
    /// regardless of the source's own codec.
    pub open spec fn codec_args_spec(self) -> Seq<Seq<char>> {
        match self {
            ConvertFormat::Mp4H264Aac | ConvertFormat::MkvH264Aac => seq![
                "-c:v"@,
                "libx264"@,
                "-c:a"@,
                "aac"@,
            ],
            ConvertFormat::WebmVp9Opus => seq!["-c:v"@, "libvpx-vp9"@, "-c:a"@, "libopus"@],
            ConvertFormat::Mp3Audio => seq!["-vn"@, "-c:a"@, "libmp3lame"@],
        }
    }

    pub fn ffmpeg_codec_args(self) -> (r: Vec<String>)
        ensures
            deep(r@) == self.codec_args_spec(),
    {
        broadcast use lemma_deep_push;

        let mut a: Vec<String> = Vec::new();
        match self {
            ConvertFormat::Mp4H264Aac | ConvertFormat::MkvH264Aac => {
                a.push(s("-c:v"));
                a.push(s("libx264"));
                a.push(s("-c:a"));
                a.push(s("aac"));
            },
            ConvertFormat::WebmVp9Opus => {
                a.push(s("-c:v"));
                a.push(s("libvpx-vp9"));
                a.push(s("-c:a"));
                a.push(s("libopus"));
            },
            ConvertFormat::Mp3Audio => {
                a.push(s("-vn"));
                a.push(s("-c:a"));
                a.push(s("libmp3lame"));
            },
        }
        assert(deep(a@) =~= self.codec_args_spec());
        a
    }
}

/// Reading back a stored format gives the format.
pub proof fn lemma_format_round_trip(format: ConvertFormat)
    ensures
        ConvertFormat::keyed(format.key()) == format,
{
    reveal_strlit("mp4");
    reveal_strlit("mkv");
    reveal_strlit("webm");
    reveal_strlit("mp3");
    assert("webm"@.len() == 4);
    assert("mp4"@.len() == 3 && "mp4"@[1] == 'p' && "mp4"@[2] == '4');
    assert("mkv"@.len() == 3 && "mkv"@[1] == 'k');
    assert("mp3"@.len() == 3 && "mp3"@[1] == 'p' && "mp3"@[2] == '3');
}

/// The stem that a conversion's output is named by.
pub open spec fn source_stem(source: Seq<char>, windows: bool) -> Seq<char> {
    match split_path(source, windows).1 {
        Some(name) => stem_of(name),
        None => "converted"@,
    }
}

/// What a conversion's output is called.
pub open spec fn output_name(source: Seq<char>, format: ConvertFormat, windows: bool) -> Seq<char> {
    source_stem(source, windows) + " ["@ + format.key() + "]."@ + format.key()
}

/// Where a conversion's output goes.
pub open spec fn output_path_spec(
    source: Seq<char>,
    format: ConvertFormat,
    windows: bool,
) -> Seq<char> {
    split_path(source, windows).0 + output_name(source, format, windows)
}

/// Where a conversion's output goes: the directory of the source, under a name
/// that tells the format.
pub fn convert_output_path(source: &str, format: ConvertFormat, windows: bool) -> (r: String)
    ensures
        r@ == output_path_spec(source@, format, windows),
{
    let (dir, name): (String, Option<String>) = split(source, windows);
    let stem: String = match name {
        Some(n) => crate::paths::stem(n.as_str()),
        None => owned("converted"),
    };
    let mut out: String = concat(dir.as_str(), stem.as_str());
    out.append(" [");
    out.append(format.as_str());
    out.append("].");
    out.append(format.extension());
    assert(out@ =~= output_path_spec(source@, format, windows));
    out
}

proof fn lemma_key_is_plain(format: ConvertFormat)
    ensures
        format.key().len() > 0,
        forall|i: int|
            0 <= i < format.key().len() ==> (#[trigger] format.key()[i]) != '.' && format.key()[i]
                != '/' && format.key()[i] != '\\',
{
    reveal_strlit("mp4");
    reveal_strlit("mkv");
    reveal_strlit("webm");
    reveal_strlit("mp3");
}

/// What a conversion's output is called has no separator and another stem than its
/// source.
proof fn lemma_output_name(source: Seq<char>, format: ConvertFormat, windows: bool)
    ensures
        ({
            let name = output_name(source, format, windows);
            let stem = source_stem(source, windows);
            &&& name.len() >= stem.len() + 4
            &&& stem.len() > 0
            &&& forall|i: int| 0 <= i < stem.len() ==> #[trigger] name[i] == stem[i]
            &&& name[stem.len() as int] == ' '
            &&& name.last() != '.'
            &&& forall|i: int| 0 <= i < name.len() ==> !is_sep(#[trigger] name[i], windows)
            &&& stem_of(name).len() > stem.len()
        }),
{
    let stem = source_stem(source, windows);
    let key = format.key();
    let name = output_name(source, format, windows);
    reveal_strlit(" [");
    reveal_strlit("].");
    reveal_strlit("converted");
    lemma_key_is_plain(format);
    lemma_name_has_no_separator(source, windows);
    match split_path(source, windows).1 {
        Some(n) => {
            lemma_stem_parts(n);
            assert forall|i: int| 0 <= i < stem.len() implies !is_sep(
                #[trigger] stem[i],
                windows,
            ) by {
                assert(stem[i] == n[i]);
            }
        },
        None => {},
    }
    let head = stem + " ["@ + key + seq![']'];
    assert(name =~= head.push('.') + key);
    assert(!key.contains('.'));
    lemma_last_dot_of_sum(head, key);
    assert(stem_of(name).len() == head.len());
    assert(name.last() == key[key.len() - 1]);
    assert forall|i: int| 0 <= i < name.len() implies !is_sep(#[trigger] name[i], windows) by {
        if i < stem.len() {
            assert(name[i] == stem[i]);
        } else if i == stem.len() {
        } else if i == stem.len() + 1 {
        } else if i < stem.len() + 2 + key.len() {
            assert(name[i] == key[i - stem.len() - 2]);
        } else if i >= stem.len() + 4 + key.len() {
            assert(name[i] == key[i - stem.len() - 4 - key.len()]);
        }
    }
}

/// A conversion never overwrites the file it is made from, not even where the
/// two have one extension.
pub proof fn lemma_output_never_collides(source: Seq<char>, format: ConvertFormat, windows: bool)
    ensures
        output_path_spec(source, format, windows) != source,
{
    let name = output_name(source, format, windows);
    let stem = source_stem(source, windows);
    lemma_output_name(source, format, windows);
    if crate::paths::drive_len(source, windows) == 0 {
        assert(name[1] == ':' ==> split_path(source, windows).1 is Some) by {
            reveal_strlit("converted");
        }
        match split_path(source, windows).1 {
            Some(n) => {
                lemma_stem_parts(n);
                if name[1] == ':' {
                    assert(stem.len() >= 2);
                    assert(n[0] == stem[0] && n[1] == stem[1]);
                }
            },
            None => {},
        }
        lemma_no_drive_appears(source, name, windows);
    }
    lemma_split_of_sibling(source, name, windows);
    assert(split_path(output_path_spec(source, format, windows), windows).1 == Some(name));
}

/// The full argument vector of a conversion.
pub open spec fn convert_args_spec(
    source: Seq<char>,
    format: ConvertFormat,
    windows: bool,
) -> Seq<Seq<char>> {
    (seq!["-y"@, "-loglevel"@, "error"@, "-i"@, source] + format.codec_args_spec() + seq![
        "-progress"@,
        "pipe:1"@,
        "-nostats"@,
    ]).push(output_path_spec(source, format, windows))
}

/// The full argument vector of a conversion.
pub fn convert_args(source: &str, format: ConvertFormat, windows: bool) -> (a: Vec<String>)
    ensures
        deep(a@) == convert_args_spec(source@, format, windows),
{
    broadcast use lemma_deep_push;

    let mut a: Vec<String> = Vec::new();
    a.push(s("-y"));
    a.push(s("-loglevel"));
    a.push(s("error"));
    a.push(s("-i"));
    a.push(s(source));
    let mut codec: Vec<String> = format.ffmpeg_codec_args();
    let ghost head = deep(a@);
    let ghost a0 = a@;
    let ghost c0 = codec@;
    a.append(&mut codec);
    assert(a@ =~= a0 + c0);
    proof {
        lemma_deep_add(a0, c0);
    }
    a.push(s("-progress"));
    a.push(s("pipe:1"));
    a.push(s("-nostats"));
    a.push(convert_output_path(source, format, windows));
    assert(deep(a@) =~= convert_args_spec(source@, format, windows));
    a
}

/// How far a conversion is.
#[derive(Debug, Clone, Copy, PartialEq, Eq, Structural)]
pub struct ConvertProgress {
    pub out_time_secs: Option<Double>,
    pub speed: Option<Double>,
}

/// What one line of ffmpeg's progress stream carries.
#[derive(Debug, PartialEq, Eq)]
pub enum ProgressKey {
    /// The output's length so far, in microseconds.
    OutTime(String),
    /// The speed, without its unit.
    Speed(String),
    /// The end of one report, and whether it is the last.
    Report { end: bool },
    /// Any other line.
    Ignored,
}

/// The value of a `ProgressKey`.
pub enum ProgressKeyView {
    OutTime(Seq<char>),
    Speed(Seq<char>),
    Report { end: bool },
    Ignored,
}

impl View for ProgressKey {
    type V = ProgressKeyView;

    open spec fn view(&self) -> ProgressKeyView {
        match self {
            ProgressKey::OutTime(t) => ProgressKeyView::OutTime(t@),
            ProgressKey::Speed(t) => ProgressKeyView::Speed(t@),
            ProgressKey::Report { end } => ProgressKeyView::Report { end: *end },
            ProgressKey::Ignored => ProgressKeyView::Ignored,
        }
    }
}

/// Where the first `=` of a text stands.
pub open spec fn first_equals(s: Seq<char>) -> Option<nat>
    decreases s.len(),
{
    if s.len() == 0 {
        None
    } else if s[0] == '=' {
        Some(0)
    } else {
        match first_equals(s.skip(1)) {
            Some(i) => Some(i + 1),
            None => None,
        }
    }
}

/// `s` without any `x` at its end.
pub open spec fn without_x(s: Seq<char>) -> Seq<char>
    decreases s.len(),
{
    if s.len() > 0 && s.last() == 'x' {
        without_x(s.drop_last())
    } else {
        s
    }
}

/// What a line of the progress stream carries.
pub open spec fn progress_key_spec(line: Seq<char>) -> ProgressKeyView {
    match first_equals(line) {
        None => ProgressKeyView::Ignored,
        Some(i) => {
            let key = line.take(i as int);
            let value = trim_spec(line.skip((i + 1) as int));
            if key == "out_time_ms"@ {
                ProgressKeyView::OutTime(value)
            } else if key == "speed"@ {
                ProgressKeyView::Speed(without_x(value))
            } else if key == "progress"@ {
                ProgressKeyView::Report { end: value == "end"@ }
            } else {
                ProgressKeyView::Ignored
            }
        },
    }
}

fn find_equals(chars: &Vec<char>) -> (r: Option<usize>)
    ensures
        match r {
            Some(i) => first_equals(chars@) == Some(i as nat) && i < chars@.len(),
            None => first_equals(chars@) is None,
        },
{
    let mut i: usize = 0;
    assert(chars@.skip(0) =~= chars@);
    while i < chars.len()
        invariant
            i <= chars@.len(),
            first_equals(chars@) == (match first_equals(chars@.skip(i as int)) {
                Some(k) => Some((k + i) as nat),
                None => None,
            }),
        decreases chars@.len() - i,
    {
        assert(chars@.skip(i as int)[0] == chars@[i as int]);
        if chars[i] == '=' {
            return Some(i);
        }
        assert(chars@.skip(i as int).skip(1) =~= chars@.skip(i + 1));
        i = i + 1;
    }
    None
}

fn strip_x(text: &str) -> (r: String)
    ensures
        r@ == without_x(text@),
{
    let chars: Vec<char> = chars_of(text);
    let mut end: usize = chars.len();
    assert(chars@.take(end as int) =~= text@);
    while end > 0 && chars[end - 1] == 'x'
        invariant
            end <= chars@.len(),
            without_x(text@) == without_x(chars@.take(end as int)),
        decreases end,
    {
        assert(chars@.take(end as int).drop_last() =~= chars@.take(end - 1));
        end = end - 1;
    }
    let r: String = string_range(&chars, 0, end);
    assert(r@ =~= chars@.take(end as int));
    proof {
        if end > 0 {
            assert(r@.last() == chars@[end - 1]);
        }
    }
    r
}

/// What a line of the progress stream carries.
pub fn progress_key(line: &str) -> (r: ProgressKey)
    ensures
        r@ == progress_key_spec(line@),
{
    let chars: Vec<char> = chars_of(line);
    let len: usize = chars.len();
    match find_equals(&chars) {
        None => ProgressKey::Ignored,
        Some(i) => {
            let key: String = string_range(&chars, 0, i);
            assert(key@ =~= line@.take(i as int));
            let raw: String = string_range(&chars, i + 1, len);
            assert(raw@ =~= line@.skip(i + 1));
            let value: String = trim(raw.as_str());
            if same(key.as_str(), "out_time_ms") {
                ProgressKey::OutTime(value)
            } else if same(key.as_str(), "speed") {
                ProgressKey::Speed(strip_x(value.as_str()))
            } else if same(key.as_str(), "progress") {
                ProgressKey::Report { end: same(value.as_str(), "end") }
            } else {
                ProgressKey::Ignored
            }
        },
    }
}

/// What to do after a line of the progress stream.
#[derive(Debug, Clone, Copy, PartialEq, Eq, Structural)]
pub enum ConvertStep {
    /// Read on.
    Continue,
    /// Report the progress and read on.
    Emit(ConvertProgress),
    /// Report the progress; the stream is over.
    EmitLast(ConvertProgress),
}

impl ConvertProgress {
    /// Nothing is known yet.
    pub fn start() -> (r: ConvertProgress)
        ensures
            r == (ConvertProgress { out_time_secs: None, speed: None }),
    {
        ConvertProgress { out_time_secs: None, speed: None }
    }

    /// Takes in one line of the stream. `number` is the number that the line's
    /// value stands for, in seconds for a time, where it is one: a value that
    /// is no number clears what was known.
    pub fn take_in(&mut self, key: &ProgressKey, number: Option<Double>) -> (r: ConvertStep)
        ensures
            match key@ {
                ProgressKeyView::OutTime(_) => *final(self) == (ConvertProgress {
                    out_time_secs: number,
                    ..*old(self)
                }) && r == ConvertStep::Continue,
                ProgressKeyView::Speed(_) => *final(self) == (ConvertProgress {
                    speed: number,
                    ..*old(self)
                }) && r == ConvertStep::Continue,
                ProgressKeyView::Report { end } => *final(self) == *old(self) && r == (if end {
                    ConvertStep::EmitLast(*old(self))
                } else {
                    ConvertStep::Emit(*old(self))
                }),
                ProgressKeyView::Ignored => *final(self) == *old(self) && r
                    == ConvertStep::Continue,
            },
    {
        match key {
            ProgressKey::OutTime(_) => {
                self.out_time_secs = number;
                ConvertStep::Continue
            },
            ProgressKey::Speed(_) => {
                self.speed = number;
                ConvertStep::Continue
            },
            ProgressKey::Report { end } => {
                if *end {
                    ConvertStep::EmitLast(*self)
                } else {
                    ConvertStep::Emit(*self)
                }
            },
            ProgressKey::Ignored => ConvertStep::Continue,
        }
    }
}

/// What a running conversion reports.
#[derive(Debug, PartialEq)]
pub enum ConvertEvent {
    Progress(ConvertProgress),
    Log(String),
}

// ---------------------------------------------------------------------------
// What each of these comes to
// ---------------------------------------------------------------------------

/// A binary is taken from where the user said, else from next to the program, else from
/// the data directory, else from the first directory of the search path that holds it.
pub proof fn lemma_places_are_tried_in_order(
    override_path: Option<PlaceView>,
    at: SearchPlaces,
    m: int,
)
    ensures
        ({
            let found = first_place(search_order(override_path, at));
            let given = override_path is Some && override_path->0.is_file;
            let portable = at.portable is Some && at.portable->0.is_file;
            let earlier = given || portable || at.bundled.is_file;
            &&& given ==> found == Some(override_path->0.path)
            &&& !given && portable ==> found == Some(at.portable->0.path@)
            &&& !given && !portable && at.bundled.is_file ==> found == Some(at.bundled.path@)
            &&& !earlier && 0 <= m < at.on_path@.len() && at.on_path@[m].is_file && (forall|i: int|
                0 <= i < m ==> !(#[trigger] at.on_path@[i]).is_file) ==> found == Some(
                at.on_path@[m].path@,
            )
            &&& !earlier && (forall|i: int|
                0 <= i < at.on_path@.len() ==> !(#[trigger] at.on_path@[i]).is_file)
                ==> found is None
        }),
{
    let a = as_list(override_path);
    let b = as_list(opt(at.portable));
    let c = seq![at.bundled@];
    let d = deep(at.on_path@);
    lemma_first_place_add(a + b + c, d);
    lemma_first_place_add(a + b, c);
    lemma_first_place_add(a, b);
    lemma_first_place_one(at.bundled@);
    if override_path is Some {
        lemma_first_place_one(override_path->0);
    }
    if at.portable is Some {
        lemma_first_place_one(at.portable->0@);
    }
    lemma_first_place_at(d, m);
}

proof fn lemma_first_place_at(places: Seq<PlaceView>, m: int)
    ensures
        0 <= m < places.len() && places[m].is_file && (forall|i: int|
            0 <= i < m ==> !(#[trigger] places[i]).is_file) ==> first_place(places) == Some(
            places[m].path,
        ),
        (forall|i: int| 0 <= i < places.len() ==> !(#[trigger] places[i]).is_file) ==> first_place(
            places,
        ) is None,
    decreases places.len(),
{
    if places.len() > 0 {
        let rest = places.skip(1);
        lemma_first_place_at(rest, m - 1);
        assert forall|i: int| 0 <= i < rest.len() implies rest[i] == places[i + 1] by {}
    }
}

/// A probe found a playlist exactly where it says so.
pub proof fn lemma_playlists_are_called_so(probe: Probe)
    ensures
        probe.kind is None ==> !probe.playlist(),
        probe.kind is Some ==> (probe.playlist() <==> probe.kind->0@ == "playlist"@),
{
}

/// Of the lines the last three are told, the last one first; of fewer, all.
pub proof fn lemma_newest_lines_come_first(lines: Seq<Seq<char>>, a: Seq<char>, b: Seq<char>, c: Seq<char>)
    ensures
        newest_three(lines.push(a).push(b).push(c)) == seq![c, b, a],
        newest_three(seq![a, b]) == seq![b, a],
        newest_three(seq![a]) == seq![a],
        newest_three(Seq::<Seq<char>>::empty()).len() == 0,
{
    assert(newest_three(lines.push(a).push(b).push(c)) =~= seq![c, b, a]);
    assert(newest_three(seq![a, b]) =~= seq![b, a]);
    assert(newest_three(seq![a]) =~= seq![a]);
}

proof fn lemma_last_filled(lines: Seq<Seq<char>>, k: int)
    ensures
        0 <= k < lines.len() && !is_blank(lines[k]) && (forall|i: int|
            k < i < lines.len() ==> is_blank(#[trigger] lines[i])) ==> last_filled(lines) == Some(
            lines[k],
        ),
        (forall|i: int| 0 <= i < lines.len() ==> is_blank(#[trigger] lines[i])) ==> last_filled(
            lines,
        ) is None,
    decreases lines.len(),
{
    if lines.len() > 0 {
        lemma_trim_empty_iff_blank(lines.last());
        let rest = lines.drop_last();
        lemma_last_filled(rest, k);
        assert forall|i: int| 0 <= i < rest.len() implies rest[i] == lines[i] by {}
    }
}

/// An update is summed up by the last line that is not blank of all it wrote, what went
/// to the error stream coming last.
pub proof fn lemma_update_is_summed_up_by_its_last_line(
    stdout: Seq<char>,
    stderr: Seq<char>,
    k: int,
)
    ensures
        ({
            let lines = lines_spec(stdout + stderr);
            &&& 0 <= k < lines.len() && !is_blank(lines[k]) && (forall|i: int|
                k < i < lines.len() ==> is_blank(#[trigger] lines[i])) ==> update_line(
                stdout,
                stderr,
            ) == lines[k]
            &&& (forall|i: int| 0 <= i < lines.len() ==> is_blank(#[trigger] lines[i]))
                ==> update_line(stdout, stderr) == "yt-dlp reported nothing"@
        }),
{
    lemma_last_filled(lines_spec(stdout + stderr), k);
}

/// The last line of a run tells how it exited.
pub proof fn lemma_last_line_tells_the_exit(exit: Exit)
    ensures
        exit is Success ==> exit_line_spec(exit) == "RDLP_EXIT ok"@,
        exit is Unknown ==> exit_line_spec(exit) == "RDLP_EXIT fail "@ + "unknown"@,
        exit matches Exit::Failure(Some(code)) ==> exit_line_spec(exit) == "RDLP_EXIT fail "@
            + signed(code as int),
        exit matches Exit::Failure(None) ==> exit_line_spec(exit) == "RDLP_EXIT fail "@ + "-1"@,
{
    reveal_strlit("-1");
    assert(signed(-1) =~= "-1"@);
}

/// Each format goes by the extension of its files, and is offered under a name that tells
/// its codecs; mp4 is the first and stands for whatever is not known.
pub proof fn lemma_formats_are_called_by_their_extension(format: ConvertFormat, text: Seq<char>)
    ensures
        ConvertFormat::Mp4H264Aac.key() == "mp4"@,
        ConvertFormat::MkvH264Aac.key() == "mkv"@,
        ConvertFormat::WebmVp9Opus.key() == "webm"@,
        ConvertFormat::Mp3Audio.key() == "mp3"@,
        ConvertFormat::Mp4H264Aac.label_spec() == "MP4 (H.264/AAC)"@,
        ConvertFormat::MkvH264Aac.label_spec() == "MKV (H.264/AAC)"@,
        ConvertFormat::WebmVp9Opus.label_spec() == "WebM (VP9/Opus)"@,
        ConvertFormat::Mp3Audio.label_spec() == "MP3 (audio only)"@,
        text != "mkv"@ && text != "webm"@ && text != "mp3"@ ==> ConvertFormat::keyed(
            text,
        ) is Mp4H264Aac,
        ConvertFormat::keyed("mkv"@) is MkvH264Aac,
        ConvertFormat::keyed("webm"@) is WebmVp9Opus,
        ConvertFormat::keyed("mp3"@) is Mp3Audio,
        ConvertFormat::all_spec() == seq![
            ConvertFormat::Mp4H264Aac,
            ConvertFormat::MkvH264Aac,
            ConvertFormat::WebmVp9Opus,
            ConvertFormat::Mp3Audio,
        ],
{
    lemma_format_round_trip(format);
    lemma_format_round_trip(ConvertFormat::MkvH264Aac);
    lemma_format_round_trip(ConvertFormat::WebmVp9Opus);
    lemma_format_round_trip(ConvertFormat::Mp3Audio);
}

/// Whether two arguments stand side by side, the first one behind `from` and the second
/// before `to`.
pub open spec fn side_by_side(
    args: Seq<Seq<char>>,
    from: int,
    to: int,
    a: Seq<char>,
    b: Seq<char>,
) -> bool {
    exists|i: int| from < i && i + 1 < to && #[trigger] args[i] == a && args[i + 1] == b
}

/// A conversion reads its source and writes its output last of all, over what stands
/// there, telling its progress on the way. Between the two stand the codecs of the
/// format: H.264 and AAC for mp4 and mkv, VP9 and Opus for WebM, and for mp3 its own with
/// the picture left out, which it is for no other format.
pub proof fn lemma_conversion_encodes_what_the_format_says(
    source: Seq<char>,
    format: ConvertFormat,
    windows: bool,
)
    ensures
        ({
            let a = convert_args_spec(source, format, windows);
            let out = a.len() - 1;
            &&& a.len() >= 6
            &&& a[0] == "-y"@
            &&& a[1] == "-loglevel"@ && a[2] == "error"@
            &&& a[3] == "-i"@ && a[4] == source
            &&& a[out] == output_path_spec(source, format, windows)
            &&& side_by_side(a, 4, out, "-progress"@, "pipe:1"@)
            &&& a[out - 1] == "-nostats"@
            &&& format is Mp4H264Aac || format is MkvH264Aac ==> {
                &&& side_by_side(a, 4, out, "-c:v"@, "libx264"@)
                &&& side_by_side(a, 4, out, "-c:a"@, "aac"@)
                &&& a.len() == 13
            }
            &&& format is WebmVp9Opus ==> {
                &&& side_by_side(a, 4, out, "-c:v"@, "libvpx-vp9"@)
                &&& side_by_side(a, 4, out, "-c:a"@, "libopus"@)
                &&& a.len() == 13
            }
            &&& format is Mp3Audio ==> {
                &&& a[5] == "-vn"@
                &&& side_by_side(a, 4, out, "-c:a"@, "libmp3lame"@)
                &&& a.len() == 12
            }
            &&& !(format is Mp3Audio) ==> forall|i: int| 4 < i < out ==> #[trigger] a[i] != "-vn"@
        }),
{
    let a = convert_args_spec(source, format, windows);
    let n = format.codec_args_spec().len() as int;
    assert(a[5 + n] == "-progress"@ && a[6 + n] == "pipe:1"@);
    if format is Mp3Audio {
        assert(a[6] == "-c:a"@ && a[7] == "libmp3lame"@);
    } else {
        assert(a[5] == "-c:v"@);
        assert(a[7] == "-c:a"@);
        reveal_strlit("-vn");
        reveal_strlit("-c:v");
        reveal_strlit("-c:a");
        reveal_strlit("aac");
        reveal_strlit("libx264");
        reveal_strlit("libvpx-vp9");
        reveal_strlit("libopus");
        reveal_strlit("-progress");
        reveal_strlit("pipe:1");
        reveal_strlit("-nostats");
        assert("aac"@[0] == 'a' && "-vn"@[0] == '-');
        assert forall|i: int| 4 < i < a.len() - 1 implies #[trigger] a[i] != "-vn"@ by {
            assert(a[6].len() == 7 || a[6].len() == 10);
            assert(a[8].len() == 7 || a[8][0] == 'a');
            assert(a[5].len() == 4 && a[7].len() == 4);
            assert(a[9].len() == 9 && a[10].len() == 6 && a[11].len() == 8);
            assert(i == 5 || i == 6 || i == 7 || i == 8 || i == 9 || i == 10 || i == 11);
        }
    }
}

/// The output stands beside the source: in its directory, under its stem, with the format
/// in brackets and as the extension.
pub proof fn lemma_output_stands_beside_its_source(
    source: Seq<char>,
    format: ConvertFormat,
    windows: bool,
)
    ensures
        ({
            let (dir, name) = split_path(source, windows);
            let stem = match name {
                Some(name) => stem_of(name),
                None => "converted"@,
            };
            let out = output_path_spec(source, format, windows);
            &&& format is Mp4H264Aac ==> out == dir + (stem + " ["@ + "mp4"@ + "]."@ + "mp4"@)
            &&& format is MkvH264Aac ==> out == dir + (stem + " ["@ + "mkv"@ + "]."@ + "mkv"@)
            &&& format is WebmVp9Opus ==> out == dir + (stem + " ["@ + "webm"@ + "]."@ + "webm"@)
            &&& format is Mp3Audio ==> out == dir + (stem + " ["@ + "mp3"@ + "]."@ + "mp3"@)
        }),
{
}

proof fn lemma_first_equals(key: Seq<char>, rest: Seq<char>)
    requires
        !key.contains('='),
    ensures
        first_equals(key + seq!['='] + rest) == Some(key.len()),
        first_equals(key) is None,
    decreases key.len(),
{
    let t = key + seq!['='] + rest;
    if key.len() > 0 {
        let k = key.skip(1);
        assert(key[0] != '=');
        assert(!k.contains('=')) by {
            if k.contains('=') {
                let i = choose|i: int| 0 <= i < k.len() && k[i] == '=';
                assert(key[i + 1] == '=');
            }
        }
        lemma_first_equals(k, rest);
        assert(t.skip(1) =~= k + seq!['='] + rest);
    }
}

proof fn lemma_without_x(d: Seq<char>)
    requires
        d.len() == 0 || d.last() != 'x',
    ensures
        without_x(d.push('x')) == d,
        without_x(d) == d,
{
    assert(without_x(d) == d);
    assert(d.push('x').drop_last() =~= d);
}

/// A line of the progress stream is a key and a value around the first `=`, whitespace
/// about the value aside: the time so far, the speed without its unit, the end of a
/// report and whether it is the last. Any other key, and a line without `=`, carry
/// nothing.
pub proof fn lemma_progress_lines_are_keys_and_values(
    key: Seq<char>,
    a: Seq<char>,
    d: Seq<char>,
    b: Seq<char>,
)
    requires
        !key.contains('='),
        is_blank(a),
        is_blank(b),
        is_plain(d),
    ensures
        ({
            let line = key + seq!['='] + (a + d + b);
            let read = progress_key_spec(line);
            &&& key == "out_time_ms"@ ==> read == ProgressKeyView::OutTime(d)
            &&& key == "speed"@ && d.last() != 'x' ==> read == ProgressKeyView::Speed(d)
            &&& key == "speed"@ && d.last() != 'x' ==> progress_key_spec(
                key + seq!['='] + (a + d.push('x') + b),
            ) == ProgressKeyView::Speed(d)
            &&& key == "progress"@ ==> read == (ProgressKeyView::Report { end: d == "end"@ })
            &&& key != "out_time_ms"@ && key != "speed"@ && key != "progress"@
                ==> read is Ignored
            &&& progress_key_spec(key) is Ignored
        }),
{
    let line = key + seq!['='] + (a + d + b);
    lemma_first_equals(key, a + d + b);
    lemma_first_equals(key, a + d.push('x') + b);
    lemma_trim_takes_the_ends(a, d, b);
    assert(line.take(key.len() as int) =~= key);
    assert(line.skip((key.len() + 1) as int) =~= a + d + b);
    if d.last() != 'x' {
        lemma_without_x(d);
        let other = key + seq!['='] + (a + d.push('x') + b);
        lemma_usual_whitespace('x');
        lemma_trim_takes_the_ends(a, d.push('x'), b);
        assert(other.take(key.len() as int) =~= key);
        assert(other.skip((key.len() + 1) as int) =~= a + d.push('x') + b);
    }
    reveal_strlit("out_time_ms");
    reveal_strlit("speed");
    reveal_strlit("progress");
    assert("out_time_ms"@.len() != "speed"@.len());
    assert("out_time_ms"@.len() != "progress"@.len());
    assert("speed"@.len() != "progress"@.len());
}

/// A truth value is told by its word.
pub proof fn lemma_words_of_truth(b: bool)
    ensures
        b ==> truth(b) == "true"@,
        !b ==> truth(b) == "false"@,
{
}

/// Names in order stand with the smaller one first.
pub proof fn lemma_smaller_names_come_first(names: Seq<Seq<char>>, i: int, j: int)
    requires
        in_order(names),
        0 <= i < j < names.len(),
    ensures
        names[i] == names[j] || before(names[i], names[j]),
{
    lemma_before_total(names[i], names[j]);
}

} // verus!

//! Turning intent into a yt-dlp argument vector, and yt-dlp's output back into
//! structured events.

use vstd::prelude::*;

use crate::text::{
    chars_of, concat, concat3, copy_opt, copy_strings, decimal_u64, join, owned,
    same, string_range, strip_prefix, trim,
};
#[allow(unused_imports)]
use crate::text::{decimal, deep, has_prefix, join_spec, lemma_deep_push, opt, trim_spec};

verus! {

// ---------------------------------------------------------------------------
// Floating-point values, carried by their bit patterns
// ---------------------------------------------------------------------------

/// A double-precision number, by its IEEE 754 bit pattern.
#[derive(Debug, Clone, Copy, PartialEq, Eq, Structural)]
pub struct Double {
    pub bits: u64,
}

/// A single-precision number, by its IEEE 754 bit pattern.
#[derive(Debug, Clone, Copy, PartialEq, Eq, Structural)]
pub struct Single {
    pub bits: u32,
}

impl Double {
    /// Whether the number is above zero: its sign bit is clear, and its pattern
    /// lies between that of zero and that of infinity.
    pub open spec fn positive(self) -> bool {
        0 < self.bits <= 0x7ff0_0000_0000_0000
    }

    /// Whether the number is below zero.
    pub open spec fn negative(self) -> bool {
        0x8000_0000_0000_0000 < self.bits <= 0xfff0_0000_0000_0000
    }

    /// Whether the number is zero, of either sign, or above it.
    pub open spec fn countable(self) -> bool {
        self.bits <= 0x7ff0_0000_0000_0000 || self.bits == 0x8000_0000_0000_0000
    }

    /// Decides whether the number is below zero; not-a-number is not.
    pub fn is_negative(self) -> (r: bool)
        ensures
            r == self.negative(),
    {
        0x8000_0000_0000_0000 < self.bits && self.bits <= 0xfff0_0000_0000_0000
    }

    /// Decides whether the number is zero or above it; not-a-number is not.
    pub fn is_countable(self) -> (r: bool)
        ensures
            r == self.countable(),
    {
        self.bits <= 0x7ff0_0000_0000_0000 || self.bits == 0x8000_0000_0000_0000
    }

    /// Decides whether the number is above zero; not-a-number is not.
    pub fn is_positive(self) -> (r: bool)
        ensures
            r == self.positive(),
    {
        0 < self.bits && self.bits <= 0x7ff0_0000_0000_0000
    }
}

// ---------------------------------------------------------------------------
// Options
// ---------------------------------------------------------------------------

/// Which formats a download asks for.
#[derive(Debug, PartialEq, Eq)]
pub enum FormatMode {
    /// Best video and best audio, merged.
    BestVideoAudio,
    /// Strip to audio and transcode to `codec` (mp3, m4a, opus, ...).
    AudioOnly { codec: String },
    /// A raw `-f` selector, for people who know yt-dlp's format language.
    Custom(String),
}

/// The value of a `FormatMode`.
pub enum FormatView {
    BestVideoAudio,
    AudioOnly { codec: Seq<char> },
    Custom(Seq<char>),
}

impl View for FormatMode {
    type V = FormatView;

    open spec fn view(&self) -> FormatView {
        match self {
            FormatMode::BestVideoAudio => FormatView::BestVideoAudio,
            FormatMode::AudioOnly { codec } => FormatView::AudioOnly { codec: codec@ },
            FormatMode::Custom(s) => FormatView::Custom(s@),
        }
    }
}

impl Default for FormatMode {
    fn default() -> (r: Self)
        ensures
            r@ == FormatView::BestVideoAudio,
    {
        FormatMode::BestVideoAudio
    }
}

impl Clone for FormatMode {
    fn clone(&self) -> (r: FormatMode)
        ensures
            r@ == self@,
    {
        match self {
            FormatMode::BestVideoAudio => FormatMode::BestVideoAudio,
            FormatMode::AudioOnly { codec } => FormatMode::AudioOnly { codec: codec.clone() },
            FormatMode::Custom(s) => FormatMode::Custom(s.clone()),
        }
    }
}

/// The curated slice of yt-dlp's surface that gets real widgets, plus
/// `extra_args`, which reaches everything else.
#[derive(Debug, PartialEq, Eq)]
pub struct YtdlpOptions {
    pub format: FormatMode,
    /// Cap on vertical resolution, e.g. 1080.
    pub max_height: Option<u32>,
    /// `--merge-output-format`, e.g. "mp4".
    pub container: Option<String>,
    pub output_template: String,
    pub download_dir: String,
    /// Empty means don't fetch subtitles at all.
    pub subtitle_langs: Vec<String>,
    pub embed_subs: bool,
    pub embed_thumbnail: bool,
    pub embed_metadata: bool,
    /// e.g. "sponsor,selfpromo"
    pub sponsorblock_remove: Option<String>,
    /// `-r`, e.g. "2M".
    pub rate_limit: Option<String>,
    pub concurrent_fragments: u8,
    /// `--cookies-from-browser`, e.g. "firefox".
    pub cookies_from_browser: Option<String>,
    /// Skip anything already recorded in the archive file.
    pub download_archive: bool,
    pub retries: u8,
    pub extra_args: Vec<String>,
}

/// The value of a `YtdlpOptions`.
#[verifier::ext_equal]
pub struct OptionsView {
    pub format: FormatView,
    pub max_height: Option<u32>,
    pub container: Option<Seq<char>>,
    pub output_template: Seq<char>,
    pub download_dir: Seq<char>,
    pub subtitle_langs: Seq<Seq<char>>,
    pub embed_subs: bool,
    pub embed_thumbnail: bool,
    pub embed_metadata: bool,
    pub sponsorblock_remove: Option<Seq<char>>,
    pub rate_limit: Option<Seq<char>>,
    pub concurrent_fragments: u8,
    pub cookies_from_browser: Option<Seq<char>>,
    pub download_archive: bool,
    pub retries: u8,
    pub extra_args: Seq<Seq<char>>,
}

impl View for YtdlpOptions {
    type V = OptionsView;

    open spec fn view(&self) -> OptionsView {
        OptionsView {
            format: self.format@,
            max_height: self.max_height,
            container: opt(self.container),
            output_template: self.output_template@,
            download_dir: self.download_dir@,
            subtitle_langs: deep(self.subtitle_langs@),
            embed_subs: self.embed_subs,
            embed_thumbnail: self.embed_thumbnail,
            embed_metadata: self.embed_metadata,
            sponsorblock_remove: opt(self.sponsorblock_remove),
            rate_limit: opt(self.rate_limit),
            concurrent_fragments: self.concurrent_fragments,
            cookies_from_browser: opt(self.cookies_from_browser),
            download_archive: self.download_archive,
            retries: self.retries,
            extra_args: deep(self.extra_args@),
        }
    }
}

/// The template a file is named by where nothing else is asked for.
pub open spec fn default_template() -> Seq<char> {
    "%(title)s [%(id)s].%(ext)s"@
}

/// The options of a run that asks for nothing in particular.
pub open spec fn default_options_view() -> OptionsView {
    OptionsView {
        format: FormatView::BestVideoAudio,
        max_height: None,
        container: None,
        output_template: default_template(),
        download_dir: Seq::<char>::empty(),
        subtitle_langs: Seq::<Seq<char>>::empty(),
        embed_subs: false,
        embed_thumbnail: false,
        embed_metadata: false,
        sponsorblock_remove: None,
        rate_limit: None,
        concurrent_fragments: 1,
        cookies_from_browser: None,
        download_archive: false,
        retries: 10,
        extra_args: Seq::<Seq<char>>::empty(),
    }
}

impl Default for YtdlpOptions {
    fn default() -> (r: Self)
        ensures
            r@ == default_options_view(),
    {
        let r: YtdlpOptions = YtdlpOptions {
            format: FormatMode::BestVideoAudio,
            max_height: None,
            container: None,
            output_template: owned("%(title)s [%(id)s].%(ext)s"),
            download_dir: String::new(),
            subtitle_langs: Vec::new(),
            embed_subs: false,
            embed_thumbnail: false,
            embed_metadata: false,
            sponsorblock_remove: None,
            rate_limit: None,
            concurrent_fragments: 1,
            cookies_from_browser: None,
            download_archive: false,
            retries: 10,
            extra_args: Vec::new(),
        };
        assert(r@ =~= default_options_view());
        r
    }
}

// ---------------------------------------------------------------------------
// Options to arguments
// ---------------------------------------------------------------------------

/// A flag and its value, or nothing where the value is not set.
pub open spec fn flag_value(flag: Seq<char>, value: Option<Seq<char>>) -> Seq<Seq<char>> {
    match value {
        Some(v) => seq![flag, v],
        None => Seq::<Seq<char>>::empty(),
    }
}

/// A flag, or nothing where it is off.
pub open spec fn flag_if(flag: Seq<char>, on: bool) -> Seq<Seq<char>> {
    if on {
        seq![flag]
    } else {
        Seq::<Seq<char>>::empty()
    }
}

/// The selector for merged video and audio: capped merge first, a capped muxed
/// format next, and anything at all last, so that an unusual site never yields
/// "no formats".
pub open spec fn best_selector(max_height: Option<u32>) -> Seq<char> {
    match max_height {
        Some(h) => "bv*[height<="@ + decimal(h as nat) + "]+ba/b[height<="@ + decimal(h as nat)
            + "]/bv*+ba/b"@,
        None => "bv*+ba/b"@,
    }
}

/// The arguments that choose a format.
pub open spec fn format_args(o: OptionsView) -> Seq<Seq<char>> {
    match o.format {
        FormatView::Custom(sel) => seq!["-f"@, sel],
        FormatView::AudioOnly { codec } => seq!["-f"@, "ba/b"@, "-x"@, "--audio-format"@, codec],
        FormatView::BestVideoAudio => seq!["-f"@, best_selector(o.max_height)],
    }
}

/// The arguments that fetch subtitles.
pub open spec fn subtitle_args(o: OptionsView) -> Seq<Seq<char>> {
    if o.subtitle_langs.len() == 0 {
        Seq::<Seq<char>>::empty()
    } else {
        seq!["--write-subs"@, "--sub-langs"@, join_spec(o.subtitle_langs, ","@)] + flag_if(
            "--embed-subs"@,
            o.embed_subs,
        )
    }
}

/// The directory, where one is set.
pub open spec fn set_dir(o: OptionsView) -> Option<Seq<char>> {
    if o.download_dir.len() == 0 {
        None
    } else {
        Some(o.download_dir)
    }
}

/// The archive file's path, where an archive is kept and a directory is set.
pub open spec fn archive_path(o: OptionsView) -> Option<Seq<char>> {
    if o.download_archive && o.download_dir.len() > 0 {
        Some(o.download_dir + "/archive.txt"@)
    } else {
        None
    }
}

/// The number of fragments, where it is more than one.
pub open spec fn fragment_count(o: OptionsView) -> Option<Seq<char>> {
    if o.concurrent_fragments > 1 {
        Some(decimal(o.concurrent_fragments as nat))
    } else {
        None
    }
}

/// The arguments before the user's own: one group per option, in this order.
pub open spec fn preset_args(o: OptionsView) -> Seq<Seq<char>> {
    format_args(o) + flag_value("--merge-output-format"@, o.container) + seq![
        "-o"@,
        o.output_template,
    ] + flag_value("-P"@, set_dir(o)) + subtitle_args(o) + flag_if(
        "--embed-thumbnail"@,
        o.embed_thumbnail,
    ) + flag_if("--embed-metadata"@, o.embed_metadata) + flag_value(
        "--sponsorblock-remove"@,
        o.sponsorblock_remove,
    ) + flag_value("-r"@, o.rate_limit) + flag_value("-N"@, fragment_count(o)) + flag_value(
        "--cookies-from-browser"@,
        o.cookies_from_browser,
    ) + flag_value("--download-archive"@, archive_path(o)) + seq![
        "--retries"@,
        decimal(o.retries as nat),
    ]
}

/// The arguments that options stand for. The user's own come last, so that a
/// repeated option there wins.
pub open spec fn args_of(o: OptionsView) -> Seq<Seq<char>> {
    preset_args(o) + o.extra_args
}

/// An owned string.
pub fn s(v: &str) -> (r: String)
    ensures
        r@ == v@,
{
    owned(v)
}

fn push_value(a: &mut Vec<String>, flag: &str, value: &Option<String>)
    ensures
        deep(final(a)@) == deep(old(a)@) + flag_value(flag@, opt(*value)),
{
    broadcast use lemma_deep_push;

    match value {
        Some(v) => {
            a.push(s(flag));
            a.push(v.clone());
        },
        None => {},
    }
    assert(deep(a@) =~= deep(old(a)@) + flag_value(flag@, opt(*value)));
}

fn push_flag(a: &mut Vec<String>, flag: &str, on: bool)
    ensures
        deep(final(a)@) == deep(old(a)@) + flag_if(flag@, on),
{
    broadcast use lemma_deep_push;

    if on {
        a.push(s(flag));
    }
    assert(deep(a@) =~= deep(old(a)@) + flag_if(flag@, on));
}

fn push_pair(a: &mut Vec<String>, flag: &str, value: String)
    ensures
        deep(final(a)@) == deep(old(a)@) + seq![flag@, value@],
{
    broadcast use lemma_deep_push;

    a.push(s(flag));
    a.push(value);
    assert(deep(a@) =~= deep(old(a)@) + seq![flag@, value@]);
}

fn extend(a: &mut Vec<String>, more: &Vec<String>)
    ensures
        deep(final(a)@) == deep(old(a)@) + deep(more@),
{
    broadcast use lemma_deep_push;

    let mut i: usize = 0;
    while i < more.len()
        invariant
            i <= more@.len(),
            deep(a@) == deep(old(a)@) + deep(more@).take(i as int),
        decreases more@.len() - i,
    {
        let next: String = more[i].clone();
        let ghost before = deep(a@);
        a.push(next);
        i = i + 1;
        assert(deep(a@) == before.push(next@));
        assert(deep(more@).take(i as int) =~= deep(more@).take(i - 1).push(more@[i - 1]@));
        assert(deep(a@) =~= deep(old(a)@) + deep(more@).take(i as int));
    }
    assert(deep(more@).take(i as int) =~= deep(more@));
}

fn best_selector_text(max_height: Option<u32>) -> (r: String)
    ensures
        r@ == best_selector(max_height),
{
    match max_height {
        Some(h) => {
            let digits: String = decimal_u64(h as u64);
            let mut out: String = s("bv*[height<=");
            out.append(digits.as_str());
            out.append("]+ba/b[height<=");
            out.append(digits.as_str());
            out.append("]/bv*+ba/b");
            out
        },
        None => s("bv*+ba/b"),
    }
}

impl Clone for YtdlpOptions {
    fn clone(&self) -> (r: YtdlpOptions)
        ensures
            r@ == self@,
    {
        YtdlpOptions {
            format: self.format.clone(),
            max_height: self.max_height,
            container: copy_opt(&self.container),
            output_template: self.output_template.clone(),
            download_dir: self.download_dir.clone(),
            subtitle_langs: copy_strings(&self.subtitle_langs),
            embed_subs: self.embed_subs,
            embed_thumbnail: self.embed_thumbnail,
            embed_metadata: self.embed_metadata,
            sponsorblock_remove: copy_opt(&self.sponsorblock_remove),
            rate_limit: copy_opt(&self.rate_limit),
            concurrent_fragments: self.concurrent_fragments,
            cookies_from_browser: copy_opt(&self.cookies_from_browser),
            download_archive: self.download_archive,
            retries: self.retries,
            extra_args: copy_strings(&self.extra_args),
        }
    }
}

impl YtdlpOptions {
    fn format_args(&self) -> (a: Vec<String>)
        ensures
            deep(a@) == format_args(self@),
    {
        broadcast use lemma_deep_push;

        let mut a: Vec<String> = Vec::new();
        match &self.format {
            FormatMode::Custom(sel) => {
                a.push(s("-f"));
                a.push(sel.clone());
            },
            FormatMode::AudioOnly { codec } => {
                a.push(s("-f"));
                a.push(s("ba/b"));
                a.push(s("-x"));
                a.push(s("--audio-format"));
                a.push(codec.clone());
            },
            FormatMode::BestVideoAudio => {
                a.push(s("-f"));
                a.push(best_selector_text(self.max_height));
            },
        }
        assert(deep(a@) =~= format_args(self@));
        a
    }

    /// The single place options become command-line arguments.
    ///
    /// A wrong argument here is invisible: it still downloads *something*, just
    /// not what was asked for.
    pub fn to_args(&self) -> (a: Vec<String>)
        ensures
            deep(a@) == args_of(self@),
            self@.format is BestVideoAudio && self@.max_height is None ==> a@.len() >= 2 && a@[0]@
                == "-f"@ && a@[1]@ == "bv*+ba/b"@,
            self@.format is BestVideoAudio && self@.max_height is Some ==> a@.len() >= 2 && a@[0]@
                == "-f"@ && a@[1]@ == "bv*[height<="@ + decimal(self@.max_height->0 as nat)
                + "]+ba/b[height<="@ + decimal(self@.max_height->0 as nat) + "]/bv*+ba/b"@,
    {
        let mut a: Vec<String> = self.format_args();
        push_value(&mut a, "--merge-output-format", &self.container);
        push_pair(&mut a, "-o", self.output_template.clone());

        let dir: Option<String> = if self.download_dir.as_str().is_empty() {
            None
        } else {
            Some(self.download_dir.clone())
        };
        push_value(&mut a, "-P", &dir);

        let ghost before_subs = deep(a@);
        if self.subtitle_langs.len() > 0 {
            push_flag(&mut a, "--write-subs", true);
            push_pair(&mut a, "--sub-langs", join(&self.subtitle_langs, ","));
            push_flag(&mut a, "--embed-subs", self.embed_subs);
        }
        assert(deep(a@) =~= before_subs + subtitle_args(self@));

        push_flag(&mut a, "--embed-thumbnail", self.embed_thumbnail);
        push_flag(&mut a, "--embed-metadata", self.embed_metadata);
        push_value(&mut a, "--sponsorblock-remove", &self.sponsorblock_remove);
        push_value(&mut a, "-r", &self.rate_limit);

        let fragments: Option<String> = if self.concurrent_fragments > 1 {
            Some(decimal_u64(self.concurrent_fragments as u64))
        } else {
            None
        };
        push_value(&mut a, "-N", &fragments);
        push_value(&mut a, "--cookies-from-browser", &self.cookies_from_browser);

        let archive: Option<String> = if self.download_archive
            && !self.download_dir.as_str().is_empty() {
            Some(concat(self.download_dir.as_str(), "/archive.txt"))
        } else {
            None
        };
        push_value(&mut a, "--download-archive", &archive);
        push_pair(&mut a, "--retries", decimal_u64(self.retries as u64));
        extend(&mut a, &self.extra_args);
        proof {
            let all = deep(a@);
            lemma_selector_of_best(self@);
            assert(all[0] == a@[0]@ && all[1] == a@[1]@);
        }
        a
    }
}

/// The arguments of every run.
pub open spec fn base_args_spec() -> Seq<Seq<char>> {
    seq!["--ignore-config"@, "--no-color"@, "--encoding"@, "utf-8"@]
}

/// Flags applied to every invocation, preset or not.
///
/// `--ignore-config` keeps a user's global yt-dlp config from silently
/// overriding the preset, and the encoding keeps a console's own code page from
/// mangling titles.
pub fn base_args() -> (a: Vec<String>)
    ensures
        deep(a@) == base_args_spec(),
{
    broadcast use lemma_deep_push;

    let mut a: Vec<String> = Vec::new();
    a.push(s("--ignore-config"));
    a.push(s("--no-color"));
    a.push(s("--encoding"));
    a.push(s("utf-8"));
    assert(deep(a@) =~= base_args_spec());
    a
}

/// Marks a progress object in yt-dlp's output.
pub const PROGRESS_PREFIX: &'static str = "RDLP_PROG";

/// Marks a video's metadata in yt-dlp's output.
pub const INFO_PREFIX: &'static str = "RDLP_INFO";

/// Marks a finished file in yt-dlp's output.
pub const FILE_PREFIX: &'static str = "RDLP_FILE";

/// The arguments that make a run report what it does.
///
/// `--print` implies both `--quiet` and `--simulate`; without the two
/// counter-flags nothing is downloaded while the run still exits cleanly.
pub open spec fn report_args_spec() -> Seq<Seq<char>> {
    seq![
        "--no-simulate"@,
        "--progress"@,
        "--newline"@,
        "--progress-template"@,
        "download:"@ + PROGRESS_PREFIX@ + " %(progress)j"@,
        "--print"@,
        "video:"@ + INFO_PREFIX@
            + " %(.{id,title,duration,thumbnail,webpage_url,playlist_index})j"@,
        "--print"@,
        "after_move:"@ + FILE_PREFIX@ + " %(filepath)s"@,
        "--write-info-json"@,
        "--write-thumbnail"@,
    ]
}

fn report_args() -> (a: Vec<String>)
    ensures
        deep(a@) == report_args_spec(),
{
    broadcast use lemma_deep_push;

    let mut a: Vec<String> = Vec::new();
    a.push(s("--no-simulate"));
    a.push(s("--progress"));
    a.push(s("--newline"));
    a.push(s("--progress-template"));
    a.push(concat3("download:", PROGRESS_PREFIX, " %(progress)j"));
    a.push(s("--print"));
    a.push(
        concat3(
            "video:",
            INFO_PREFIX,
            " %(.{id,title,duration,thumbnail,webpage_url,playlist_index})j",
        ),
    );
    a.push(s("--print"));
    a.push(concat3("after_move:", FILE_PREFIX, " %(filepath)s"));
    a.push(s("--write-info-json"));
    a.push(s("--write-thumbnail"));
    assert(deep(a@) =~= report_args_spec());
    a
}

/// The full argument vector of a download run.
pub open spec fn download_args_spec(url: Seq<char>, o: OptionsView) -> Seq<Seq<char>> {
    (base_args_spec() + report_args_spec() + args_of(o)).push(url)
}

/// The full argument vector of a download run.
pub fn download_args(url: &str, opts: &YtdlpOptions) -> (a: Vec<String>)
    ensures
        deep(a@) == download_args_spec(url@, opts@),
{
    broadcast use lemma_deep_push;

    let mut a: Vec<String> = base_args();
    extend(&mut a, &report_args());
    extend(&mut a, &opts.to_args());
    a.push(s(url));
    a
}

/// The full argument vector of a metadata probe.
pub open spec fn probe_args_spec(url: Seq<char>) -> Seq<Seq<char>> {
    base_args_spec() + seq!["-J"@, "--flat-playlist"@, "--no-warnings"@, "--no-progress"@, url]
}

/// The full argument vector of the cheap metadata probe run when a URL is
/// pasted. `--flat-playlist` keeps a long playlist to roughly one request.
pub fn probe_args(url: &str) -> (a: Vec<String>)
    ensures
        deep(a@) == probe_args_spec(url@),
{
    broadcast use lemma_deep_push;

    let mut a: Vec<String> = base_args();
    a.push(s("-J"));
    a.push(s("--flat-playlist"));
    a.push(s("--no-warnings"));
    a.push(s("--no-progress"));
    a.push(s(url));
    assert(deep(a@) =~= probe_args_spec(url@));
    a
}

// ---------------------------------------------------------------------------
// What every argument vector keeps
// ---------------------------------------------------------------------------

/// The selector stands right behind `-f`, first of all. For video it asks for the
/// best video and the best sound, merged; under a cap that is the last resort,
/// behind what keeps to the cap. For sound it asks for the best sound, to be turned
/// into the codec; and a selector of the user's own is passed on as it is.
pub proof fn lemma_selector_of_best(o: OptionsView)
    ensures
        args_of(o).len() >= 2,
        args_of(o)[0] == "-f"@,
        o.format is BestVideoAudio && o.max_height is None ==> args_of(o)[1] == "bv*+ba/b"@,
        o.format is BestVideoAudio ==> (o.max_height matches Some(h) ==> args_of(o)[1]
            == "bv*[height<="@ + decimal(h as nat) + "]+ba/b[height<="@ + decimal(h as nat)
            + "]/bv*+ba/b"@),
        o.format matches FormatView::Custom(sel) ==> args_of(o)[1] == sel,
        o.format matches FormatView::AudioOnly { codec } ==> {
            &&& args_of(o).len() >= 5
            &&& args_of(o)[1] == "ba/b"@
            &&& args_of(o)[2] == "-x"@
            &&& args_of(o)[3] == "--audio-format"@
            &&& args_of(o)[4] == codec
        },
{
}

/// Whether one vector is another with a group of arguments put in at one place.
#[verifier::opaque]
pub open spec fn adds(more: Seq<Seq<char>>, less: Seq<Seq<char>>, group: Seq<Seq<char>>) -> bool {
    exists|k: int|
        0 <= k <= less.len() && more == (#[trigger] less.take(k)) + group + less.skip(k)
}

/// Whether two vectors are the same.
pub open spec fn is_same(a: Seq<Seq<char>>, b: Seq<Seq<char>>) -> bool {
    a == b
}

/// Groups of arguments, one behind the other.
spec fn in_a_row(groups: Seq<Seq<Seq<char>>>) -> Seq<Seq<char>>
    decreases groups.len(),
{
    if groups.len() == 0 {
        Seq::empty()
    } else {
        in_a_row(groups.drop_last()) + groups.last()
    }
}

/// The arguments in their groups, one for each option.
spec fn groups_of(o: OptionsView) -> Seq<Seq<Seq<char>>> {
    seq![
        format_args(o),
        flag_value("--merge-output-format"@, o.container),
        seq!["-o"@, o.output_template],
        flag_value("-P"@, set_dir(o)),
        subtitle_args(o),
        flag_if("--embed-thumbnail"@, o.embed_thumbnail),
        flag_if("--embed-metadata"@, o.embed_metadata),
        flag_value("--sponsorblock-remove"@, o.sponsorblock_remove),
        flag_value("-r"@, o.rate_limit),
        flag_value("-N"@, fragment_count(o)),
        flag_value("--cookies-from-browser"@, o.cookies_from_browser),
        flag_value("--download-archive"@, archive_path(o)),
        seq!["--retries"@, decimal(o.retries as nat)],
        o.extra_args,
    ]
}

proof fn lemma_row_step(groups: Seq<Seq<Seq<char>>>, i: int)
    requires
        0 <= i < groups.len(),
    ensures
        in_a_row(groups.take(i + 1)) == in_a_row(groups.take(i)) + groups[i],
{
    assert(groups.take(i + 1).drop_last() =~= groups.take(i));
}

proof fn lemma_args_in_groups(o: OptionsView)
    ensures
        args_of(o) == in_a_row(groups_of(o)),
{
    let g = groups_of(o);
    lemma_row_step(g, 0);
    assert(g.take(0) =~= Seq::empty());
    assert(in_a_row(g.take(1)) =~= format_args(o));
    lemma_row_step(g, 1);
    lemma_row_step(g, 2);
    lemma_row_step(g, 3);
    lemma_row_step(g, 4);
    lemma_row_step(g, 5);
    lemma_row_step(g, 6);
    lemma_row_step(g, 7);
    lemma_row_step(g, 8);
    lemma_row_step(g, 9);
    lemma_row_step(g, 10);
    lemma_row_step(g, 11);
    lemma_row_step(g, 12);
    lemma_row_step(g, 13);
    assert(g.take(14) =~= g);
}

/// What a group gains at its end, the whole row gains at one place.
proof fn lemma_row_adds(groups: Seq<Seq<Seq<char>>>, i: int, kept: Seq<Seq<char>>, more: Seq<Seq<char>>)
    requires
        0 <= i < groups.len(),
    ensures
        adds(
            in_a_row(groups.update(i, kept + more)),
            in_a_row(groups.update(i, kept)),
            more,
        ),
    decreases groups.len(),
{
    reveal(adds);
    let x = groups.update(i, kept + more);
    let y = groups.update(i, kept);
    let rest = groups.drop_last();
    if i == groups.len() - 1 {
        let head = in_a_row(rest);
        assert(x.drop_last() =~= rest);
        assert(y.drop_last() =~= rest);
        let less = head + kept;
        let k = less.len() as int;
        assert(less.take(k) =~= less);
        assert(less.skip(k) =~= Seq::empty());
        assert(head + (kept + more) =~= less.take(k) + more + less.skip(k));
    } else {
        lemma_row_adds(rest, i, kept, more);
        assert(x.drop_last() =~= rest.update(i, kept + more));
        assert(y.drop_last() =~= rest.update(i, kept));
        let (a, b) = (in_a_row(rest.update(i, kept + more)), in_a_row(rest.update(i, kept)));
        let last = groups.last();
        let k = choose|k: int|
            0 <= k <= b.len() && a == (#[trigger] b.take(k)) + more + b.skip(k);
        let less = b + last;
        assert(less.take(k) =~= b.take(k));
        assert(less.skip(k) =~= b.skip(k) + last);
        assert(a + last =~= less.take(k) + more + less.skip(k));
    }
}

/// Two sets of options that differ in one group, which the first has more of.
proof fn lemma_options_add(
    more: OptionsView,
    less: OptionsView,
    i: int,
    kept: Seq<Seq<char>>,
    group: Seq<Seq<char>>,
)
    requires
        0 <= i < 14,
        groups_of(less)[i] == kept,
        groups_of(more)[i] == kept + group,
        i == 0 || groups_of(more)[0] == groups_of(less)[0],
        i == 1 || groups_of(more)[1] == groups_of(less)[1],
        i == 2 || groups_of(more)[2] == groups_of(less)[2],
        i == 3 || groups_of(more)[3] == groups_of(less)[3],
        i == 4 || groups_of(more)[4] == groups_of(less)[4],
        i == 5 || groups_of(more)[5] == groups_of(less)[5],
        i == 6 || groups_of(more)[6] == groups_of(less)[6],
        i == 7 || groups_of(more)[7] == groups_of(less)[7],
        i == 8 || groups_of(more)[8] == groups_of(less)[8],
        i == 9 || groups_of(more)[9] == groups_of(less)[9],
        i == 10 || groups_of(more)[10] == groups_of(less)[10],
        i == 11 || groups_of(more)[11] == groups_of(less)[11],
        i == 12 || groups_of(more)[12] == groups_of(less)[12],
        i == 13 || groups_of(more)[13] == groups_of(less)[13],
    ensures
        adds(args_of(more), args_of(less), group),
{
    let (g, h) = (groups_of(more), groups_of(less));
    lemma_args_in_groups(more);
    lemma_args_in_groups(less);
    assert(g.len() == 14 && h.len() == 14);
    assert(g =~= h.update(i, kept + group));
    assert(h =~= h.update(i, kept));
    lemma_row_adds(h, i, kept, group);
}

/// The options with everything off that can be off: a best download, named by a
/// template, attempted so many times.
pub open spec fn plain_options(o: OptionsView) -> OptionsView {
    OptionsView {
        format: FormatView::BestVideoAudio,
        max_height: None,
        container: None,
        output_template: o.output_template,
        download_dir: Seq::<char>::empty(),
        subtitle_langs: Seq::<Seq<char>>::empty(),
        embed_subs: false,
        embed_thumbnail: false,
        embed_metadata: false,
        sponsorblock_remove: None,
        rate_limit: None,
        concurrent_fragments: 1,
        cookies_from_browser: None,
        download_archive: false,
        retries: o.retries,
        extra_args: Seq::<Seq<char>>::empty(),
    }
}

/// With everything off, the selector, the template and the number of attempts are
/// all that is passed.
pub proof fn lemma_plain_options_pass_three_pairs(o: OptionsView)
    ensures
        args_of(plain_options(o)) == seq![
            "-f"@,
            "bv*+ba/b"@,
            "-o"@,
            o.output_template,
            "--retries"@,
            decimal(o.retries as nat),
        ],
{
    let a = args_of(plain_options(o));
    assert(a =~= seq![
        "-f"@,
        "bv*+ba/b"@,
        "-o"@,
        o.output_template,
        "--retries"@,
        decimal(o.retries as nat),
    ]);
}

/// A container adds its own flag and value to what is passed without it, and nothing
/// else changes.
pub proof fn lemma_container_adds_its_flag(o: OptionsView, v: Seq<char>)
    ensures
        adds(
            args_of(OptionsView { container: Some(v), ..o }),
            args_of(OptionsView { container: None, ..o }),
            seq!["--merge-output-format"@, v],
        ),
{
    let group = seq!["--merge-output-format"@, v];
    let kept = Seq::<Seq<char>>::empty();
    assert(Seq::<Seq<char>>::empty() + group =~= group);
    lemma_options_add(OptionsView { container: Some(v), ..o }, OptionsView { container: None, ..o }, 1, kept, group);
}

/// The segments to cut out add their own flag and value, and nothing else changes.
pub proof fn lemma_sponsorblock_adds_its_flag(o: OptionsView, v: Seq<char>)
    ensures
        adds(
            args_of(OptionsView { sponsorblock_remove: Some(v), ..o }),
            args_of(OptionsView { sponsorblock_remove: None, ..o }),
            seq!["--sponsorblock-remove"@, v],
        ),
{
    let group = seq!["--sponsorblock-remove"@, v];
    let kept = Seq::<Seq<char>>::empty();
    assert(Seq::<Seq<char>>::empty() + group =~= group);
    lemma_options_add(OptionsView { sponsorblock_remove: Some(v), ..o }, OptionsView { sponsorblock_remove: None, ..o }, 7, kept, group);
}

/// A rate limit adds its own flag and value, and nothing else changes.
pub proof fn lemma_rate_limit_adds_its_flag(o: OptionsView, v: Seq<char>)
    ensures
        adds(
            args_of(OptionsView { rate_limit: Some(v), ..o }),
            args_of(OptionsView { rate_limit: None, ..o }),
            seq!["-r"@, v],
        ),
{
    let group = seq!["-r"@, v];
    let kept = Seq::<Seq<char>>::empty();
    assert(Seq::<Seq<char>>::empty() + group =~= group);
    lemma_options_add(OptionsView { rate_limit: Some(v), ..o }, OptionsView { rate_limit: None, ..o }, 8, kept, group);
}

/// The browser to take cookies from adds its own flag and value, and nothing else
/// changes.
pub proof fn lemma_cookies_add_their_flag(o: OptionsView, v: Seq<char>)
    ensures
        adds(
            args_of(OptionsView { cookies_from_browser: Some(v), ..o }),
            args_of(OptionsView { cookies_from_browser: None, ..o }),
            seq!["--cookies-from-browser"@, v],
        ),
{
    let group = seq!["--cookies-from-browser"@, v];
    let kept = Seq::<Seq<char>>::empty();
    assert(Seq::<Seq<char>>::empty() + group =~= group);
    lemma_options_add(OptionsView { cookies_from_browser: Some(v), ..o }, OptionsView { cookies_from_browser: None, ..o }, 10, kept, group);
}

/// A directory adds its own flag and value, and nothing else changes while no archive
/// is kept.
pub proof fn lemma_directory_adds_its_flag(o: OptionsView, v: Seq<char>)
    requires
        v.len() > 0,
        !o.download_archive,
    ensures
        adds(
            args_of(OptionsView { download_dir: v, ..o }),
            args_of(OptionsView { download_dir: Seq::empty(), ..o }),
            seq!["-P"@, v],
        ),
{
    let group = seq!["-P"@, v];
    let kept = Seq::<Seq<char>>::empty();
    assert(Seq::<Seq<char>>::empty() + group =~= group);
    lemma_options_add(OptionsView { download_dir: v, ..o }, OptionsView { download_dir: Seq::empty(), ..o }, 3, kept, group);
}

/// An archive is kept in the directory, and nothing else changes.
pub proof fn lemma_archive_adds_its_flag(o: OptionsView)
    requires
        o.download_dir.len() > 0,
    ensures
        adds(
            args_of(OptionsView { download_archive: true, ..o }),
            args_of(OptionsView { download_archive: false, ..o }),
            seq!["--download-archive"@, o.download_dir + "/archive.txt"@],
        ),
{
    let group = seq!["--download-archive"@, o.download_dir + "/archive.txt"@];
    let kept = Seq::<Seq<char>>::empty();
    assert(Seq::<Seq<char>>::empty() + group =~= group);
    lemma_options_add(OptionsView { download_archive: true, ..o }, OptionsView { download_archive: false, ..o }, 11, kept, group);
}

/// An embedded thumbnail adds its own flag, and nothing else changes.
pub proof fn lemma_thumbnail_adds_its_flag(o: OptionsView)
    ensures
        adds(
            args_of(OptionsView { embed_thumbnail: true, ..o }),
            args_of(OptionsView { embed_thumbnail: false, ..o }),
            seq!["--embed-thumbnail"@],
        ),
{
    let group = seq!["--embed-thumbnail"@];
    let kept = Seq::<Seq<char>>::empty();
    assert(Seq::<Seq<char>>::empty() + group =~= group);
    lemma_options_add(OptionsView { embed_thumbnail: true, ..o }, OptionsView { embed_thumbnail: false, ..o }, 5, kept, group);
}

/// Embedded metadata adds its own flag, and nothing else changes.
pub proof fn lemma_metadata_adds_its_flag(o: OptionsView)
    ensures
        adds(
            args_of(OptionsView { embed_metadata: true, ..o }),
            args_of(OptionsView { embed_metadata: false, ..o }),
            seq!["--embed-metadata"@],
        ),
{
    let group = seq!["--embed-metadata"@];
    let kept = Seq::<Seq<char>>::empty();
    assert(Seq::<Seq<char>>::empty() + group =~= group);
    lemma_options_add(OptionsView { embed_metadata: true, ..o }, OptionsView { embed_metadata: false, ..o }, 6, kept, group);
}

/// Subtitles add their flags and their languages with commas between, and nothing else
/// changes.
pub proof fn lemma_subtitles_add_their_flags(o: OptionsView, langs: Seq<Seq<char>>)
    requires
        langs.len() > 0,
    ensures
        adds(
            args_of(OptionsView { subtitle_langs: langs, embed_subs: false, ..o }),
            args_of(OptionsView { subtitle_langs: Seq::empty(), embed_subs: false, ..o }),
            seq!["--write-subs"@, "--sub-langs"@, join_spec(langs, ","@)],
        ),
{
    let group = seq!["--write-subs"@, "--sub-langs"@, join_spec(langs, ","@)];
    let kept = Seq::<Seq<char>>::empty();
    assert(Seq::<Seq<char>>::empty() + group =~= group);
    assert(group + Seq::<Seq<char>>::empty() =~= group);
    lemma_options_add(OptionsView { subtitle_langs: langs, embed_subs: false, ..o }, OptionsView { subtitle_langs: Seq::empty(), embed_subs: false, ..o }, 4, kept, group);
}

/// Subtitles that are embedded add a flag of their own, and nothing else changes.
pub proof fn lemma_embedded_subtitles_add_their_flag(o: OptionsView)
    requires
        o.subtitle_langs.len() > 0,
    ensures
        adds(
            args_of(OptionsView { embed_subs: true, ..o }),
            args_of(OptionsView { embed_subs: false, ..o }),
            seq!["--embed-subs"@],
        ),
{
    let group = seq!["--embed-subs"@];
    let kept = seq!["--write-subs"@, "--sub-langs"@, join_spec(o.subtitle_langs, ","@)];
    assert(Seq::<Seq<char>>::empty() + group =~= group);
    assert(kept + Seq::<Seq<char>>::empty() =~= kept);
    lemma_options_add(OptionsView { embed_subs: true, ..o }, OptionsView { embed_subs: false, ..o }, 4, kept, group);
}

/// More than one fragment at a time adds the number, and nothing else changes.
pub proof fn lemma_fragments_add_their_flag(o: OptionsView, n: u8)
    requires
        n > 1,
    ensures
        adds(
            args_of(OptionsView { concurrent_fragments: n, ..o }),
            args_of(OptionsView { concurrent_fragments: 1, ..o }),
            seq!["-N"@, decimal(n as nat)],
        ),
{
    let group = seq!["-N"@, decimal(n as nat)];
    let kept = Seq::<Seq<char>>::empty();
    assert(Seq::<Seq<char>>::empty() + group =~= group);
    lemma_options_add(OptionsView { concurrent_fragments: n, ..o }, OptionsView { concurrent_fragments: 1, ..o }, 9, kept, group);
}

/// Options that ask for nothing pass nothing: an archive with no directory to keep it
/// in, embedded subtitles without a language, one fragment at a time.
pub proof fn lemma_idle_options_pass_nothing(o: OptionsView, archive: bool, embed: bool, n: u8)
    ensures
        o.download_dir.len() == 0 ==> is_same(
            args_of(OptionsView { download_archive: archive, ..o }),
            args_of(o),
        ),
        o.subtitle_langs.len() == 0 ==> is_same(
            args_of(OptionsView { embed_subs: embed, ..o }),
            args_of(o),
        ),
        n <= 1 && o.concurrent_fragments <= 1 ==> is_same(
            args_of(OptionsView { concurrent_fragments: n, ..o }),
            args_of(o),
        ),
{
}

proof fn lemma_first_group_leads(groups: Seq<Seq<Seq<char>>>)
    requires
        groups.len() > 0,
    ensures
        in_a_row(groups) == groups[0] + in_a_row(groups.skip(1)),
    decreases groups.len(),
{
    if groups.len() == 1 {
        assert(groups.drop_last() =~= Seq::empty());
        assert(groups.skip(1) =~= Seq::empty());
        assert(in_a_row(groups) =~= groups[0] + in_a_row(groups.skip(1)));
    } else {
        lemma_first_group_leads(groups.drop_last());
        assert(groups.drop_last().skip(1) =~= groups.skip(1).drop_last());
        assert(in_a_row(groups) =~= groups[0] + in_a_row(groups.skip(1)));
    }
}

/// The choice of a format changes nothing but the arguments that choose it.
pub proof fn lemma_format_concerns_the_selector_alone(o: OptionsView, sel: Seq<char>, codec: Seq<char>)
    ensures
        ({
            let best = args_of(OptionsView { format: FormatView::BestVideoAudio, ..o });
            let own = args_of(OptionsView { format: FormatView::Custom(sel), ..o });
            let audio = args_of(OptionsView { format: FormatView::AudioOnly { codec }, ..o });
            &&& own == best.update(1, sel)
            &&& audio == seq!["-f"@, "ba/b"@, "-x"@, "--audio-format"@, codec] + best.skip(2)
        }),
{
    let best = args_of(OptionsView { format: FormatView::BestVideoAudio, ..o });
    let own = args_of(OptionsView { format: FormatView::Custom(sel), ..o });
    let audio = args_of(OptionsView { format: FormatView::AudioOnly { codec }, ..o });
    let gb = groups_of(OptionsView { format: FormatView::BestVideoAudio, ..o });
    let go = groups_of(OptionsView { format: FormatView::Custom(sel), ..o });
    let ga = groups_of(OptionsView { format: FormatView::AudioOnly { codec }, ..o });
    let tail = in_a_row(gb.skip(1));
    assert(go.skip(1) =~= gb.skip(1));
    assert(ga.skip(1) =~= gb.skip(1));
    lemma_args_in_groups(OptionsView { format: FormatView::BestVideoAudio, ..o });
    lemma_args_in_groups(OptionsView { format: FormatView::Custom(sel), ..o });
    lemma_args_in_groups(OptionsView { format: FormatView::AudioOnly { codec }, ..o });
    lemma_first_group_leads(gb);
    lemma_first_group_leads(go);
    lemma_first_group_leads(ga);
    assert(best.skip(2) =~= tail);
    assert(own =~= best.update(1, sel));
}

/// A cap on the resolution does not leak into an audio-only run: whatever the
/// cap, the arguments are the same.
pub proof fn lemma_audio_ignores_height(o: OptionsView, height: Option<u32>)
    requires
        o.format is AudioOnly,
    ensures
        args_of(OptionsView { max_height: height, ..o }) == args_of(o),
{
}

/// Every download run ignores the user's global config, has both flags that
/// undo what `--print` implies, and ends with the URL.
pub proof fn lemma_download_args_shape(url: Seq<char>, o: OptionsView)
    ensures
        download_args_spec(url, o).last() == url,
        download_args_spec(url, o)[0] == "--ignore-config"@,
        download_args_spec(url, o).contains("--no-simulate"@),
        download_args_spec(url, o).contains("--progress"@),
        download_args_spec(url, o).contains("--print"@),
{
    let a = download_args_spec(url, o);
    assert(a[4] == "--no-simulate"@);
    assert(a[5] == "--progress"@);
    assert(a[9] == "--print"@);
}

/// Whether a flag and its value stand side by side.
pub open spec fn passes(a: Seq<Seq<char>>, flag: Seq<char>, value: Seq<char>) -> bool {
    exists|i: int| 0 <= i < a.len() - 1 && #[trigger] a[i] == flag && a[i + 1] == value
}

/// Every download run passes the arguments of its options, uncoloured and in UTF-8,
/// reports its progress line by line, each video and each finished file under the
/// markers that its output is read by, and writes the covers and the metadata beside
/// the files.
pub proof fn lemma_download_reports_what_is_read(url: Seq<char>, o: OptionsView)
    ensures
        ({
            let a = download_args_spec(url, o);
            let n = args_of(o).len() as int;
            &&& a.len() == 16 + n
            &&& a.subrange(15, 15 + n) == args_of(o)
            &&& a.contains("--no-color"@)
            &&& passes(a, "--encoding"@, "utf-8"@)
            &&& a.contains("--newline"@)
            &&& passes(a, "--progress-template"@, "download:"@ + PROGRESS_PREFIX@ + " %(progress)j"@)
            &&& passes(
                a,
                "--print"@,
                "video:"@ + INFO_PREFIX@
                    + " %(.{id,title,duration,thumbnail,webpage_url,playlist_index})j"@,
            )
            &&& passes(a, "--print"@, "after_move:"@ + FILE_PREFIX@ + " %(filepath)s"@)
            &&& a.contains("--write-info-json"@)
            &&& a.contains("--write-thumbnail"@)
        }),
{
    let a = download_args_spec(url, o);
    let n = args_of(o).len() as int;
    assert(a.subrange(15, 15 + n) =~= args_of(o));
    assert(a[1] == "--no-color"@);
    assert(a[2] == "--encoding"@ && a[3] == "utf-8"@);
    assert(a[6] == "--newline"@);
    assert(a[7] == "--progress-template"@);
    assert(a[8] == "download:"@ + PROGRESS_PREFIX@ + " %(progress)j"@);
    assert(a[9] == "--print"@);
    assert(a[10] == "video:"@ + INFO_PREFIX@
        + " %(.{id,title,duration,thumbnail,webpage_url,playlist_index})j"@);
    assert(a[11] == "--print"@);
    assert(a[12] == "after_move:"@ + FILE_PREFIX@ + " %(filepath)s"@);
    assert(a[13] == "--write-info-json"@);
    assert(a[14] == "--write-thumbnail"@);
}

/// The user's own arguments stand together right before the URL, after every
/// argument of the preset, so that a repeated option there wins.
pub proof fn lemma_extra_args_come_last(url: Seq<char>, o: OptionsView)
    ensures
        ({
            let a = download_args_spec(url, o);
            let n = o.extra_args.len() as int;
            a.subrange(a.len() - 1 - n, a.len() - 1) == o.extra_args
        }),
{
    let a = download_args_spec(url, o);
    let n = o.extra_args.len() as int;
    assert(a.subrange(a.len() - 1 - n, a.len() - 1) =~= o.extra_args);
}

/// A probe ignores the user's global config too, and ends with the URL.
pub proof fn lemma_probe_args_shape(url: Seq<char>)
    ensures
        probe_args_spec(url).last() == url,
        probe_args_spec(url)[0] == "--ignore-config"@,
        probe_args_spec(url).contains("-J"@),
        probe_args_spec(url).contains("--flat-playlist"@),
        probe_args_spec(url).contains("--no-color"@),
        probe_args_spec(url).contains("--no-warnings"@),
        probe_args_spec(url).contains("--no-progress"@),
        passes(probe_args_spec(url), "--encoding"@, "utf-8"@),
        probe_args_spec(url).len() == 9,
{
    let a = probe_args_spec(url);
    assert(a[1] == "--no-color"@);
    assert(a[2] == "--encoding"@ && a[3] == "utf-8"@);
    assert(a[4] == "-J"@);
    assert(a[5] == "--flat-playlist"@);
    assert(a[6] == "--no-warnings"@);
    assert(a[7] == "--no-progress"@);
}

// ---------------------------------------------------------------------------
// Output to events
// ---------------------------------------------------------------------------

/// One progress object.
///
/// Every field is optional: yt-dlp omits keys depending on the downloader in
/// use, and a missing one must not wedge a progress bar at zero.
#[derive(Debug, PartialEq)]
pub struct Progress {
    pub status: Option<String>,
    pub downloaded_bytes: Option<u64>,
    pub total_bytes: Option<u64>,
    pub total_bytes_estimate: Option<Double>,
    pub speed: Option<Double>,
    pub eta: Option<Double>,
    pub filename: Option<String>,
    pub fragment_index: Option<u64>,
    pub fragment_count: Option<u64>,
}

/// What the downloaded bytes are measured against.
#[derive(Debug, Clone, Copy, PartialEq, Eq, Structural)]
pub enum Total {
    Exact(u64),
    Estimate(Double),
}

impl Progress {
    /// The total to measure by: the exact one where it is above zero, else an
    /// estimate above zero, else none.
    pub open spec fn total_spec(self) -> Option<Total> {
        if self.total_bytes is Some && self.total_bytes->0 > 0 {
            Some(Total::Exact(self.total_bytes->0))
        } else if self.total_bytes_estimate is Some && self.total_bytes_estimate->0.positive() {
            Some(Total::Estimate(self.total_bytes_estimate->0))
        } else {
            None
        }
    }

    /// The bytes downloaded and the total they are measured against. `None`
    /// where the size is unknown (live streams, some segmented ones): such a
    /// download must not be drawn as complete.
    pub fn measure(&self) -> (r: Option<(u64, Total)>)
        ensures
            r == (if self.downloaded_bytes is Some && self.total_spec() is Some {
                Some((self.downloaded_bytes->0, self.total_spec()->0))
            } else {
                None
            }),
    {
        match self.downloaded_bytes {
            None => None,
            Some(done) => {
                match self.total_bytes {
                    Some(t) => {
                        if t > 0 {
                            return Some((done, Total::Exact(t)));
                        }
                    },
                    None => {},
                }
                match self.total_bytes_estimate {
                    Some(e) => {
                        if e.is_positive() {
                            return Some((done, Total::Estimate(e)));
                        }
                    },
                    None => {},
                }
                None
            },
        }
    }

    /// Whether the transfer is over.
    pub fn is_finished(&self) -> (r: bool)
        ensures
            r == (opt(self.status) == Some("finished"@)),
    {
        match &self.status {
            Some(status) => same(status.as_str(), "finished"),
            None => false,
        }
    }
}

/// Metadata emitted once per video.
#[derive(Debug, PartialEq)]
pub struct InfoLine {
    pub id: Option<String>,
    pub title: Option<String>,
    pub duration: Option<Double>,
    pub thumbnail: Option<String>,
    pub webpage_url: Option<String>,
    pub playlist_index: Option<i64>,
}

/// What one line of output reports.
#[derive(Debug, PartialEq)]
pub enum Event {
    Progress(Progress),
    Info(InfoLine),
    /// A finished output file, at its final place.
    File(String),
    /// Anything unrecognised, kept for the tail of a failure's log.
    Log(String),
}

/// One line of output, before its payload is read.
#[derive(Debug, PartialEq)]
pub enum Line {
    /// A progress object: what follows the marker.
    Progress(String),
    /// A video's metadata: what follows the marker.
    Info(String),
    /// A finished file's path.
    File(String),
    /// Any other line.
    Log(String),
}

/// The value of a `Line`.
pub enum LineView {
    Progress(Seq<char>),
    Info(Seq<char>),
    File(Seq<char>),
    Log(Seq<char>),
}

impl View for Line {
    type V = LineView;

    open spec fn view(&self) -> LineView {
        match self {
            Line::Progress(s) => LineView::Progress(s@),
            Line::Info(s) => LineView::Info(s@),
            Line::File(s) => LineView::File(s@),
            Line::Log(s) => LineView::Log(s@),
        }
    }
}

/// `s` without carriage returns and newlines at its end.
pub open spec fn without_line_end(s: Seq<char>) -> Seq<char>
    decreases s.len(),
{
    if s.len() > 0 && (s.last() == '\r' || s.last() == '\n') {
        without_line_end(s.drop_last())
    } else {
        s
    }
}

/// Which kind of line `line` is: the first marker that it begins with decides.
pub open spec fn classified(line: Seq<char>) -> LineView {
    let l = without_line_end(line);
    if has_prefix(l, PROGRESS_PREFIX@) {
        LineView::Progress(l.skip(PROGRESS_PREFIX@.len() as int))
    } else if has_prefix(l, INFO_PREFIX@) {
        LineView::Info(l.skip(INFO_PREFIX@.len() as int))
    } else if has_prefix(l, FILE_PREFIX@) {
        LineView::File(trim_spec(l.skip(FILE_PREFIX@.len() as int)))
    } else {
        LineView::Log(l)
    }
}

fn strip_line_end(line: &str) -> (r: String)
    ensures
        r@ == without_line_end(line@),
{
    let chars: Vec<char> = chars_of(line);
    let mut end: usize = chars.len();
    assert(chars@.take(end as int) =~= line@);
    while end > 0 && (chars[end - 1] == '\r' || chars[end - 1] == '\n')
        invariant
            end <= chars@.len(),
            without_line_end(line@) == without_line_end(chars@.take(end as int)),
        decreases end,
    {
        assert(chars@.take(end as int).drop_last() =~= chars@.take(end - 1));
        assert(chars@.take(end as int).last() == chars@[end - 1]);
        end = end - 1;
    }
    let r: String = string_range(&chars, 0, end);
    assert(r@ =~= chars@.take(end as int));
    proof {
        if end > 0 {
            assert(r@.last() == chars@[end - 1]);
        }
    }
    r
}

/// Classifies one line of yt-dlp's output.
pub fn classify_line(line: &str) -> (r: Line)
    ensures
        r@ == classified(line@),
{
    let line: String = strip_line_end(line);
    match strip_prefix(line.as_str(), PROGRESS_PREFIX) {
        Some(rest) => {
            return Line::Progress(rest);
        },
        None => {},
    }
    match strip_prefix(line.as_str(), INFO_PREFIX) {
        Some(rest) => {
            return Line::Info(rest);
        },
        None => {},
    }
    match strip_prefix(line.as_str(), FILE_PREFIX) {
        Some(rest) => {
            return Line::File(trim(rest.as_str()));
        },
        None => {},
    }
    Line::Log(line)
}

/// The JSON text of a line's payload.
pub fn payload(rest: &str) -> (r: String)
    ensures
        r@ == trim_spec(rest@),
{
    trim(rest)
}

/// The text logged for a payload that could not be read.
pub open spec fn unparsed(what: Seq<char>, error: Seq<char>, rest: Seq<char>) -> Seq<char> {
    "unparsed "@ + what + " ("@ + error + "): "@ + rest
}

fn unparsed_text(what: &str, error: &str, rest: &str) -> (r: String)
    ensures
        r@ == unparsed(what@, error@, rest@),
{
    let mut out: String = concat3("unparsed ", what, " (");
    out.append(error);
    out.append("): ");
    out.append(rest);
    out
}

/// The event for a progress line, given what reading its payload gave.
///
/// An unreadable payload degrades to a log entry: it must never abort a
/// download that is working.
pub fn progress_event(rest: &str, read: Result<Progress, String>) -> (r: Event)
    ensures
        match read {
            Ok(p) => r == Event::Progress(p),
            Err(e) => r matches Event::Log(m) && m@ == unparsed("progress"@, e@, rest@),
        },
{
    match read {
        Ok(p) => Event::Progress(p),
        Err(e) => Event::Log(unparsed_text("progress", e.as_str(), rest)),
    }
}

/// The event for a metadata line, given what reading its payload gave.
pub fn info_event(rest: &str, read: Result<InfoLine, String>) -> (r: Event)
    ensures
        match read {
            Ok(i) => r == Event::Info(i),
            Err(e) => r matches Event::Log(m) && m@ == unparsed("info"@, e@, rest@),
        },
{
    match read {
        Ok(i) => Event::Info(i),
        Err(e) => Event::Log(unparsed_text("info", e.as_str(), rest)),
    }
}

/// A line that carries none of the markers reaches the log as it is, without
/// its line ending.
pub proof fn lemma_unmarked_line_is_logged(line: Seq<char>)
    requires
        !has_prefix(line, PROGRESS_PREFIX@),
        !has_prefix(line, INFO_PREFIX@),
        !has_prefix(line, FILE_PREFIX@),
        line.len() > 0 ==> line.last() != '\r' && line.last() != '\n',
    ensures
        classified(line) == LineView::Log(line),
{
}

/// A line under a marker is told by it, with what follows: the payload of a progress
/// object or of metadata as it stands, the path of a file without the blanks around
/// it. What ends a line is no part of it.
pub proof fn lemma_marked_lines_are_told_apart(rest: Seq<char>, end: Seq<char>)
    requires
        rest.len() > 0 ==> rest.last() != '\r' && rest.last() != '\n',
        forall|i: int| 0 <= i < end.len() ==> #[trigger] end[i] == '\r' || end[i] == '\n',
    ensures
        classified(PROGRESS_PREFIX@ + rest + end) == LineView::Progress(rest),
        classified(INFO_PREFIX@ + rest + end) == LineView::Info(rest),
        classified(FILE_PREFIX@ + rest + end) == LineView::File(trim_spec(rest)),
{
    reveal_strlit("RDLP_PROG");
    reveal_strlit("RDLP_INFO");
    reveal_strlit("RDLP_FILE");
    let p = PROGRESS_PREFIX@;
    let i = INFO_PREFIX@;
    let f = FILE_PREFIX@;
    assert(p.len() == 9 && i.len() == 9 && f.len() == 9);
    assert(p[5] == 'P' && i[5] == 'I' && f[5] == 'F');
    assert(p.last() == 'G' && i.last() == 'O' && f.last() == 'E');
    lemma_line_end_goes(p + rest, end);
    lemma_line_end_goes(i + rest, end);
    lemma_line_end_goes(f + rest, end);
    assert((p + rest).take(9) =~= p);
    assert((i + rest).take(9) =~= i);
    assert((f + rest).take(9) =~= f);
    assert((p + rest).skip(9) =~= rest);
    assert((i + rest).skip(9) =~= rest);
    assert((f + rest).skip(9) =~= rest);
}

proof fn lemma_line_end_goes(line: Seq<char>, end: Seq<char>)
    requires
        line.len() > 0 ==> line.last() != '\r' && line.last() != '\n',
        forall|i: int| 0 <= i < end.len() ==> #[trigger] end[i] == '\r' || end[i] == '\n',
    ensures
        without_line_end(line + end) == line,
    decreases end.len(),
{
    if end.len() == 0 {
        assert(line + end =~= line);
    } else {
        let rest = end.drop_last();
        assert((line + end).drop_last() =~= line + rest);
        assert((line + end).last() == end[end.len() - 1]);
        assert forall|i: int| 0 <= i < rest.len() implies #[trigger] rest[i] == '\r' || rest[i]
            == '\n' by {
            assert(rest[i] == end[i]);
        }
        lemma_line_end_goes(line, rest);
    }
}

/// The exact size is measured by where it is known, an estimate only where it is
/// not, and a size of zero or less is none.
pub proof fn lemma_exact_size_comes_first(p: Progress)
    ensures
        p.total_bytes is Some && p.total_bytes->0 > 0 ==> p.total_spec() == Some(
            Total::Exact(p.total_bytes->0),
        ),
        !(p.total_bytes matches Some(n) && n > 0) ==> match p.total_bytes_estimate {
            Some(e) => p.total_spec() == (if 0 < e.bits <= 0x7ff0_0000_0000_0000 {
                Some(Total::Estimate(e))
            } else {
                None
            }),
            None => p.total_spec() is None,
        },
{
}

/// What asks for nothing in particular fetches the best there is, under the title
/// and the id, ten attempts, one fragment at a time, with every extra off.
pub proof fn lemma_defaults_ask_for_nothing(o: OptionsView)
    requires
        o == default_options_view(),
    ensures
        args_of(o) == seq![
            "-f"@,
            "bv*+ba/b"@,
            "-o"@,
            "%(title)s [%(id)s].%(ext)s"@,
            "--retries"@,
            decimal(10),
        ],
        o == plain_options(o),
{
    lemma_plain_options_pass_three_pairs(o);
    assert(o =~= plain_options(o));
}

/// A number is above zero, below it, zero, or none at all, and never two of these: the sign
/// is the highest bit, and what lies beyond infinity is no number.
pub proof fn lemma_signs_of_numbers(d: Double)
    ensures
        ({
            let sign = d.bits >= 0x8000_0000_0000_0000;
            let size = d.bits % 0x8000_0000_0000_0000;
            let number = size <= 0x7ff0_0000_0000_0000;
            &&& d.positive() <==> number && size > 0 && !sign
            &&& d.negative() <==> number && size > 0 && sign
            &&& d.countable() <==> number && (size == 0 || !sign)
        }),
{
}

/// The marks that lines of output are told by, and what is logged of a line that could not
/// be read.
pub proof fn lemma_marks_of_the_lines(what: Seq<char>, error: Seq<char>, rest: Seq<char>)
    ensures
        PROGRESS_PREFIX@ == "RDLP_PROG"@,
        INFO_PREFIX@ == "RDLP_INFO"@,
        FILE_PREFIX@ == "RDLP_FILE"@,
        unparsed(what, error, rest) == "unparsed "@ + what + " ("@ + error + "): "@ + rest,
{
}

} // verus!

//! Pictures that come with the application, and what a box can show.

use vstd::prelude::*;

use crate::media::frame_len;
use crate::text::{deep, has_prefix, lemma_deep_push, owned, same, strip_prefix};

verus! {

/// A file that comes with the application.
#[derive(Debug)]
pub struct Asset {
    pub path: String,
    pub data: Vec<u8>,
}

/// A path and the bytes under it.
#[verifier::ext_equal]
pub struct AssetView {
    pub path: Seq<char>,
    pub data: Seq<u8>,
}

impl View for Asset {
    type V = AssetView;

    open spec fn view(&self) -> AssetView {
        AssetView { path: self.path@, data: self.data@ }
    }
}

/// The bytes under a path: those of the first file that has it.
pub open spec fn under(files: Seq<AssetView>, path: Seq<char>) -> Option<Seq<u8>>
    decreases files.len(),
{
    if files.len() == 0 {
        None
    } else if files[0].path == path {
        Some(files[0].data)
    } else {
        under(files.skip(1), path)
    }
}

/// Reads a file by its path, such as `icons/play.svg`.
pub fn load<'a>(files: &'a Vec<Asset>, path: &str) -> (r: Option<&'a Vec<u8>>)
    ensures
        match r {
            Some(data) => under(deep(files@), path@) == Some(data@),
            None => under(deep(files@), path@) is None,
        },
{
    let mut i: usize = 0;
    assert(deep(files@).skip(0) == deep(files@));
    while i < files.len()
        invariant
            i <= files@.len(),
            under(deep(files@), path@) == under(deep(files@).skip(i as int), path@),
        decreases files@.len() - i,
    {
        assert(deep(files@).skip(i as int)[0] == files@[i as int]@);
        if same(files[i].path.as_str(), path) {
            return Some(&files[i].data);
        }
        assert(deep(files@).skip(i as int).skip(1) == deep(files@).skip(i + 1));
        i = i + 1;
    }
    None
}

/// Where a file is to come from.
pub enum Served<'a> {
    /// Nothing was asked for.
    Nothing,
    Own(&'a Vec<u8>),
    /// It is not among the application's own, and the icon set that comes with the
    /// interface is to be asked.
    Bundled,
}

/// The application's own files, served before those of the icon set.
#[derive(Debug)]
pub struct AppAssets {
    pub own: Vec<Asset>,
}

/// The paths of files that begin with `prefix`.
pub open spec fn listed(files: Seq<AssetView>, prefix: Seq<char>) -> Seq<Seq<char>>
    decreases files.len(),
{
    if files.len() == 0 {
        Seq::empty()
    } else {
        let rest = listed(files.drop_last(), prefix);
        if has_prefix(files.last().path, prefix) {
            rest.push(files.last().path)
        } else {
            rest
        }
    }
}

impl AppAssets {
    /// The application's own files come first. No path at all is no file, whatever
    /// the icon set would make of it.
    pub fn load(&self, path: &str) -> (r: Served<'_>)
        ensures
            match r {
                Served::Nothing => path@.len() == 0,
                Served::Own(data) => path@.len() > 0 && under(deep(self.own@), path@) == Some(
                    data@,
                ),
                Served::Bundled => path@.len() > 0 && under(deep(self.own@), path@) is None,
            },
    {
        if same(path, "") {
            proof {
                reveal_strlit("");
            }
            return Served::Nothing;
        }
        proof {
            reveal_strlit("");
            assert(path@.len() == 0 ==> path@ == ""@);
        }
        match load(&self.own, path) {
            Some(data) => Served::Own(data),
            None => Served::Bundled,
        }
    }

    /// The files below a path: those of the icon set, followed by the application's
    /// own.
    pub fn list(&self, bundled: Vec<String>, path: &str) -> (r: Vec<String>)
        ensures
            deep(r@) == deep(bundled@) + listed(deep(self.own@), path@),
    {
        broadcast use lemma_deep_push;

        let ghost before = deep(bundled@);
        let mut out: Vec<String> = bundled;
        let mut i: usize = 0;
        assert(deep(out@) == before + listed(deep(self.own@).take(0), path@));
        while i < self.own.len()
            invariant
                i <= self.own@.len(),
                deep(out@) == before + listed(deep(self.own@).take(i as int), path@),
            decreases self.own@.len() - i,
        {
            broadcast use lemma_deep_push;

            let ghost own = deep(self.own@);
            assert(own.take(i + 1).drop_last() == own.take(i as int));
            assert(own.take(i + 1).last() == self.own@[i as int]@);
            if strip_prefix(self.own[i].path.as_str(), path).is_some() {
                out.push(owned(self.own[i].path.as_str()));
                assert(deep(out@) == before + listed(own.take(i + 1), path@));
            }
            i = i + 1;
        }
        assert(deep(self.own@).take(i as int) == deep(self.own@));
        out
    }
}

/// What a box shows.
#[derive(Debug)]
pub enum ImageSource {
    /// Four bytes to a pixel, row by row. The number tells this picture from every
    /// other one that is ever shown.
    Rgba { width: u32, height: u32, data: Vec<u8>, id: u64 },
    /// A file on disk.
    Path(String),
}

impl ImageSource {
    /// A picture has as many bytes as its size asks for.
    pub open spec fn wf(self) -> bool {
        match self {
            ImageSource::Rgba { width, height, data, id } => data@.len() == width as int
                * height as int * 4,
            ImageSource::Path(_) => true,
        }
    }

    /// Shows a file on disk.
    pub fn path(path: &str) -> (r: ImageSource)
        ensures
            r.wf(),
            r matches ImageSource::Path(p) && p@ == path@,
    {
        ImageSource::Path(owned(path))
    }

    /// Shows a decoded frame, where it is complete.
    pub fn frame(width: u32, height: u32, data: Vec<u8>, id: u64) -> (r: Option<ImageSource>)
        ensures
            r is Some <==> data@.len() == width as int * height as int * 4,
            r matches Some(image) ==> image.wf() && image == (ImageSource::Rgba {
                width,
                height,
                data,
                id,
            }),
    {
        assert(data.len() == data@.len());
        match frame_len(width, height) {
            Some(len) => if data.len() == len {
                Some(ImageSource::Rgba { width, height, data, id })
            } else {
                None
            },
            None => None,
        }
    }
}

/// A file is served as the first of its path; a path that no file has serves none.
pub proof fn lemma_first_file_of_a_path_is_served(files: Seq<AssetView>, path: Seq<char>, n: int)
    requires
        0 <= n <= files.len(),
        n < files.len() ==> files[n].path == path,
        forall|i: int| 0 <= i < n ==> (#[trigger] files[i]).path != path,
    ensures
        n < files.len() ==> under(files, path) == Some(files[n].data),
        n == files.len() ==> under(files, path) is None,
    decreases files.len(),
{
    if n > 0 {
        let rest = files.skip(1);
        assert(files[0].path != path);
        assert forall|i: int| 0 <= i < n - 1 implies (#[trigger] rest[i]).path != path by {
            assert(rest[i] == files[i + 1]);
        }
        lemma_first_file_of_a_path_is_served(rest, path, n - 1);
    }
}

/// The files below a path are those whose own begins with it, in their order.
pub proof fn lemma_files_below_a_path(files: Seq<AssetView>, prefix: Seq<char>)
    ensures
        listed(files, prefix) == files.map_values(|f: AssetView| f.path).filter(
            |p: Seq<char>|
                prefix.len() <= p.len() && p.subrange(0, prefix.len() as int) == prefix,
        ),
    decreases files.len(),
{
    reveal(Seq::filter);
    if files.len() > 0 {
        lemma_files_below_a_path(files.drop_last(), prefix);
        let paths = files.map_values(|f: AssetView| f.path);
        assert(paths.drop_last() =~= files.drop_last().map_values(|f: AssetView| f.path));
        assert(paths.last() == files.last().path);
    }
}

} // verus!

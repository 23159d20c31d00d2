//! Recordings on disk: which folder entries are captures League wrote,
//! where a capture left as `.webm.tmp` is remuxed to, where it is copied
//! to, and which entries the clip list shows.
use vstd::prelude::*;
use crate::detect::{first_of_each_key, keep, unicode_lowercase, unique_paths};
use crate::paths::{extension, file_name, join, join_path, parent, with_extension};
use crate::text::{
    chars_of, decimal, decimal_vec, ends_with, ends_with_str, eq_str, push_all, push_str, string_of,
};

verus! {

broadcast use vstd::seq_lib::group_seq_properties;

/// The last component of a path, or nothing when it has none.
pub open spec fn name_of(p: Seq<char>) -> Seq<char> {
    match file_name(p) {
        Some(n) => n,
        None => Seq::empty(),
    }
}

/// Whether `n` ends with one of `sufs`.
pub open spec fn ends_with_any(n: Seq<char>, sufs: Seq<Seq<char>>) -> bool {
    exists|k: int| 0 <= k < sufs.len() && ends_with(n, #[trigger] sufs[k])
}

/// The endings of the files a recording leaves: the video, the unfinished
/// video, or a still.
pub open spec fn capture_endings() -> Seq<Seq<char>> {
    seq![".webm"@, ".webm.tmp"@, ".png"@]
}

/// The endings of the files the clip list shows.
pub open spec fn clip_endings() -> Seq<Seq<char>> {
    seq![".webm"@, ".png"@]
}

/// Whether a folder entry is a capture League wrote.
pub open spec fn is_capture(p: Seq<char>) -> bool {
    ends_with_any(name_of(p), capture_endings())
}

/// Whether a folder entry is a clip the list shows.
pub open spec fn is_clip(p: Seq<char>) -> bool {
    ends_with_any(name_of(p), clip_endings())
}

/// Whether a folder entry is an unfinished capture.
pub open spec fn is_leftover(p: Seq<char>) -> bool {
    ends_with(name_of(p), ".webm.tmp"@)
}

/// The last component of a path as text, empty when it has none.
fn name_exec(path: &str) -> (r: Vec<char>)
    ensures
        r@ == name_of(path@),
{
    match crate::paths::file_name_of(path) {
        Some(n) => chars_of(n.as_str()),
        None => Vec::new(),
    }
}

/// Whether the path's name ends with one of `sufs`.
fn ends_with_any_exec(path: &str, sufs: &Vec<&str>) -> (b: bool)
    ensures
        b == ends_with_any(name_of(path@), sufs@.map_values(|s: &str| s@)),
{
    let n = name_exec(path);
    let ghost sv = sufs@.map_values(|s: &str| s@);
    let mut found = false;
    for k in 0..sufs.len()
        invariant
            n@ == name_of(path@),
            sv == sufs@.map_values(|s: &str| s@),
            found == exists|j: int| 0 <= j < k && ends_with(n@, #[trigger] sv[j]),
    {
        if ends_with_str(&n, sufs[k]) {
            found = true;
        }
        assert(sv[k as int] == sufs@[k as int]@);
    }
    found
}

/// The entries whose name ends with one of `sufs`, in order.
pub(crate) fn keep_ending(entries: &Vec<String>, sufs: &Vec<&str>) -> (r: Vec<String>)
    ensures
        r@.map_values(|p: String| p@) == keep(
            entries@.map_values(|p: String| p@),
            |p: Seq<char>| ends_with_any(name_of(p), sufs@.map_values(|s: &str| s@)),
        ),
{
    let ghost sv = sufs@.map_values(|s: &str| s@);
    let ghost f = |p: Seq<char>| ends_with_any(name_of(p), sv);
    let ghost pv = entries@.map_values(|p: String| p@);
    let mut r: Vec<String> = Vec::new();
    for i in 0..entries.len()
        invariant
            pv == entries@.map_values(|p: String| p@),
            sv == sufs@.map_values(|s: &str| s@),
            f == (|p: Seq<char>| ends_with_any(name_of(p), sv)),
            r@.map_values(|p: String| p@) == keep(pv.take(i as int), f),
    {
        let ghost before = r@;
        assert(pv.take(i + 1).drop_last() =~= pv.take(i as int));
        assert(pv.take(i + 1).last() == entries@[i as int]@);
        if ends_with_any_exec(entries[i].as_str(), sufs) {
            r.push(entries[i].clone());
            assert(r@ =~= before.push(entries@[i as int]));
            assert(r@.map_values(|p: String| p@) =~= before.map_values(|p: String| p@).push(
                entries@[i as int]@,
            ));
        }
    }
    assert(pv.take(entries.len() as int) =~= pv);
    r
}

/// The captures among folder entries, in order: names ending in `.webm`,
/// `.webm.tmp` or `.png`.
pub fn capture_files(entries: &Vec<String>) -> (r: Vec<String>)
    ensures
        r@.map_values(|p: String| p@) == keep(
            entries@.map_values(|p: String| p@),
            |p: Seq<char>| is_capture(p),
        ),
{
    let sufs: Vec<&str> = vec![".webm", ".webm.tmp", ".png"];
    let ghost sv = sufs@.map_values(|s: &str| s@);
    assert(sv =~= capture_endings());
    let r = keep_ending(entries, &sufs);
    assert((|p: Seq<char>| ends_with_any(name_of(p), sv)) =~= (|p: Seq<char>| is_capture(p)));
    r
}

/// The unfinished captures among folder entries, in order.
pub fn leftover_files(entries: &Vec<String>) -> (r: Vec<String>)
    ensures
        r@.map_values(|p: String| p@) == keep(
            entries@.map_values(|p: String| p@),
            |p: Seq<char>| is_leftover(p),
        ),
{
    let sufs: Vec<&str> = vec![".webm.tmp"];
    let ghost sv = sufs@.map_values(|s: &str| s@);
    assert(sv =~= seq![".webm.tmp"@]);
    assert forall|p: Seq<char>| ends_with_any(name_of(p), sv) == is_leftover(p) by {
        if is_leftover(p) {
            assert(ends_with(name_of(p), sv[0]));
        }
    }
    let r = keep_ending(entries, &sufs);
    assert((|p: Seq<char>| ends_with_any(name_of(p), sv)) =~= (|p: Seq<char>| is_leftover(p)));
    r
}

/// The clips the list shows among the entries of the clip folders: names
/// ending in `.webm` or `.png`, each path once ignoring case, first kept.
pub fn clip_files(entries: &Vec<String>) -> (r: Vec<String>)
    ensures
        ({
            let ks = keep(entries@.map_values(|p: String| p@), |p: Seq<char>| is_clip(p));
            let idx = first_of_each_key(ks.map_values(|p: Seq<char>| unicode_lowercase(p)), ks.len());
            &&& r.len() == idx.len()
            &&& forall|i: int| 0 <= i < idx.len() ==> 0 <= #[trigger] idx[i] < ks.len()
            &&& forall|i: int| 0 <= i < r.len() ==> r@[i]@ == ks[idx[i]]
        }),
{
    let sufs: Vec<&str> = vec![".webm", ".png"];
    let ghost sv = sufs@.map_values(|s: &str| s@);
    assert(sv =~= clip_endings());
    let kept = keep_ending(entries, &sufs);
    assert((|p: Seq<char>| ends_with_any(name_of(p), sv)) =~= (|p: Seq<char>| is_clip(p)));
    let ghost kv = kept@;
    assert(kv.map_values(|p: String| unicode_lowercase(p@)) =~= kv.map_values(|p: String| p@).map_values(
        |p: Seq<char>| unicode_lowercase(p),
    ));
    unique_paths(kept)
}

/// The playable file a capture ends up as: an unfinished `x.webm.tmp`
/// becomes `x.webm`; any other capture is already playable.
pub open spec fn finished_path(src: Seq<char>) -> Seq<char> {
    if extension(src) == Some("tmp"@) {
        with_extension(with_extension(src, Seq::empty()), "webm"@)
    } else {
        src
    }
}

/// Where a capture is remuxed to before it can be played.
pub fn finished_path_of(src: &str) -> (r: String)
    ensures
        r@ == finished_path(src@),
{
    if crate::paths::has_extension(src, "tmp") {
        let bare = crate::paths::with_extension_of(src, "");
        proof {
            reveal_strlit("");
        }
        crate::paths::with_extension_of(bare.as_str(), "webm")
    } else {
        src.to_owned()
    }
}

/// Where a finished capture is copied to: into the recordings folder when
/// one is set, the capture has a name, and the copy is not the capture
/// itself.
pub open spec fn copy_target(dest: Seq<char>, dest_dir: Seq<char>) -> Option<Seq<char>> {
    if dest_dir.len() == 0 {
        None
    } else {
        match file_name(dest) {
            Some(n) => if join(dest_dir, n) != dest {
                Some(join(dest_dir, n))
            } else {
                None
            },
            None => None,
        }
    }
}

/// The copy a finished capture gets in the recordings folder, if any.
pub fn copy_target_of(dest: &str, dest_dir: &str) -> (r: Option<String>)
    ensures
        match r {
            Some(c) => copy_target(dest@, dest_dir@) == Some(c@),
            None => copy_target(dest@, dest_dir@) is None,
        },
{
    let dv = chars_of(dest_dir);
    if dv.len() == 0 {
        return None;
    }
    match crate::paths::file_name_of(dest) {
        Some(n) => {
            let copy = join_path(dest_dir, n.as_str());
            let cv = chars_of(copy.as_str());
            let d = chars_of(dest);
            if crate::text::eq_chars(&cv, &d) {
                None
            } else {
                Some(copy)
            }
        },
        None => None,
    }
}

/// The folders searched for a capture: the folder of the path League was
/// given (`.` when it has none), then the recordings folder when one is set.
pub open spec fn capture_dirs(hint: Seq<char>, dest_dir: Seq<char>) -> Seq<Seq<char>> {
    let first = match parent(hint) {
        Some(p) => p,
        None => "."@,
    };
    if dest_dir.len() == 0 {
        seq![first]
    } else {
        seq![first, dest_dir]
    }
}

/// The folders searched for a capture.
pub fn capture_dirs_of(hint: &str, dest_dir: &str) -> (r: Vec<String>)
    ensures
        r@.map_values(|d: String| d@) == capture_dirs(hint@, dest_dir@),
{
    let first = match crate::paths::parent_of(hint) {
        Some(p) => p,
        None => ".".to_owned(),
    };
    let mut r: Vec<String> = Vec::new();
    r.push(first);
    let dv = chars_of(dest_dir);
    if dv.len() > 0 {
        r.push(dest_dir.to_owned());
    }
    assert(r@.map_values(|d: String| d@) =~= capture_dirs(hint@, dest_dir@));
    r
}

/// The file a new recording is written to: `capture_<stamp>.png` for the
/// `png` codec, `capture_<stamp>.webm` for any other.
pub open spec fn capture_name(stamp: nat, codec: Seq<char>) -> Seq<char> {
    "capture_"@ + decimal(stamp) + if codec == "png"@ {
        ".png"@
    } else {
        ".webm"@
    }
}

/// The file name of a recording started at `stamp` (seconds since the
/// Unix epoch) with `codec`.
pub fn capture_file_name(stamp: u64, codec: &str) -> (r: String)
    ensures
        r@ == capture_name(stamp as nat, codec@),
{
    let mut v: Vec<char> = Vec::new();
    push_str(&mut v, "capture_");
    let d = decimal_vec(stamp);
    push_all(&mut v, &d);
    let c = chars_of(codec);
    if eq_str(&c, "png") {
        push_str(&mut v, ".png");
    } else {
        push_str(&mut v, ".webm");
    }
    string_of(&v)
}

/// Where a bundled ffmpeg may be, for the running executable: beside it,
/// then in the bundle's `Resources`.
pub open spec fn ffmpeg_places(exe: Seq<char>) -> Seq<Seq<char>> {
    match parent(exe) {
        Some(d) => seq![join(d, "ffmpeg"@)] + match parent(d) {
            Some(c) => seq![join(c, "Resources/ffmpeg"@)],
            None => Seq::<Seq<char>>::empty(),
        },
        None => Seq::empty(),
    }
}

/// The places a bundled ffmpeg is looked for, in order.
pub fn ffmpeg_candidates(exe: &str) -> (r: Vec<String>)
    ensures
        r@.map_values(|p: String| p@) == ffmpeg_places(exe@),
{
    let mut r: Vec<String> = Vec::new();
    match crate::paths::parent_of(exe) {
        Some(d) => {
            r.push(join_path(d.as_str(), "ffmpeg"));
            match crate::paths::parent_of(d.as_str()) {
                Some(c) => r.push(join_path(c.as_str(), "Resources/ffmpeg")),
                None => {},
            }
        },
        None => {},
    }
    assert(r@.map_values(|p: String| p@) =~= ffmpeg_places(exe@));
    r
}

} // verus!

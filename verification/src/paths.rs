//! Unix path handling on path text, following the component rules of
//! `std::path::Path` on Unix: components are separated by `/`, empty and
//! `.` components inside the path are skipped, a leading `/` is the root
//! and a leading `.` component is the current directory.
use vstd::prelude::*;
use crate::text::{chars_of, eq_chars, push_all, slice, string_of};

verus! {

broadcast use vstd::seq_lib::group_seq_properties;

pub open spec fn has_root(p: Seq<char>) -> bool {
    p.len() > 0 && p[0] == '/'
}

/// A relative path whose first component is `.`.
pub open spec fn cur_dir_start(p: Seq<char>) -> bool {
    !has_root(p) && p.len() > 0 && p[0] == '.' && (p.len() == 1 || p[1] == '/')
}

/// Where the components after the root or leading `.` begin.
pub open spec fn body_start(p: Seq<char>) -> int {
    (if has_root(p) {
        1int
    } else {
        0int
    }) + (if cur_dir_start(p) {
        1int
    } else {
        0int
    })
}

/// Index of the last `/` in `p[lo..e)`, or `lo - 1` when there is none.
pub open spec fn last_sep(p: Seq<char>, lo: int, e: int) -> int
    decreases e - lo,
{
    if e <= lo {
        lo - 1
    } else if p[e - 1] == '/' {
        e - 1
    } else {
        last_sep(p, lo, e - 1)
    }
}

pub proof fn lemma_last_sep_bounds(p: Seq<char>, lo: int, e: int)
    ensures
        e > lo ==> lo - 1 <= last_sep(p, lo, e) <= e - 1,
        e <= lo ==> last_sep(p, lo, e) == lo - 1,
    decreases e - lo,
{
    if e > lo && p[e - 1] != '/' {
        lemma_last_sep_bounds(p, lo, e - 1);
    }
}

/// The last component of `p[lo..e)` starts here.
pub open spec fn piece_start(p: Seq<char>, lo: int, e: int) -> int {
    last_sep(p, lo, e) + 1
}

/// An empty or `.` component, which the component walk skips.
pub open spec fn skipped(c: Seq<char>) -> bool {
    c.len() == 0 || c == seq!['.']
}

/// The end of `p[lo..e)` once trailing skipped components are dropped.
pub open spec fn trim_back(p: Seq<char>, lo: int, e: int) -> int
    decreases e - lo,
{
    if e <= lo {
        e
    } else {
        let s = piece_start(p, lo, e);
        if skipped(p.subrange(s, e)) {
            if s > lo {
                proof {
                    lemma_last_sep_bounds(p, lo, e);
                }
                trim_back(p, lo, s - 1)
            } else {
                lo
            }
        } else {
            e
        }
    }
}

/// Start and end of the last real component, if the path has one after
/// its root or leading `.`.
pub open spec fn last_component(p: Seq<char>) -> Option<(int, int)> {
    let lo = body_start(p);
    let e = trim_back(p, lo, p.len() as int);
    if e <= lo {
        None
    } else {
        Some((piece_start(p, lo, e), e))
    }
}

pub open spec fn dot_dot() -> Seq<char> {
    seq!['.', '.']
}

/// `Path::file_name`: the last component, unless it is `..` or missing.
pub open spec fn file_name(p: Seq<char>) -> Option<Seq<char>> {
    match last_component(p) {
        Some((s, e)) => if p.subrange(s, e) == dot_dot() {
            None
        } else {
            Some(p.subrange(s, e))
        },
        None => None,
    }
}

/// `Path::parent`: the path without its last component, trailing
/// separators and `.` components dropped; `""` for a lone relative
/// component or `.`, and none for the root or the empty path.
pub open spec fn parent(p: Seq<char>) -> Option<Seq<char>> {
    let lo = body_start(p);
    match last_component(p) {
        Some((s, e)) => {
            let rest = if s > lo {
                s - 1
            } else {
                lo
            };
            Some(p.take(trim_back(p, lo, rest)))
        },
        None => if cur_dir_start(p) {
            Some(seq![])
        } else {
            None
        },
    }
}

/// Index of the last `.` in a file name, if any.
pub open spec fn last_dot(n: Seq<char>) -> int {
    last_sep_char(n, '.', n.len() as int)
}

/// Index of the last `c` in `n[0..e)`, or `-1`.
pub open spec fn last_sep_char(n: Seq<char>, c: char, e: int) -> int
    decreases e,
{
    if e <= 0 {
        -1
    } else if n[e - 1] == c {
        e - 1
    } else {
        last_sep_char(n, c, e - 1)
    }
}

/// Length of the stem of a file name: up to its last `.`, or the whole
/// name when it has no `.` but a leading one.
pub open spec fn stem_len(n: Seq<char>) -> int {
    if last_dot(n) <= 0 {
        n.len() as int
    } else {
        last_dot(n)
    }
}

/// `Path::file_stem`.
pub open spec fn file_stem(p: Seq<char>) -> Option<Seq<char>> {
    match file_name(p) {
        Some(n) => Some(n.take(stem_len(n))),
        None => None,
    }
}

/// `Path::extension`: what follows the last `.` of the file name, when
/// that `.` is not its first character.
pub open spec fn extension(p: Seq<char>) -> Option<Seq<char>> {
    match file_name(p) {
        Some(n) => if last_dot(n) <= 0 {
            None
        } else {
            Some(n.skip(last_dot(n) + 1))
        },
        None => None,
    }
}

/// `PathBuf::push` / `Path::join` with a relative or absolute path.
pub open spec fn join(base: Seq<char>, rel: Seq<char>) -> Seq<char> {
    if has_root(rel) {
        rel
    } else if base.len() > 0 && base.last() != '/' {
        base + seq!['/'] + rel
    } else {
        base + rel
    }
}

/// `PathBuf::set_extension`: cut after the stem and add `.ext` unless
/// `ext` is empty; a path without a file name is kept.
pub open spec fn with_extension(p: Seq<char>, ext: Seq<char>) -> Seq<char> {
    match last_component(p) {
        Some((s, e)) => if p.subrange(s, e) == dot_dot() {
            p
        } else {
            let head = p.take(s + stem_len(p.subrange(s, e)));
            if ext.len() == 0 {
                head
            } else {
                head + seq!['.'] + ext
            }
        },
        None => p,
    }
}

/// `PathBuf::pop`: the parent, or the path itself when it has none.
pub open spec fn pop(p: Seq<char>) -> Seq<char> {
    match parent(p) {
        Some(q) => q,
        None => p,
    }
}

/// The last `/` before position `s` is at `s - 1` when `p[s..e)` holds no
/// `/` and either `s - 1` holds one or `s` is where the search stops.
proof fn lemma_last_sep_before(p: Seq<char>, lo: int, s: int, e: int)
    requires
        lo <= s <= e <= p.len(),
        0 <= lo,
        s == lo || p[s - 1] == '/',
        forall|j: int| s <= j < e ==> p[j] != '/',
    ensures
        last_sep(p, lo, e) == s - 1,
    decreases e - s,
{
    if e > s {
        lemma_last_sep_before(p, lo, s, e - 1);
    }
}

/// Joining a folder with a plain name (no `/`, not `.` or `..`) gives a
/// path whose file name is that name.
pub proof fn lemma_join_file_name(folder: Seq<char>, x: Seq<char>)
    requires
        x.len() > 0,
        forall|j: int| 0 <= j < x.len() ==> #[trigger] x[j] != '/',
        x != seq!['.'],
        x != dot_dot(),
    ensures
        file_name(join(folder, x)) == Some(x),
{
    assert(x[0] != '/');
    assert(!has_root(x));
    let p = join(folder, x);
    let l = p.len() as int;
    let s = l - x.len();
    assert(p.subrange(s, l) =~= x);
    assert forall|j: int| s <= j < l implies p[j] != '/' by {
        assert(p[j] == x[j - s]);
    }
    let lo = body_start(p);
    if folder.len() == 0 {
        assert(p =~= x);
        if x.len() > 1 {
            assert(p[1] != '/');
        } else if x[0] == '.' {
            assert(x =~= seq!['.']);
        }
        assert(!cur_dir_start(p));
        assert(lo == 0);
    } else {
        assert(p[s - 1] == '/');
        assert(lo <= 1);
    }
    lemma_last_sep_before(p, lo, s, l);
    assert(piece_start(p, lo, l) == s);
    assert(!skipped(x));
    assert(trim_back(p, lo, l) == l);
    assert(last_component(p) == Some((s, l)));
}

// ---------------------------------------------------------------------------
// Executable path operations
fn body_start_exec(p: &Vec<char>) -> (lo: usize)
    ensures
        lo as int == body_start(p@),
        lo <= p.len(),
{
    let root: bool = p.len() > 0 && p[0] == '/';
    let cur: bool = !root && p.len() > 0 && p[0] == '.' && (p.len() == 1 || p[1] == '/');
    let mut lo: usize = 0;
    if root {
        lo = lo + 1;
    }
    if cur {
        lo = lo + 1;
    }
    lo
}

fn piece_start_exec(p: &Vec<char>, lo: usize, e: usize) -> (s: usize)
    requires
        lo <= e <= p.len(),
    ensures
        s as int == piece_start(p@, lo as int, e as int),
        lo <= s <= e,
        s > lo ==> p@[s - 1] == '/',
{
    let mut k: usize = e;
    while k > lo && p[k - 1] != '/'
        invariant
            lo <= k <= e <= p.len(),
            last_sep(p@, lo as int, e as int) == last_sep(p@, lo as int, k as int),
        decreases k,
    {
        k = k - 1;
    }
    k
}

fn is_skipped(p: &Vec<char>, s: usize, e: usize) -> (b: bool)
    requires
        s <= e <= p.len(),
    ensures
        b == skipped(p@.subrange(s as int, e as int)),
{
    if e == s {
        return true;
    }
    if e - s == 1 && p[s] == '.' {
        assert(p@.subrange(s as int, e as int) =~= seq!['.']);
        return true;
    }
    if e - s == 1 {
        assert(p@.subrange(s as int, e as int)[0] != seq!['.'][0]);
    }
    false
}

fn trim_back_exec(p: &Vec<char>, lo: usize, e: usize) -> (r: usize)
    requires
        lo <= e <= p.len(),
    ensures
        r as int == trim_back(p@, lo as int, e as int),
        r <= e,
        r >= lo,
{
    let mut cur: usize = e;
    while cur > lo
        invariant
            lo <= cur <= e <= p.len(),
            trim_back(p@, lo as int, e as int) == trim_back(p@, lo as int, cur as int),
        decreases cur,
    {
        let s = piece_start_exec(p, lo, cur);
        if !is_skipped(p, s, cur) {
            return cur;
        }
        if s > lo {
            cur = s - 1;
        } else {
            return lo;
        }
    }
    cur
}

fn last_component_exec(p: &Vec<char>) -> (r: Option<(usize, usize)>)
    ensures
        match r {
            Some((s, e)) => last_component(p@) == Some((s as int, e as int)) && s <= e <= p.len(),
            None => last_component(p@) is None,
        },
{
    let lo = body_start_exec(p);
    let e = trim_back_exec(p, lo, p.len());
    if e <= lo {
        None
    } else {
        Some((piece_start_exec(p, lo, e), e))
    }
}

fn is_dot_dot(p: &Vec<char>, s: usize, e: usize) -> (b: bool)
    requires
        s <= e <= p.len(),
    ensures
        b == (p@.subrange(s as int, e as int) == dot_dot()),
{
    if e - s == 2 && p[s] == '.' && p[s + 1] == '.' {
        assert(p@.subrange(s as int, e as int) =~= dot_dot());
        return true;
    }
    if e - s == 2 {
        assert(p@.subrange(s as int, e as int)[0] == p@[s as int]);
        assert(p@.subrange(s as int, e as int)[1] == p@[s + 1]);
        assert(dot_dot()[0] == '.' && dot_dot()[1] == '.');
    } else {
        assert(p@.subrange(s as int, e as int).len() != dot_dot().len());
    }
    false
}

/// The file name of a path (`Path::file_name`).
pub fn file_name_of(path: &str) -> (r: Option<String>)
    ensures
        match r {
            Some(n) => file_name(path@) == Some(n@),
            None => file_name(path@) is None,
        },
{
    let p = chars_of(path);
    match last_component_exec(&p) {
        Some((s, e)) => {
            if is_dot_dot(&p, s, e) {
                None
            } else {
                let n = slice(&p, s, e);
                Some(string_of(&n))
            }
        },
        None => None,
    }
}

/// The parent of a path (`Path::parent`).
pub fn parent_of(path: &str) -> (r: Option<String>)
    ensures
        match r {
            Some(q) => parent(path@) == Some(q@),
            None => parent(path@) is None,
        },
{
    let p = chars_of(path);
    let lo = body_start_exec(&p);
    match last_component_exec(&p) {
        Some((s, _e)) => {
            let rest: usize = if s > lo {
                s - 1
            } else {
                lo
            };
            let end = trim_back_exec(&p, lo, rest);
            let q = slice(&p, 0, end);
            assert(q@ =~= p@.take(end as int));
            Some(string_of(&q))
        },
        None => {
            let cur: bool = !(p.len() > 0 && p[0] == '/') && p.len() > 0 && p[0] == '.' && (p.len()
                == 1 || p[1] == '/');
            if cur {
                Some(String::new())
            } else {
                None
            }
        },
    }
}

fn last_dot_exec(n: &Vec<char>) -> (r: Option<usize>)
    ensures
        match r {
            Some(d) => d as int == last_dot(n@) && d < n.len(),
            None => last_dot(n@) == -1,
        },
{
    let mut e: usize = n.len();
    while e > 0 && n[e - 1] != '.'
        invariant
            e <= n.len(),
            last_sep_char(n@, '.', n.len() as int) == last_sep_char(n@, '.', e as int),
        decreases e,
    {
        e = e - 1;
    }
    if e == 0 {
        None
    } else {
        Some(e - 1)
    }
}

fn stem_len_exec(n: &Vec<char>) -> (r: usize)
    ensures
        r as int == stem_len(n@),
        r <= n.len(),
{
    match last_dot_exec(n) {
        Some(d) => if d == 0 {
            n.len()
        } else {
            d
        },
        None => n.len(),
    }
}

/// The stem of a path's file name (`Path::file_stem`).
pub fn file_stem_of(path: &str) -> (r: Option<String>)
    ensures
        match r {
            Some(n) => file_stem(path@) == Some(n@),
            None => file_stem(path@) is None,
        },
{
    let p = chars_of(path);
    match last_component_exec(&p) {
        Some((s, e)) => {
            if is_dot_dot(&p, s, e) {
                None
            } else {
                let n = slice(&p, s, e);
                let k = stem_len_exec(&n);
                let st = slice(&n, 0, k);
                assert(st@ =~= n@.take(k as int));
                Some(string_of(&st))
            }
        },
        None => None,
    }
}

/// The extension of a path's file name (`Path::extension`).
pub fn extension_of(path: &str) -> (r: Option<String>)
    ensures
        match r {
            Some(x) => extension(path@) == Some(x@),
            None => extension(path@) is None,
        },
{
    let p = chars_of(path);
    match last_component_exec(&p) {
        Some((s, e)) => {
            if is_dot_dot(&p, s, e) {
                None
            } else {
                let n = slice(&p, s, e);
                match last_dot_exec(&n) {
                    Some(d) => {
                        if d == 0 {
                            None
                        } else {
                            let x = slice(&n, d + 1, n.len());
                            assert(x@ =~= n@.skip(d + 1));
                            Some(string_of(&x))
                        }
                    },
                    None => None,
                }
            }
        },
        None => None,
    }
}

/// Whether a path's extension is exactly `ext`.
pub fn has_extension(path: &str, ext: &str) -> (b: bool)
    ensures
        b == (extension(path@) == Some(ext@)),
{
    match extension_of(path) {
        Some(x) => {
            let xv = chars_of(x.as_str());
            let ev = chars_of(ext);
            eq_chars(&xv, &ev)
        },
        None => false,
    }
}

/// `base` joined with `rel` (`Path::join`).
pub fn join_path(base: &str, rel: &str) -> (r: String)
    ensures
        r@ == join(base@, rel@),
{
    let b = chars_of(base);
    let rl = chars_of(rel);
    let mut out: Vec<char> = Vec::new();
    if rl.len() > 0 && rl[0] == '/' {
        push_all(&mut out, &rl);
        assert(out@ =~= rl@);
    } else if b.len() > 0 && b[b.len() - 1] != '/' {
        push_all(&mut out, &b);
        out.push('/');
        push_all(&mut out, &rl);
        assert(out@ =~= b@ + seq!['/'] + rl@);
    } else {
        push_all(&mut out, &b);
        push_all(&mut out, &rl);
        assert(out@ =~= b@ + rl@);
    }
    string_of(&out)
}

/// The path with its extension replaced (`Path::with_extension`).
pub fn with_extension_of(path: &str, ext: &str) -> (r: String)
    ensures
        r@ == with_extension(path@, ext@),
{
    let p = chars_of(path);
    let x = chars_of(ext);
    match last_component_exec(&p) {
        Some((s, e)) => {
            if is_dot_dot(&p, s, e) {
                string_of(&p)
            } else {
                let n = slice(&p, s, e);
                let k = stem_len_exec(&n);
                let mut out = slice(&p, 0, s + k);
                assert(out@ =~= p@.take(s + k));
                if x.len() > 0 {
                    out.push('.');
                    push_all(&mut out, &x);
                    assert(out@ =~= p@.take(s + k) + seq!['.'] + x@);
                }
                string_of(&out)
            }
        },
        None => string_of(&p),
    }
}

/// The path with its last component removed (`PathBuf::pop`), or the path
/// itself when it has no parent.
pub fn pop_path(path: &str) -> (r: String)
    ensures
        r@ == pop(path@),
{
    match parent_of(path) {
        Some(q) => q,
        None => path.to_owned(),
    }
}

} // verus!

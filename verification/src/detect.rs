//! Finding League on disk from what Spotlight, `pgrep` and folder listings
//! report: install roots, the candidate `game.cfg` locations inside an
//! install, the install folder of a config file, the game's process id,
//! the replay, skybox and game-log files among folder entries (each path
//! once, ignoring case), the folders searched, and the tail of a game log.
use vstd::prelude::*;
use crate::paths::{extension, file_name, file_stem, has_extension, join, join_path, parent, parent_of, pop, pop_path};
use crate::text::{
    chars_of, ends_with, eq_chars, eq_str, lines, lines_vec, lower, lower_vec, parse_u64, parse_u64_vec,
    push_all, slice, string_of, trim, trim_vec,
};

verus! {

broadcast use vstd::seq_lib::group_seq_properties;

/// A League install found on disk: its `game.cfg` and whether the Replay
/// API is switched on in it.
#[derive(Debug)]
pub struct GameInstall {
    pub cfg: String,
    pub enabled: bool,
}

/// What `str::to_lowercase` returns for a text (full Unicode lower-casing).
pub uninterp spec fn unicode_lowercase(s: Seq<char>) -> Seq<char>;

/// `str::to_lowercase`.
#[verifier::external_body]
pub(crate) fn to_lowercase(s: &str) -> (r: String)
    ensures
        r@ == unicode_lowercase(s@),
{
    s.to_lowercase()
}

/// The install folder of a config file: the config must sit in a folder
/// named `Config`, whose parent is the install folder.
pub open spec fn lol_dir(cfg: Seq<char>) -> Option<Seq<char>> {
    match parent(cfg) {
        Some(p) => if file_name(p) == Some("Config"@) {
            Some(pop(p))
        } else {
            None
        },
        None => None,
    }
}

/// The League folder that holds a `Config/game.cfg`.
pub fn lol_dir_from_cfg(cfg: &str) -> (r: Option<String>)
    ensures
        match r {
            Some(d) => lol_dir(cfg@) == Some(d@),
            None => lol_dir(cfg@) is None,
        },
{
    let p = match parent_of(cfg) {
        Some(p) => p,
        None => return None,
    };
    match crate::paths::file_name_of(p.as_str()) {
        Some(n) => {
            let nv = chars_of(n.as_str());
            if eq_str(&nv, "Config") {
                Some(pop_path(p.as_str()))
            } else {
                None
            }
        },
        None => None,
    }
}

/// The non-empty lines of a text.
pub open spec fn nonempty_lines(ls: Seq<Seq<char>>) -> Seq<Seq<char>>
    decreases ls.len(),
{
    if ls.len() == 0 {
        seq![]
    } else if ls.last().len() > 0 {
        nonempty_lines(ls.drop_last()).push(ls.last())
    } else {
        nonempty_lines(ls.drop_last())
    }
}

/// The application folders League installs to by default.
pub open spec fn default_apps() -> Seq<Seq<char>> {
    seq!["/Applications/League of Legends.app"@, "/Applications/League of Legends (PBE).app"@]
}

/// Install roots from the outputs of the Spotlight queries, one path per
/// non-empty line, in order, followed by the default application folders.
pub open spec fn install_roots_spec(outputs: Seq<Seq<char>>) -> Seq<Seq<char>>
    decreases outputs.len(),
{
    if outputs.len() == 0 {
        default_apps()
    } else {
        nonempty_lines(lines(outputs[0])) + install_roots_spec(outputs.drop_first())
    }
}

fn push_nonempty_lines(out: &mut Vec<String>, text: &str)
    ensures
        final(out)@.map_values(|s: String| s@) == old(out)@.map_values(|s: String| s@) + nonempty_lines(
            lines(text@),
        ),
{
    let v = chars_of(text);
    let ls = lines_vec(&v);
    let ghost views = ls@.map_values(|p: Vec<char>| p@);
    let ghost start = out@.map_values(|s: String| s@);
    for i in 0..ls.len()
        invariant
            views == ls@.map_values(|p: Vec<char>| p@),
            views == lines(v@),
            v@ == text@,
            out@.map_values(|s: String| s@) == start + nonempty_lines(views.take(i as int)),
    {
        assert(views.take(i + 1).drop_last() =~= views.take(i as int));
        assert(views.take(i + 1).last() == ls@[i as int]@);
        if ls[i].len() > 0 {
            let ghost before = out@.map_values(|s: String| s@);
            out.push(string_of(&ls[i]));
            assert(out@.map_values(|s: String| s@) =~= before.push(ls@[i as int]@));
        }
    }
    assert(views.take(ls.len() as int) =~= views);
}

/// The install roots: the non-empty lines of each Spotlight output, then
/// the default application folders.
pub fn install_roots_from(outputs: &Vec<String>) -> (r: Vec<String>)
    ensures
        r@.map_values(|s: String| s@) == install_roots_spec(outputs@.map_values(|s: String| s@)),
{
    let ghost outs = outputs@.map_values(|s: String| s@);
    let mut r: Vec<String> = Vec::new();
    assert(outs.skip(0) =~= outs);
    for i in 0..outputs.len()
        invariant
            outs == outputs@.map_values(|s: String| s@),
            install_roots_spec(outs) == r@.map_values(|s: String| s@) + install_roots_spec(outs.skip(i as int)),
    {
        let ghost before = r@.map_values(|s: String| s@);
        push_nonempty_lines(&mut r, outputs[i].as_str());
        assert(outs.skip(i as int)[0] == outputs@[i as int]@);
        assert(outs.skip(i as int).drop_first() =~= outs.skip(i + 1));
        assert(before + install_roots_spec(outs.skip(i as int)) =~= r@.map_values(|s: String| s@)
            + install_roots_spec(outs.skip(i + 1)));
    }
    let ghost before = r@.map_values(|s: String| s@);
    r.push("/Applications/League of Legends.app".to_owned());
    r.push("/Applications/League of Legends (PBE).app".to_owned());
    assert(outs.skip(outputs.len() as int).len() == 0);
    assert(r@.map_values(|s: String| s@) =~= before + default_apps());
    r
}

/// Where `pat` first occurs in `s`.
pub open spec fn occurs_at(s: Seq<char>, pat: Seq<char>, i: int) -> bool {
    0 <= i && i + pat.len() <= s.len() && s.subrange(i, i + pat.len()) == pat
}

/// The first occurrence of `pat` in `s` at or after `i`.
pub open spec fn find_sub_from(s: Seq<char>, pat: Seq<char>, i: int) -> Option<int>
    decreases s.len() + 1 - i,
{
    if i > s.len() || i < 0 {
        None
    } else if occurs_at(s, pat, i) {
        Some(i)
    } else {
        find_sub_from(s, pat, i + 1)
    }
}

/// The first occurrence of `pat` in `s` (`str::find`), as a char index.
pub open spec fn find_sub(s: Seq<char>, pat: Seq<char>) -> Option<int> {
    find_sub_from(s, pat, 0)
}

fn occurs_at_exec(s: &Vec<char>, pat: &Vec<char>, i: usize) -> (b: bool)
    ensures
        b == occurs_at(s@, pat@, i as int),
{
    if i > s.len() || pat.len() > s.len() - i {
        return false;
    }
    let w = slice(s, i, i + pat.len());
    crate::text::eq_chars(&w, pat)
}

pub(crate) fn find_sub_exec(s: &Vec<char>, pat: &Vec<char>) -> (r: Option<usize>)
    ensures
        match r {
            Some(i) => find_sub(s@, pat@) == Some(i as int) && occurs_at(s@, pat@, i as int),
            None => find_sub(s@, pat@) is None,
        },
{
    let mut i: usize = 0;
    loop
        invariant
            i <= s.len(),
            find_sub(s@, pat@) == find_sub_from(s@, pat@, i as int),
        decreases s.len() - i,
    {
        if occurs_at_exec(s, pat, i) {
            return Some(i);
        }
        if i == s.len() {
            assert(find_sub_from(s@, pat@, i + 1) is None);
            return None;
        }
        i = i + 1;
    }
}

/// Relative places of `game.cfg` inside an install.
pub open spec fn cfg_rels() -> Seq<Seq<char>> {
    seq!["Config/game.cfg"@, "DATA/CFG/game.cfg"@, "Game/Config/game.cfg"@]
}

/// The folders in which an install's `game.cfg` is looked for: the path up
/// to and including its first `/Contents/LoL`, the `Contents/LoL` of an
/// `.app` bundle, and the root itself.
pub open spec fn config_bases(root: Seq<char>) -> Seq<Seq<char>> {
    let a = match find_sub(root, "/Contents/LoL"@) {
        Some(i) => seq![root.take(i + "/Contents/LoL"@.len())],
        None => seq![],
    };
    let b = if extension(root) == Some("app"@) {
        seq![join(root, "Contents/LoL"@)]
    } else {
        seq![]
    };
    a + b + seq![root]
}

/// Every base joined with every relative config place, bases first.
pub open spec fn cross_join(bases: Seq<Seq<char>>, rels: Seq<Seq<char>>) -> Seq<Seq<char>>
    decreases bases.len(),
{
    if bases.len() == 0 {
        seq![]
    } else {
        rels.map_values(|r: Seq<char>| join(bases[0], r)) + cross_join(bases.drop_first(), rels)
    }
}

/// The `game.cfg` paths of an install root, in the order they are tried.
pub open spec fn config_candidates_spec(root: Seq<char>) -> Seq<Seq<char>> {
    cross_join(config_bases(root), cfg_rels())
}

fn contents_prefix(root: &str) -> (r: Vec<String>)
    ensures
        r@.map_values(|x: String| x@) == match find_sub(root@, "/Contents/LoL"@) {
            Some(i) => seq![root@.take(i + "/Contents/LoL"@.len())],
            None => seq![],
        },
{
    let s = chars_of(root);
    let pat = chars_of("/Contents/LoL");
    let mut r: Vec<String> = Vec::new();
    match find_sub_exec(&s, &pat) {
        Some(i) => {
            assert(occurs_at(s@, pat@, i as int));
            assert(i + pat@.len() <= s@.len());
            assert(s@.len() == s.len());
            assert(pat@.len() == pat.len());
            let head = slice(&s, 0, i + pat.len());
            assert(head@ =~= s@.take(i + pat@.len()));
            r.push(string_of(&head));
            assert(r@.map_values(|x: String| x@) =~= seq![s@.take(i + pat@.len())]);
        },
        None => {
            assert(r@.map_values(|x: String| x@) =~= seq![]);
        },
    }
    r
}

fn config_bases_exec(root: &str) -> (r: Vec<String>)
    ensures
        r@.map_values(|s: String| s@) == config_bases(root@),
{
    let mut r = contents_prefix(root);
    let ghost after_a = r@.map_values(|x: String| x@);
    if has_extension(root, "app") {
        r.push(join_path(root, "Contents/LoL"));
        assert(r@.map_values(|x: String| x@) =~= after_a + seq![join(root@, "Contents/LoL"@)]);
    } else {
        assert(r@.map_values(|x: String| x@) =~= after_a + seq![]);
    }
    let ghost after_b = r@.map_values(|x: String| x@);
    r.push(root.to_owned());
    assert(r@.map_values(|x: String| x@) =~= after_b + seq![root@]);
    r
}

fn join_all(out: &mut Vec<String>, base: &str, rels: &Vec<&str>)
    ensures
        final(out)@.map_values(|s: String| s@) == old(out)@.map_values(|s: String| s@) + rels@.map_values(
            |r: &str| r@,
        ).map_values(|r: Seq<char>| join(base@, r)),
{
    let ghost start = out@.map_values(|s: String| s@);
    let ghost rv = rels@.map_values(|r: &str| r@);
    for i in 0..rels.len()
        invariant
            rv == rels@.map_values(|r: &str| r@),
            out@.map_values(|s: String| s@) == start + rv.take(i as int).map_values(
                |r: Seq<char>| join(base@, r),
            ),
    {
        let ghost before = out@.map_values(|s: String| s@);
        out.push(join_path(base, rels[i]));
        assert(rv.take(i + 1).map_values(|r: Seq<char>| join(base@, r)) =~= rv.take(i as int).map_values(
            |r: Seq<char>| join(base@, r),
        ).push(join(base@, rv[i as int])));
        assert(out@.map_values(|s: String| s@) =~= before.push(join(base@, rv[i as int])));
    }
    assert(rv.take(rels.len() as int) =~= rv);
}

/// The `game.cfg` paths to try for an install root, in order: for each
/// base folder (see `config_bases`), `Config/game.cfg`,
/// `DATA/CFG/game.cfg` and `Game/Config/game.cfg`.
pub fn config_candidates(root: &str) -> (r: Vec<String>)
    ensures
        r@.map_values(|s: String| s@) == config_candidates_spec(root@),
{
    let bases = config_bases_exec(root);
    let ghost bv = bases@.map_values(|s: String| s@);
    let rels: Vec<&str> = vec!["Config/game.cfg", "DATA/CFG/game.cfg", "Game/Config/game.cfg"];
    assert(rels@.map_values(|r: &str| r@) =~= cfg_rels());
    let mut r: Vec<String> = Vec::new();
    assert(bv.skip(0) =~= bv);
    for i in 0..bases.len()
        invariant
            bv == bases@.map_values(|s: String| s@),
            bv == config_bases(root@),
            rels@.map_values(|r: &str| r@) == cfg_rels(),
            cross_join(bv, cfg_rels()) == r@.map_values(|s: String| s@) + cross_join(bv.skip(i as int), cfg_rels()),
    {
        let ghost before = r@.map_values(|s: String| s@);
        join_all(&mut r, bases[i].as_str(), &rels);
        assert(bv.skip(i as int)[0] == bases@[i as int]@);
        assert(bv.skip(i as int).drop_first() =~= bv.skip(i + 1));
        assert(before + cross_join(bv.skip(i as int), cfg_rels()) =~= r@.map_values(|s: String| s@)
            + cross_join(bv.skip(i + 1), cfg_rels()));
    }
    assert(bv.skip(bases.len() as int).len() == 0);
    r
}

/// Whether `k` is the key of one of the first `n` paths.
pub open spec fn key_seen(keys: Seq<Seq<char>>, n: int, k: Seq<char>) -> bool {
    exists|j: int| 0 <= j < n && keys[j] == k
}

/// The indices kept when dropping every entry whose key an earlier entry has.
pub open spec fn first_of_each_key(keys: Seq<Seq<char>>, n: nat) -> Seq<int>
    decreases n,
{
    if n == 0 {
        seq![]
    } else if key_seen(keys, n - 1, keys[n - 1]) {
        first_of_each_key(keys, (n - 1) as nat)
    } else {
        first_of_each_key(keys, (n - 1) as nat).push(n - 1)
    }
}

/// The positions kept when dropping every key that an earlier key equals.
fn first_keys(keys: &Vec<String>) -> (idx: Vec<usize>)
    ensures
        ({
            let ks = keys@.map_values(|s: String| s@);
            let want = first_of_each_key(ks, keys.len() as nat);
            &&& idx.len() == want.len()
            &&& forall|m: int| 0 <= m < idx.len() ==> #[trigger] idx@[m] as int == want[m]
            &&& forall|m: int| 0 <= m < idx.len() ==> #[trigger] idx@[m] < keys.len()
        }),
{
    let ghost ks = keys@.map_values(|s: String| s@);
    let mut idx: Vec<usize> = Vec::new();
    let mut i: usize = 0;
    while i < keys.len()
        invariant
            i <= keys.len(),
            ks == keys@.map_values(|s: String| s@),
            idx.len() == first_of_each_key(ks, i as nat).len(),
            forall|m: int| 0 <= m < idx.len() ==> #[trigger] idx@[m] as int == first_of_each_key(ks, i as nat)[m],
            forall|m: int| 0 <= m < idx.len() ==> #[trigger] idx@[m] < i,
        decreases keys.len() - i,
    {
        let mut dup = false;
        for j in 0..i
            invariant
                i < keys.len(),
                ks == keys@.map_values(|s: String| s@),
                dup == exists|m: int| 0 <= m < j && ks[m] == ks[i as int],
        {
            if keys[j] == keys[i] {
                dup = true;
            }
            assert(keys@[j as int]@ == ks[j as int]);
        }
        let ghost old_idx = first_of_each_key(ks, i as nat);
        if !dup {
            idx.push(i);
            assert(first_of_each_key(ks, (i + 1) as nat) == old_idx.push(i as int));
        } else {
            assert(first_of_each_key(ks, (i + 1) as nat) == old_idx);
        }
        i = i + 1;
    }
    idx
}

/// The lower-cased form of each text, the key two paths are compared by.
pub(crate) fn lower_keys(texts: &Vec<String>) -> (r: Vec<String>)
    ensures
        r@.map_values(|s: String| s@) == texts@.map_values(|s: String| unicode_lowercase(s@)),
{
    let mut r: Vec<String> = Vec::new();
    for i in 0..texts.len()
        invariant
            r@.map_values(|s: String| s@) == texts@.take(i as int).map_values(|s: String| unicode_lowercase(s@)),
    {
        let k = to_lowercase(texts[i].as_str());
        let ghost before = r@;
        r.push(k);
        assert(r@ =~= before.push(k));
        assert(texts@.take(i + 1) =~= texts@.take(i as int).push(texts@[i as int]));
        assert(r@.map_values(|s: String| s@) =~= before.map_values(|s: String| s@).push(k@));
        assert(r@.map_values(|s: String| s@) =~= texts@.take(i + 1).map_values(|s: String| unicode_lowercase(s@)));
    }
    assert(texts@.take(texts.len() as int) =~= texts@);
    r
}

/// The installs found, each config path once (compared ignoring case),
/// the first one of each kept, in order.
pub fn find_installs(found: Vec<GameInstall>) -> (r: Vec<GameInstall>)
    ensures
        ({
            let keys = found@.map_values(|g: GameInstall| unicode_lowercase(g.cfg@));
            let idx = first_of_each_key(keys, found.len() as nat);
            &&& r.len() == idx.len()
            &&& forall|i: int| 0 <= i < idx.len() ==> 0 <= #[trigger] idx[i] < found.len()
            &&& forall|i: int| 0 <= i < r.len() ==> r@[i] == found@[idx[i]]
        }),
{
    let mut cfgs: Vec<String> = Vec::new();
    for i in 0..found.len()
        invariant
            cfgs.len() == i,
            forall|j: int| 0 <= j < i ==> #[trigger] cfgs@[j]@ == found@[j].cfg@,
    {
        cfgs.push(found[i].cfg.clone());
    }
    let keys = lower_keys(&cfgs);
    let ghost ks = found@.map_values(|g: GameInstall| unicode_lowercase(g.cfg@));
    assert(keys@.map_values(|s: String| s@) =~= ks);
    let idx = first_keys(&keys);
    let ghost want = first_of_each_key(ks, found.len() as nat);
    let mut r: Vec<GameInstall> = Vec::new();
    for m in 0..idx.len()
        invariant
            keys.len() == found.len(),
            idx.len() == want.len(),
            forall|q: int| 0 <= q < idx.len() ==> #[trigger] idx@[q] as int == want[q],
            forall|q: int| 0 <= q < idx.len() ==> #[trigger] idx@[q] < keys.len(),
            r.len() == m,
            forall|q: int| 0 <= q < m ==> r@[q] == found@[want[q]],
    {
        let k = idx[m];
        assert(idx@[m as int] < keys.len());
        r.push(GameInstall { cfg: found[k].cfg.clone(), enabled: found[k].enabled });
    }
    assert forall|i: int| 0 <= i < want.len() implies 0 <= #[trigger] want[i] < found.len() by {
        assert(idx@[i] as int == want[i]);
        assert(idx@[i] < keys.len());
    }
    r
}

/// Paths each kept once, compared ignoring case, the first of each kept,
/// in order.
pub fn unique_paths(paths: Vec<String>) -> (r: Vec<String>)
    ensures
        ({
            let keys = paths@.map_values(|p: String| unicode_lowercase(p@));
            let idx = first_of_each_key(keys, paths.len() as nat);
            &&& r.len() == idx.len()
            &&& forall|i: int| 0 <= i < idx.len() ==> 0 <= #[trigger] idx[i] < paths.len()
            &&& forall|i: int| 0 <= i < r.len() ==> r@[i]@ == paths@[idx[i]]@
        }),
{
    let keys = lower_keys(&paths);
    let ghost ks = paths@.map_values(|p: String| unicode_lowercase(p@));
    assert(keys@.map_values(|s: String| s@) =~= ks);
    let idx = first_keys(&keys);
    let ghost want = first_of_each_key(ks, paths.len() as nat);
    let mut r: Vec<String> = Vec::new();
    for m in 0..idx.len()
        invariant
            keys.len() == paths.len(),
            idx.len() == want.len(),
            forall|q: int| 0 <= q < idx.len() ==> #[trigger] idx@[q] as int == want[q],
            forall|q: int| 0 <= q < idx.len() ==> #[trigger] idx@[q] < keys.len(),
            r.len() == m,
            forall|q: int| 0 <= q < m ==> r@[q]@ == paths@[want[q]]@,
    {
        let k = idx[m];
        assert(idx@[m as int] < keys.len());
        r.push(paths[k].clone());
    }
    assert forall|i: int| 0 <= i < want.len() implies 0 <= #[trigger] want[i] < paths.len() by {
        assert(idx@[i] as int == want[i]);
        assert(idx@[i] < keys.len());
    }
    r
}

/// Lines each followed by a line feed.
pub open spec fn ended_lines(ls: Seq<Seq<char>>) -> Seq<char>
    decreases ls.len(),
{
    if ls.len() == 0 {
        seq![]
    } else {
        ended_lines(ls.drop_last()) + ls.last() + seq!['\n']
    }
}

/// The last `n` entries of `ls`, or all of them when there are fewer.
pub open spec fn last_n<A>(ls: Seq<A>, n: nat) -> Seq<A> {
    if n >= ls.len() {
        ls
    } else {
        ls.skip(ls.len() - n)
    }
}

/// What the log view shows: the log's path on a line of its own, then its
/// last `n` lines.
pub open spec fn log_tail_text(path: Seq<char>, text: Seq<char>, n: nat) -> Seq<char> {
    path + seq!['\n'] + ended_lines(last_n(lines(text), n))
}

/// The log's path and its last `n` lines, for showing under the desk.
pub fn log_tail(path: &str, text: &str, n: usize) -> (r: String)
    ensures
        r@ == log_tail_text(path@, text@, n as nat),
{
    let tv = chars_of(text);
    let ls = lines_vec(&tv);
    let ghost lv = ls@.map_values(|p: Vec<char>| p@);
    let start: usize = if n >= ls.len() { 0 } else { ls.len() - n };
    let mut out = chars_of(path);
    out.push('\n');
    let ghost head = path@ + seq!['\n'];
    assert(lv.subrange(start as int, start as int) =~= Seq::<Seq<char>>::empty());
    for i in start..ls.len()
        invariant
            start <= ls.len(),
            lv == ls@.map_values(|p: Vec<char>| p@),
            out@ == head + ended_lines(lv.subrange(start as int, i as int)),
    {
        let ghost before = out@;
        push_all(&mut out, &ls[i]);
        out.push('\n');
        let ghost sub = lv.subrange(start as int, i + 1);
        assert(sub.drop_last() =~= lv.subrange(start as int, i as int));
        assert(sub.last() == ls@[i as int]@);
        assert(out@ =~= before + ls@[i as int]@ + seq!['\n']);
    }
    assert(lv.subrange(start as int, ls.len() as int) =~= last_n(lines(text@), n as nat));
    string_of(&out)
}

/// The entries of `ps` for which `f` holds, in order.
pub open spec fn keep(ps: Seq<Seq<char>>, f: spec_fn(Seq<char>) -> bool) -> Seq<Seq<char>>
    decreases ps.len(),
{
    if ps.len() == 0 {
        seq![]
    } else if f(ps.last()) {
        keep(ps.drop_last(), f).push(ps.last())
    } else {
        keep(ps.drop_last(), f)
    }
}

/// Whether a path's extension is `ext` when ASCII case is ignored.
pub open spec fn has_ext_ci(p: Seq<char>, ext: Seq<char>) -> bool {
    match extension(p) {
        Some(x) => lower(x) == lower(ext),
        None => false,
    }
}

/// Whether a path's extension is `ext`, ASCII case ignored.
fn has_ext_ci_exec(path: &str, ext: &str) -> (b: bool)
    ensures
        b == has_ext_ci(path@, ext@),
{
    match crate::paths::extension_of(path) {
        Some(x) => {
            let a = lower_vec(&chars_of(x.as_str()));
            let b = lower_vec(&chars_of(ext));
            eq_chars(&a, &b)
        },
        None => false,
    }
}

/// The paths whose extension is `ext`, ASCII case ignored, in order.
fn keep_ext_ci(paths: &Vec<String>, ext: &str) -> (r: Vec<String>)
    ensures
        r@.map_values(|p: String| p@) == keep(
            paths@.map_values(|p: String| p@),
            |p: Seq<char>| has_ext_ci(p, ext@),
        ),
{
    let ghost f = |p: Seq<char>| has_ext_ci(p, ext@);
    let ghost pv = paths@.map_values(|p: String| p@);
    let mut r: Vec<String> = Vec::new();
    for i in 0..paths.len()
        invariant
            pv == paths@.map_values(|p: String| p@),
            f == (|p: Seq<char>| has_ext_ci(p, ext@)),
            r@.map_values(|p: String| p@) == keep(pv.take(i as int), f),
    {
        let ghost before = r@;
        assert(pv.take(i + 1).drop_last() =~= pv.take(i as int));
        assert(pv.take(i + 1).last() == paths@[i as int]@);
        if has_ext_ci_exec(paths[i].as_str(), ext) {
            r.push(paths[i].clone());
            assert(r@ =~= before.push(paths@[i as int]));
            assert(r@.map_values(|p: String| p@) =~= before.map_values(|p: String| p@).push(
                paths@[i as int]@,
            ));
        }
    }
    assert(pv.take(paths.len() as int) =~= pv);
    r
}

/// The replay files among the entries of the replay folders: extension
/// `rofl` in any ASCII case, each path once ignoring case, first kept.
pub fn replay_files(entries: &Vec<String>) -> (r: Vec<String>)
    ensures
        ({
            let ks = keep(entries@.map_values(|p: String| p@), |p: Seq<char>| has_ext_ci(p, "rofl"@));
            let idx = first_of_each_key(ks.map_values(|p: Seq<char>| unicode_lowercase(p)), ks.len());
            &&& r.len() == idx.len()
            &&& forall|i: int| 0 <= i < idx.len() ==> 0 <= #[trigger] idx[i] < ks.len()
            &&& forall|i: int| 0 <= i < r.len() ==> r@[i]@ == ks[idx[i]]
        }),
{
    let kept = keep_ext_ci(entries, "rofl");
    let r = unique_paths(kept);
    proof {
        let ks = kept@.map_values(|p: String| p@);
        assert(kept@.map_values(|p: String| unicode_lowercase(p@)) =~= ks.map_values(
            |p: Seq<char>| unicode_lowercase(p),
        ));
    }
    r
}

/// The label a skybox is listed under: its file stem, or `skybox`.
pub open spec fn skybox_label(p: Seq<char>) -> Seq<char> {
    match file_stem(p) {
        Some(s) => s,
        None => "skybox"@,
    }
}

/// The skyboxes among the entries of the skybox folders: extension `dds`
/// in any ASCII case, each path once ignoring case, first kept, each with
/// its label.
pub fn skybox_entries(entries: &Vec<String>) -> (r: Vec<(String, String)>)
    ensures
        ({
            let ks = keep(entries@.map_values(|p: String| p@), |p: Seq<char>| has_ext_ci(p, "dds"@));
            let idx = first_of_each_key(ks.map_values(|p: Seq<char>| unicode_lowercase(p)), ks.len());
            &&& r.len() == idx.len()
            &&& forall|i: int| 0 <= i < idx.len() ==> 0 <= #[trigger] idx[i] < ks.len()
            &&& forall|i: int| 0 <= i < r.len() ==> r@[i].1@ == ks[idx[i]] && r@[i].0@
                == skybox_label(ks[idx[i]])
        }),
{
    let kept = keep_ext_ci(entries, "dds");
    let ghost kv = kept@;
    let ghost ks = kv.map_values(|p: String| p@);
    let ghost idx = first_of_each_key(ks.map_values(|p: Seq<char>| unicode_lowercase(p)), ks.len());
    assert(kv.map_values(|p: String| unicode_lowercase(p@)) =~= ks.map_values(
        |p: Seq<char>| unicode_lowercase(p),
    ));
    let u = unique_paths(kept);
    assert(u.len() == idx.len());
    assert forall|i: int| 0 <= i < u.len() implies #[trigger] u@[i]@ == ks[idx[i]] by {
        assert(0 <= idx[i] < kv.len());
        assert(u@[i]@ == kv[idx[i]]@);
    }
    let mut r: Vec<(String, String)> = Vec::new();
    for i in 0..u.len()
        invariant
            r.len() == i,
            u.len() == idx.len(),
            forall|j: int| 0 <= j < u.len() ==> #[trigger] u@[j]@ == ks[idx[j]],
            forall|j: int| 0 <= j < i ==> (#[trigger] r@[j]).1@ == u@[j]@,
            forall|j: int| 0 <= j < i ==> (#[trigger] r@[j]).0@ == skybox_label(u@[j]@),
    {
        let label = match crate::paths::file_stem_of(u[i].as_str()) {
            Some(s) => s,
            None => "skybox".to_owned(),
        };
        r.push((label, u[i].clone()));
    }
    assert(r.len() == idx.len());
    assert(forall|i: int| 0 <= i < idx.len() ==> 0 <= #[trigger] idx[i] < ks.len());
    assert forall|i: int| 0 <= i < r.len() implies r@[i].1@ == ks[idx[i]] && r@[i].0@
        == skybox_label(ks[idx[i]]) by {
        assert(u@[i]@ == ks[idx[i]]);
    }
    r
}

/// What `str::parse::<u32>` gives.
pub open spec fn parse_u32(s: Seq<char>) -> Option<u32> {
    match parse_u64(s) {
        Some(v) => if v <= u32::MAX {
            Some(v as u32)
        } else {
            None
        },
        None => None,
    }
}

/// The first line that holds a process id (surrounding whitespace allowed).
pub open spec fn first_pid_in(ls: Seq<Seq<char>>) -> Option<u32>
    decreases ls.len(),
{
    if ls.len() == 0 {
        None
    } else {
        match parse_u32(trim(ls[0])) {
            Some(p) => Some(p),
            None => first_pid_in(ls.drop_first()),
        }
    }
}

/// The process id a line holds, if it is one.
fn pid_of_line(line: &Vec<char>) -> (r: Option<u32>)
    ensures
        r == parse_u32(trim(line@)),
{
    let t = trim_vec(line);
    match parse_u64_vec(&t) {
        Some(n) => if n <= 4294967295u64 {
            Some(n as u32)
        } else {
            None
        },
        None => None,
    }
}

/// The game's process id in what `pgrep -x LeagueofLegends` printed: the
/// first line that is a number.
pub fn pid_from_pgrep(out: &str) -> (r: Option<u32>)
    ensures
        r == first_pid_in(lines(out@)),
{
    let v = chars_of(out);
    let ls = lines_vec(&v);
    let ghost lv = ls@.map_values(|p: Vec<char>| p@);
    let ghost whole = first_pid_in(lv);
    assert(lv == lines(out@));
    assert(lv.skip(0) =~= lv);
    for i in 0..ls.len()
        invariant
            lv == ls@.map_values(|p: Vec<char>| p@),
            whole == first_pid_in(lines(out@)),
            whole == first_pid_in(lv.skip(i as int)),
    {
        let ghost rest = lv.skip(i as int);
        assert(rest[0] == ls@[i as int]@);
        assert(rest.drop_first() =~= lv.skip(i + 1));
        let p = pid_of_line(&ls[i]);
        if p.is_some() {
            return p;
        }
    }
    assert(lv.skip(ls.len() as int).len() == 0);
    None
}

/// The install folder of the first install whose config sits in a
/// `Config` folder.
pub open spec fn first_lol_dir(cfgs: Seq<Seq<char>>) -> Option<Seq<char>>
    decreases cfgs.len(),
{
    if cfgs.len() == 0 {
        None
    } else {
        match lol_dir(cfgs[0]) {
            Some(d) => Some(d),
            None => first_lol_dir(cfgs.drop_first()),
        }
    }
}

/// The replay folder inside the first install that has one: `<install>/Replays`.
pub fn replay_dir_of(installs: &Vec<GameInstall>) -> (r: Option<String>)
    ensures
        match r {
            Some(d) => exists|root: Seq<char>|
                first_lol_dir(installs@.map_values(|g: GameInstall| g.cfg@)) == Some(root) && d@
                    == join(root, "Replays"@),
            None => first_lol_dir(installs@.map_values(|g: GameInstall| g.cfg@)) is None,
        },
{
    let ghost cv = installs@.map_values(|g: GameInstall| g.cfg@);
    assert(cv.skip(0) =~= cv);
    for i in 0..installs.len()
        invariant
            cv == installs@.map_values(|g: GameInstall| g.cfg@),
            first_lol_dir(cv) == first_lol_dir(cv.skip(i as int)),
    {
        assert(cv.skip(i as int)[0] == installs@[i as int].cfg@);
        assert(cv.skip(i as int).drop_first() =~= cv.skip(i + 1));
        match lol_dir_from_cfg(installs[i].cfg.as_str()) {
            Some(root) => {
                return Some(join_path(root.as_str(), "Replays"));
            },
            None => {},
        }
    }
    assert(cv.skip(installs.len() as int).len() == 0);
    None
}

/// The replay folder under a home folder that League uses without an install.
pub open spec fn docs_replays(home: Seq<char>) -> Seq<char> {
    join(home, "Documents/League of Legends/Replays"@)
}

/// The replay folder under a home folder.
pub fn docs_replays_of(home: &str) -> (r: String)
    ensures
        r@ == docs_replays(home@),
{
    join_path(home, "Documents/League of Legends/Replays")
}

/// The folders searched for replays, before the ones that do not exist
/// are dropped: the install's replay folder, then the one under the home
/// folder.
pub fn replay_dir_candidates(preferred: Option<String>, home: Option<&str>) -> (r: Vec<String>)
    ensures
        r@.map_values(|d: String| d@) == (match preferred {
            Some(p) => seq![p@],
            None => Seq::<Seq<char>>::empty(),
        }) + (match home {
            Some(h) => seq![docs_replays(h@)],
            None => Seq::<Seq<char>>::empty(),
        }),
{
    let mut r: Vec<String> = Vec::new();
    match preferred {
        Some(p) => r.push(p),
        None => {},
    }
    let ghost mid = r@;
    match home {
        Some(h) => r.push(docs_replays_of(h)),
        None => {},
    }
    assert(r@.map_values(|d: String| d@) =~= (match preferred {
        Some(p) => seq![p@],
        None => Seq::<Seq<char>>::empty(),
    }) + (match home {
        Some(h) => seq![docs_replays(h@)],
        None => Seq::<Seq<char>>::empty(),
    }));
    r
}

/// The folders skyboxes are looked for in, before the ones that do not
/// exist are dropped: the settings folder's `skyboxes`; beside the
/// executable, the bundle's resources and the `assets` folders one to
/// three levels up; and under the working folder.
pub open spec fn skybox_candidates(config: Seq<char>, exe: Option<Seq<char>>, cwd: Option<Seq<char>>) -> Seq<Seq<char>> {
    let base = seq![join(config, "skyboxes"@)];
    let from_exe = match exe {
        Some(e) => match parent(e) {
            Some(m) => (match parent(m) {
                Some(c) => seq![join(c, "Resources/skyboxes"@), join(c, "Resources/assets/skyboxes"@)],
                None => Seq::<Seq<char>>::empty(),
            }) + seq![
                join(m, "../assets/skyboxes"@),
                join(m, "../../assets/skyboxes"@),
                join(m, "../../../assets/skyboxes"@),
            ],
            None => Seq::<Seq<char>>::empty(),
        },
        None => Seq::<Seq<char>>::empty(),
    };
    let from_cwd = match cwd {
        Some(c) => seq![join(c, "assets/skyboxes"@), join(c, "../leaguedirector/resources/skyboxes"@)],
        None => Seq::<Seq<char>>::empty(),
    };
    base + from_exe + from_cwd
}

/// The folders skyboxes are looked for in.
pub fn skybox_dir_candidates(config: &str, exe: Option<&str>, cwd: Option<&str>) -> (r: Vec<String>)
    ensures
        r@.map_values(|d: String| d@) == skybox_candidates(
            config@,
            match exe {
                Some(e) => Some(e@),
                None => None,
            },
            match cwd {
                Some(c) => Some(c@),
                None => None,
            },
        ),
{
    let mut r: Vec<String> = Vec::new();
    r.push(join_path(config, "skyboxes"));
    let ghost after_base = r@.map_values(|d: String| d@);
    match exe {
        Some(e) => match parent_of(e) {
            Some(m) => {
                match parent_of(m.as_str()) {
                    Some(c) => {
                        r.push(join_path(c.as_str(), "Resources/skyboxes"));
                        r.push(join_path(c.as_str(), "Resources/assets/skyboxes"));
                    },
                    None => {},
                }
                r.push(join_path(m.as_str(), "../assets/skyboxes"));
                r.push(join_path(m.as_str(), "../../assets/skyboxes"));
                r.push(join_path(m.as_str(), "../../../assets/skyboxes"));
            },
            None => {},
        },
        None => {},
    }
    let ghost after_exe = r@.map_values(|d: String| d@);
    match cwd {
        Some(c) => {
            r.push(join_path(c, "assets/skyboxes"));
            r.push(join_path(c, "../leaguedirector/resources/skyboxes"));
        },
        None => {},
    }
    let ghost ev = match exe {
        Some(e) => Some(e@),
        None => None::<Seq<char>>,
    };
    let ghost wv = match cwd {
        Some(c) => Some(c@),
        None => None::<Seq<char>>,
    };
    assert(r@.map_values(|d: String| d@) =~= skybox_candidates(config@, ev, wv));
    r
}

/// The game logs among a log folder's entries: names ending in `r3dlog.txt`.
pub open spec fn is_game_log(p: Seq<char>) -> bool {
    ends_with(crate::media::name_of(p), "r3dlog.txt"@)
}

/// The game logs among a log folder's entries, in order.
pub fn game_log_files(entries: &Vec<String>) -> (r: Vec<String>)
    ensures
        r@.map_values(|p: String| p@) == keep(
            entries@.map_values(|p: String| p@),
            |p: Seq<char>| is_game_log(p),
        ),
{
    let sufs: Vec<&str> = vec!["r3dlog.txt"];
    let ghost sv = sufs@.map_values(|s: &str| s@);
    assert(sv =~= seq!["r3dlog.txt"@]);
    assert forall|p: Seq<char>| crate::media::ends_with_any(crate::media::name_of(p), sv)
        == is_game_log(p) by {
        if is_game_log(p) {
            assert(ends_with(crate::media::name_of(p), sv[0]));
        }
    }
    let r = crate::media::keep_ending(entries, &sufs);
    assert((|p: Seq<char>| crate::media::ends_with_any(crate::media::name_of(p), sv)) =~= (|
        p: Seq<char>,
    | is_game_log(p)));
    r
}

/// The keys at the kept positions, in order.
pub open spec fn kept_keys(keys: Seq<Seq<char>>, n: nat) -> Seq<Seq<char>> {
    first_of_each_key(keys, n).map_values(|k: int| keys[k])
}

/// The kept positions lie below `n` and rise.
proof fn lemma_kept_positions_rise(keys: Seq<Seq<char>>, n: nat)
    ensures
        forall|i: int|
            0 <= i < first_of_each_key(keys, n).len() ==> 0 <= #[trigger] first_of_each_key(keys, n)[i]
                < n,
        forall|i: int, j: int|
            0 <= i < j < first_of_each_key(keys, n).len() ==> first_of_each_key(keys, n)[i]
                < first_of_each_key(keys, n)[j],
    decreases n,
{
    if n > 0 {
        let p = (n - 1) as nat;
        lemma_kept_positions_rise(keys, p);
        let prev = first_of_each_key(keys, p);
        if !key_seen(keys, p as int, keys[p as int]) {
            assert(first_of_each_key(keys, n) == prev.push(p as int));
        }
    }
}

/// No two kept positions hold the same key.
proof fn lemma_kept_keys_differ(keys: Seq<Seq<char>>, n: nat)
    requires
        n <= keys.len(),
    ensures
        forall|i: int, j: int|
            0 <= i < j < first_of_each_key(keys, n).len() ==> keys[first_of_each_key(keys, n)[i]]
                != keys[first_of_each_key(keys, n)[j]],
    decreases n,
{
    if n > 0 {
        let p = (n - 1) as nat;
        lemma_kept_keys_differ(keys, p);
        lemma_kept_positions_rise(keys, p);
        let prev = first_of_each_key(keys, p);
        if !key_seen(keys, p as int, keys[p as int]) {
            let cur = first_of_each_key(keys, n);
            assert(cur == prev.push(p as int));
            assert forall|i: int, j: int| 0 <= i < j < cur.len() implies keys[cur[i]] != keys[cur[j]] by {
                if j == cur.len() - 1 {
                    assert(cur[i] == prev[i]);
                    let k = prev[i];
                    assert(0 <= k < p);
                    if keys[k] == keys[p as int] {
                        assert(key_seen(keys, p as int, keys[p as int]));
                    }
                } else {
                    assert(cur[i] == prev[i] && cur[j] == prev[j]);
                }
            }
        }
    }
}

/// Every key among the first `n` entries is held by a kept position.
proof fn lemma_kept_keys_cover(keys: Seq<Seq<char>>, n: nat)
    requires
        n <= keys.len(),
    ensures
        forall|m: int|
            0 <= m < n ==> #[trigger] key_seen(kept_keys(keys, n), kept_keys(keys, n).len() as int, keys[m]),
    decreases n,
{
    if n > 0 {
        let p = (n - 1) as nat;
        lemma_kept_keys_cover(keys, p);
        let prev = first_of_each_key(keys, p);
        let cur = first_of_each_key(keys, n);
        let pk = kept_keys(keys, p);
        let ck = kept_keys(keys, n);
        if key_seen(keys, p as int, keys[p as int]) {
            assert(cur == prev);
            assert forall|m: int| 0 <= m < n implies #[trigger] key_seen(ck, ck.len() as int, keys[m]) by {
                if m == p {
                    let j = choose|j: int| 0 <= j < p && keys[j] == keys[p as int];
                    assert(key_seen(pk, pk.len() as int, keys[j]));
                } else {
                    assert(key_seen(pk, pk.len() as int, keys[m]));
                }
            }
        } else {
            assert(cur == prev.push(p as int));
            assert(ck =~= pk.push(keys[p as int]));
            assert forall|m: int| 0 <= m < n implies #[trigger] key_seen(ck, ck.len() as int, keys[m]) by {
                if m == p {
                    assert(ck[ck.len() - 1] == keys[m]);
                } else {
                    assert(key_seen(pk, pk.len() as int, keys[m]));
                    let i = choose|i: int| 0 <= i < pk.len() && pk[i] == keys[m];
                    assert(ck[i] == pk[i]);
                }
            }
        }
    }
}

/// Keeping the first entry of each key lists every key exactly once: the
/// kept positions lie below `n` and rise, no two of them hold the same
/// key, and every key among the first `n` entries is held by a kept
/// position.
pub proof fn lemma_each_key_once(keys: Seq<Seq<char>>, n: nat)
    requires
        n <= keys.len(),
    ensures
        forall|i: int|
            0 <= i < first_of_each_key(keys, n).len() ==> 0 <= #[trigger] first_of_each_key(keys, n)[i]
                < n,
        forall|i: int, j: int|
            0 <= i < j < first_of_each_key(keys, n).len() ==> first_of_each_key(keys, n)[i]
                < first_of_each_key(keys, n)[j] && keys[first_of_each_key(keys, n)[i]]
                != keys[first_of_each_key(keys, n)[j]],
        forall|m: int|
            0 <= m < n ==> #[trigger] key_seen(kept_keys(keys, n), kept_keys(keys, n).len() as int, keys[m]),
{
    lemma_kept_positions_rise(keys, n);
    lemma_kept_keys_differ(keys, n);
    lemma_kept_keys_cover(keys, n);
}

} // verus!

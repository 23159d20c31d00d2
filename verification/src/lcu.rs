//! League Client (LCU) helpers: the game id in a `.rofl` file name, the
//! port and password in the client's lockfile, the request URLs, and the
//! places the lockfile is looked for.
use vstd::prelude::*;
use crate::paths::{
    dot_dot, extension, file_name, file_stem, has_extension, join, join_path, last_dot, last_sep_char,
    lemma_join_file_name, stem_len,
};
use crate::text::{
    chars_of, decimal, decimal_vec, is_digit, lemma_decimal_digits, lemma_decimal_parses, parse_u64,
    parse_u64_vec, push_all, push_str, rfind, slice, split_on, split_vec, string_of, trim, trim_vec,
};

verus! {

broadcast use vstd::seq_lib::group_seq_properties;

/// What follows the last `c` in `s` (all of `s` when there is none): the
/// first item of `str::rsplit`.
pub open spec fn after_last(s: Seq<char>, c: char) -> Seq<char> {
    s.skip(last_sep_char(s, c, s.len() as int) + 1)
}

/// The game id of a replay file: the number after the last `-` of the
/// file stem, as in `EUW1-7948514464.rofl`.
pub open spec fn rofl_game_id(path: Seq<char>) -> Option<u64> {
    match file_stem(path) {
        Some(st) => parse_u64(after_last(st, '-')),
        None => None,
    }
}

proof fn lemma_rfind_last(s: Seq<char>, c: char, k: int)
    requires
        0 <= k < s.len(),
        s[k] == c,
        forall|j: int| k < j < s.len() ==> s[j] != c,
    ensures
        last_sep_char(s, c, s.len() as int) == k,
    decreases s.len() - k,
{
    lemma_last_sep_char_from(s, c, s.len() as int, k);
}

proof fn lemma_last_sep_char_from(s: Seq<char>, c: char, e: int, k: int)
    requires
        0 <= k < e <= s.len(),
        s[k] == c,
        forall|j: int| k < j < e ==> s[j] != c,
    ensures
        last_sep_char(s, c, e) == k,
    decreases e - k,
{
    if e - 1 > k {
        lemma_last_sep_char_from(s, c, e - 1, k);
    }
}

proof fn lemma_last_sep_char_none(s: Seq<char>, c: char, e: int)
    requires
        0 <= e <= s.len(),
        forall|j: int| 0 <= j < e ==> s[j] != c,
    ensures
        last_sep_char(s, c, e) == -1,
    decreases e,
{
    if e > 0 {
        lemma_last_sep_char_none(s, c, e - 1);
    }
}

/// The game id of a `.rofl` path: its file stem's part after the last `-`,
/// parsed as a number.
pub fn game_id_from_rofl(path: &str) -> (r: Option<u64>)
    ensures
        r == rofl_game_id(path@),
{
    let stem = match crate::paths::file_stem_of(path) {
        Some(st) => st,
        None => return None,
    };
    let sv = chars_of(stem.as_str());
    let tail: Vec<char> = match rfind(&sv, '-') {
        Some(k) => {
            proof {
                lemma_rfind_last(sv@, '-', k as int);
            }
            let t = slice(&sv, k + 1, sv.len());
            assert(t@ =~= sv@.skip(k + 1));
            t
        },
        None => {
            proof {
                assert forall|j: int| 0 <= j < sv@.len() implies sv@[j] != '-' by {
                    if sv@[j] == '-' {
                        assert(crate::text::has_char(sv@, '-'));
                    }
                }
                lemma_last_sep_char_none(sv@, '-', sv@.len() as int);
            }
            assert(sv@.skip(0) =~= sv@);
            sv
        },
    };
    parse_u64_vec(&tail)
}

/// The port and password fields of the client's lockfile text
/// `name:pid:port:password:protocol`: the trimmed text split at `:` must
/// have at least five fields.
pub open spec fn lockfile_fields(raw: Seq<char>) -> Option<(Seq<char>, Seq<char>)> {
    let parts = split_on(trim(raw), ':');
    if parts.len() < 5 {
        None
    } else {
        Some((parts[2], parts[3]))
    }
}

/// The port and password in a lockfile text; `None` for a malformed one.
pub fn parse_lockfile(raw: &str) -> (r: Option<(String, String)>)
    ensures
        match r {
            Some((port, password)) => lockfile_fields(raw@) == Some((port@, password@)),
            None => lockfile_fields(raw@) is None,
        },
{
    let v = chars_of(raw);
    let t = trim_vec(&v);
    let parts = split_vec(&t, ':');
    if parts.len() < 5 {
        return None;
    }
    assert(parts@.map_values(|p: Vec<char>| p@)[2] == parts@[2]@);
    assert(parts@.map_values(|p: Vec<char>| p@)[3] == parts@[3]@);
    Some((string_of(&parts[2]), string_of(&parts[3])))
}

/// `https://127.0.0.1:<port><path>`.
pub open spec fn lcu_url_spec(port: Seq<char>, path: Seq<char>) -> Seq<char> {
    "https://127.0.0.1:"@ + port + path
}

/// The URL of an LCU endpoint on the local client.
pub fn lcu_url(port: &str, path: &str) -> (r: String)
    ensures
        r@ == lcu_url_spec(port@, path@),
{
    let mut v: Vec<char> = Vec::new();
    push_str(&mut v, "https://127.0.0.1:");
    push_str(&mut v, port);
    push_str(&mut v, path);
    string_of(&v)
}

/// `/lol-replays/v2/metadata/<id>/create`.
pub fn metadata_path(game_id: u64) -> (r: String)
    ensures
        r@ == "/lol-replays/v2/metadata/"@ + decimal(game_id as nat) + "/create"@,
{
    let mut v: Vec<char> = Vec::new();
    push_str(&mut v, "/lol-replays/v2/metadata/");
    let d = decimal_vec(game_id);
    push_all(&mut v, &d);
    push_str(&mut v, "/create");
    string_of(&v)
}

/// `/lol-replays/v1/rofls/<id>/watch`.
pub fn watch_path(game_id: u64) -> (r: String)
    ensures
        r@ == "/lol-replays/v1/rofls/"@ + decimal(game_id as nat) + "/watch"@,
{
    let mut v: Vec<char> = Vec::new();
    push_str(&mut v, "/lol-replays/v1/rofls/");
    let d = decimal_vec(game_id);
    push_all(&mut v, &d);
    push_str(&mut v, "/watch");
    string_of(&v)
}

/// Where the lockfile of an install root would be.
pub open spec fn root_lockfile(root: Seq<char>) -> Seq<char> {
    if extension(root) == Some("app"@) {
        join(root, "Contents/LoL/lockfile"@)
    } else {
        join(root, "lockfile"@)
    }
}

/// The fixed places the client may also write its lockfile to.
pub open spec fn fixed_lockfiles() -> Seq<Seq<char>> {
    seq![
        "/Applications/League of Legends.app/Contents/LoL/lockfile"@,
        "/Applications/League of Legends (PBE).app/Contents/LoL/lockfile"@,
        "/Users/Shared/Riot Games/Metadata/league_of_legends.live/league_of_legends.live.lockfile"@,
    ]
}

/// The lockfile paths to try, in order: one per install root, then the
/// fixed places.
pub fn lockfile_candidates(roots: &Vec<String>) -> (r: Vec<String>)
    ensures
        r@.map_values(|s: String| s@) == roots@.map_values(|s: String| root_lockfile(s@))
            + fixed_lockfiles(),
{
    let mut r: Vec<String> = Vec::new();
    for i in 0..roots.len()
        invariant
            r@.map_values(|s: String| s@) == roots@.take(i as int).map_values(
                |s: String| root_lockfile(s@),
            ),
    {
        let root = roots[i].as_str();
        let ghost before = r@.map_values(|s: String| s@);
        if has_extension(root, "app") {
            r.push(join_path(root, "Contents/LoL/lockfile"));
        } else {
            r.push(join_path(root, "lockfile"));
        }
        assert(roots@.take(i + 1).map_values(|s: String| root_lockfile(s@)) =~= roots@.take(
            i as int,
        ).map_values(|s: String| root_lockfile(s@)).push(root_lockfile(roots@[i as int]@)));
        assert(r@.map_values(|s: String| s@) =~= before.push(root_lockfile(roots@[i as int]@)));
    }
    assert(roots@.take(roots.len() as int) =~= roots@);
    let ghost before = r@.map_values(|s: String| s@);
    r.push("/Applications/League of Legends.app/Contents/LoL/lockfile".to_owned());
    r.push("/Applications/League of Legends (PBE).app/Contents/LoL/lockfile".to_owned());
    r.push(
        "/Users/Shared/Riot Games/Metadata/league_of_legends.live/league_of_legends.live.lockfile".to_owned(),
    );
    assert(r@.map_values(|s: String| s@) =~= before + fixed_lockfiles());
    r
}

/// Where a replay is copied so that League can read it: the replay
/// folder joined with the replay's file name (nothing when it has none).
pub open spec fn rofl_dest(dest_dir: Seq<char>, src: Seq<char>) -> Seq<char> {
    join(dest_dir, match file_name(src) {
        Some(n) => n,
        None => Seq::empty(),
    })
}

/// The place a replay is copied to before the client is asked to watch it.
pub fn rofl_dest_of(dest_dir: &str, src: &str) -> (r: String)
    ensures
        r@ == rofl_dest(dest_dir@, src@),
{
    match crate::paths::file_name_of(src) {
        Some(n) => join_path(dest_dir, n.as_str()),
        None => {
            let r = join_path(dest_dir, "");
            proof {
                reveal_strlit("");
            }
            r
        },
    }
}

/// A replay saved as `<region>-<game id>.rofl` in any folder gives back
/// that game id: League names replays this way, and the id is what the
/// client is asked to watch.
pub proof fn lemma_game_id_round_trip(dir: Seq<char>, region: Seq<char>, id: u64)
    requires
        forall|j: int| 0 <= j < region.len() ==> #[trigger] region[j] != '/',
    ensures
        rofl_game_id(join(dir, region + seq!['-'] + decimal(id as nat) + ".rofl"@)) == Some(id),
{
    reveal_strlit(".rofl");
    let d = decimal(id as nat);
    lemma_decimal_digits(id as nat);
    lemma_decimal_parses(id);
    let ext = ".rofl"@;
    let x = region + seq!['-'] + d + ext;
    let r = region.len() as int;
    let l = x.len() as int;
    assert(l == r + 1 + d.len() + 5);
    assert forall|j: int| 0 <= j < x.len() implies #[trigger] x[j] != '/' by {
        if j < r {
            assert(x[j] == region[j]);
        } else if j == r {
            assert(x[j] == '-');
        } else if j < r + 1 + d.len() {
            assert(x[j] == d[j - r - 1]);
            assert(is_digit(d[j - r - 1]));
        } else {
            assert(x[j] == ext[j - r - 1 - d.len()]);
        }
    }
    assert(x != seq!['.']) by {
        assert(x.len() > 1);
    }
    assert(x != dot_dot()) by {
        assert(x.len() > 2);
    }
    lemma_join_file_name(dir, x);
    let k = l - 5;
    assert(x[k] == '.');
    assert forall|j: int| k < j < l implies x[j] != '.' by {
        assert(x[j] == ext[j - k]);
    }
    lemma_last_sep_char_from(x, '.', l, k);
    assert(last_dot(x) == k);
    assert(stem_len(x) == k);
    let st = x.take(k);
    assert(st =~= region + seq!['-'] + d);
    assert(st[r] == '-');
    assert forall|j: int| r < j < st.len() implies st[j] != '-' by {
        assert(st[j] == d[j - r - 1]);
        assert(is_digit(d[j - r - 1]));
    }
    lemma_last_sep_char_from(st, '-', st.len() as int, r);
    assert(after_last(st, '-') =~= d);
}

} // verus!

//! Where saved looks and saved sequences live: the looks folder, the file
//! name a user-given name becomes, and which folder entries are saved
//! files.
use vstd::prelude::*;
use crate::detect::keep;
use crate::paths::{dot_dot, extension, file_name, join, join_path, lemma_join_file_name};
use crate::settings::{config_dir, config_dir_of};
use crate::text::{chars_of, is_ws, string_of, trim, trim_end, trim_start, trim_vec};

verus! {

broadcast use vstd::seq_lib::group_seq_properties;

/// The folder looks are saved in.
pub fn dir() -> (r: String)
    ensures
        exists|home: Option<Seq<char>>| r@ == join(config_dir_of(home), "looks"@),
{
    let c = config_dir();
    join_path(c.as_str(), "looks")
}

/// ASCII letters and digits.
pub open spec fn is_ascii_alnum(c: char) -> bool {
    ('a' <= c && c <= 'z') || ('A' <= c && c <= 'Z') || ('0' <= c && c <= '9')
}

/// A character as it may stand in a file name: ASCII letters and digits,
/// `-`, `_` and the space are kept, anything else becomes `_`.
pub open spec fn name_char(c: char) -> char {
    if is_ascii_alnum(c) || c == '-' || c == '_' || c == ' ' {
        c
    } else {
        '_'
    }
}

/// The file stem a name becomes: each character made safe, then trimmed.
pub open spec fn sanitized(name: Seq<char>) -> Seq<char> {
    trim(name.map_values(|c: char| name_char(c)))
}

/// The file stem a user-given name is saved under.
pub fn sanitize(name: &str) -> (r: String)
    ensures
        r@ == sanitized(name@),
{
    let v = chars_of(name);
    let mut m: Vec<char> = Vec::new();
    for i in 0..v.len()
        invariant
            m@ == v@.take(i as int).map_values(|c: char| name_char(c)),
    {
        let c = v[i];
        let k = if ('a' <= c && c <= 'z') || ('A' <= c && c <= 'Z') || ('0' <= c && c <= '9')
            || c == '-' || c == '_' || c == ' ' {
            c
        } else {
            '_'
        };
        m.push(k);
        assert(v@.take(i + 1).map_values(|c: char| name_char(c)) =~= v@.take(i as int).map_values(
            |c: char| name_char(c),
        ).push(name_char(c)));
    }
    assert(v@.take(v.len() as int) =~= v@);
    let t = trim_vec(&m);
    string_of(&t)
}

/// The file a name is saved to in `folder`: `<stem>.json`, or the error
/// `name required` when nothing of the name is left.
pub open spec fn json_path_spec(folder: Seq<char>, name: Seq<char>) -> Result<Seq<char>, Seq<char>> {
    let stem = sanitized(name);
    if stem.len() == 0 {
        Err("name required"@)
    } else {
        Ok(join(folder, stem + ".json"@))
    }
}

/// The file a look or a sequence called `name` is saved to in `folder`.
pub fn json_path(folder: &str, name: &str) -> (r: Result<String, String>)
    ensures
        match (r, json_path_spec(folder@, name@)) {
            (Ok(p), Ok(q)) => p@ == q,
            (Err(e), Err(f)) => e@ == f,
            _ => false,
        },
{
    let stem = sanitize(name);
    let mut file = chars_of(stem.as_str());
    if file.len() == 0 {
        return Err("name required".to_owned());
    }
    let ext = chars_of(".json");
    crate::text::push_all(&mut file, &ext);
    let f = string_of(&file);
    Ok(join_path(folder, f.as_str()))
}

/// Whether a folder entry is a saved file: its extension is `json`.
pub open spec fn is_json(p: Seq<char>) -> bool {
    extension(p) == Some("json"@)
}

/// The saved files among a folder's entries, in order.
pub fn json_files(entries: &Vec<String>) -> (r: Vec<String>)
    ensures
        r@.map_values(|p: String| p@) == keep(
            entries@.map_values(|p: String| p@),
            |p: Seq<char>| is_json(p),
        ),
{
    let ghost f = |p: Seq<char>| is_json(p);
    let ghost pv = entries@.map_values(|p: String| p@);
    let mut r: Vec<String> = Vec::new();
    for i in 0..entries.len()
        invariant
            pv == entries@.map_values(|p: String| p@),
            f == (|p: Seq<char>| is_json(p)),
            r@.map_values(|p: String| p@) == keep(pv.take(i as int), f),
    {
        let ghost before = r@;
        assert(pv.take(i + 1).drop_last() =~= pv.take(i as int));
        assert(pv.take(i + 1).last() == entries@[i as int]@);
        if crate::paths::has_extension(entries[i].as_str(), "json") {
            r.push(entries[i].clone());
            assert(r@ =~= before.push(entries@[i as int]));
            assert(r@.map_values(|p: String| p@) =~= before.map_values(|p: String| p@).push(
                entries@[i as int]@,
            ));
        }
    }
    assert(pv.take(entries.len() as int) =~= pv);
    r
}

/// A character that can neither split a path nor make a `.` or `..`
/// component.
pub open spec fn plain_char(c: char) -> bool {
    c != '/' && c != '.'
}

proof fn lemma_trim_start_plain(s: Seq<char>)
    requires
        forall|j: int| 0 <= j < s.len() ==> plain_char(#[trigger] s[j]),
    ensures
        forall|j: int| 0 <= j < trim_start(s).len() ==> plain_char(#[trigger] trim_start(s)[j]),
    decreases s.len(),
{
    if s.len() > 0 && is_ws(s[0]) {
        assert forall|j: int| 0 <= j < s.drop_first().len() implies plain_char(
            #[trigger] s.drop_first()[j],
        ) by {
            assert(s.drop_first()[j] == s[j + 1]);
        }
        lemma_trim_start_plain(s.drop_first());
        assert(trim_start(s) == trim_start(s.drop_first()));
    } else {
        assert(trim_start(s) == s);
    }
}

proof fn lemma_trim_end_plain(s: Seq<char>)
    requires
        forall|j: int| 0 <= j < s.len() ==> plain_char(#[trigger] s[j]),
    ensures
        forall|j: int| 0 <= j < trim_end(s).len() ==> plain_char(#[trigger] trim_end(s)[j]),
    decreases s.len(),
{
    if s.len() > 0 && is_ws(s.last()) {
        assert forall|j: int| 0 <= j < s.drop_last().len() implies plain_char(
            #[trigger] s.drop_last()[j],
        ) by {
            assert(s.drop_last()[j] == s[j]);
        }
        lemma_trim_end_plain(s.drop_last());
        assert(trim_end(s) == trim_end(s.drop_last()));
    } else {
        assert(trim_end(s) == s);
    }
}

/// Every character of a sanitized name is plain.
proof fn lemma_sanitized_plain(name: Seq<char>)
    ensures
        forall|j: int| 0 <= j < sanitized(name).len() ==> plain_char(#[trigger] sanitized(name)[j]),
{
    let m = name.map_values(|c: char| name_char(c));
    assert forall|j: int| 0 <= j < m.len() implies plain_char(#[trigger] m[j]) by {
        assert(m[j] == name_char(name[j]));
    }
    lemma_trim_start_plain(m);
    lemma_trim_end_plain(trim_start(m));
}

/// A look or sequence saved under any name is the file
/// `<sanitized name>.json` of the path: whatever the name holds, it adds
/// no folder to the path.
pub proof fn lemma_saved_file_stays_in_folder(folder: Seq<char>, name: Seq<char>)
    requires
        json_path_spec(folder, name) is Ok,
    ensures
        file_name(json_path_spec(folder, name)->Ok_0) == Some(sanitized(name) + ".json"@),
{
    reveal_strlit(".json");
    let stem = sanitized(name);
    lemma_sanitized_plain(name);
    let x = stem + ".json"@;
    assert(x.len() == stem.len() + 5);
    assert forall|j: int| 0 <= j < x.len() implies #[trigger] x[j] != '/' by {
        if j < stem.len() {
            assert(plain_char(stem[j]));
        }
    }
    assert(x != seq!['.']) by {
        assert(x.len() > 1);
    }
    assert(x != dot_dot()) by {
        assert(x.len() > 2);
    }
    lemma_join_file_name(folder, x);
}

} // verus!

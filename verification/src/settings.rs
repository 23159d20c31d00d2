//! The desk's settings: folders, last tab and names, key bindings and the
//! list of recent clips, and the folder under the user's Documents that
//! holds them.
use vstd::prelude::*;
use crate::binding_map::{default_map, default_view, merge_defaults, Bindings};
use crate::paths::{join, join_path};
use crate::text::{chars_of, trim, trim_vec};

verus! {

broadcast use vstd::seq_lib::group_seq_properties;

/// How many recent clips are remembered.
pub const MAX_CLIPS: usize = 24;

/// The desk's settings as stored in `config.json`.
pub struct Settings {
    pub record_dir: String,
    pub last_tab: usize,
    pub show_hud: bool,
    pub sequence_dir: String,
    pub last_sequence: String,
    pub last_look: String,
    pub bindings: Bindings,
    pub clips: Vec<String>,
}

/// `directories::UserDirs`, the user's standard folders.
#[verifier::external_type_specification]
#[verifier::external_body]
pub struct ExUserDirs(directories::UserDirs);

/// `directories::UserDirs::new`: the user's folders, when a home folder
/// can be found.  That depends on the environment, so nothing is stated.
#[verifier::external_body]
fn user_dirs_new() -> Option<directories::UserDirs> {
    directories::UserDirs::new()
}

/// `directories::UserDirs::home_dir`, as text.  Nothing is stated: the
/// folder comes from the environment the value was made in.
#[verifier::external_body]
fn user_dirs_home(dirs: &directories::UserDirs) -> String {
    dirs.home_dir().to_string_lossy().into_owned()
}

/// The settings folder for a home folder: `<home>/Documents/LeagueDirector`,
/// or `.` without a home folder.
pub open spec fn config_dir_of(home: Option<Seq<char>>) -> Seq<char> {
    match home {
        Some(h) => join(h, "Documents/LeagueDirector"@),
        None => "."@,
    }
}

/// The settings folder for the given home folder.
pub fn config_dir_for(home: Option<&str>) -> (r: String)
    ensures
        r@ == config_dir_of(match home {
            Some(h) => Some(h@),
            None => None,
        }),
{
    match home {
        Some(h) => join_path(h, "Documents/LeagueDirector"),
        None => ".".to_owned(),
    }
}

/// The settings folder, `Documents/LeagueDirector` in the user's home.
pub fn config_dir() -> (r: String)
    ensures
        exists|home: Option<Seq<char>>| r@ == config_dir_of(home),
{
    match user_dirs_new() {
        Some(dirs) => {
            let home = user_dirs_home(&dirs);
            config_dir_for(Some(home.as_str()))
        },
        None => config_dir_for(None),
    }
}

/// The folder saved sequences go to.
pub fn sequences_dir() -> (r: String)
    ensures
        exists|home: Option<Seq<char>>| r@ == join(config_dir_of(home), "sequences"@),
{
    let c = config_dir();
    join_path(c.as_str(), "sequences")
}

/// The folder recordings go to when League's own folder is unknown.
pub fn default_record_dir() -> (r: String)
    ensures
        exists|home: Option<Seq<char>>| r@ == join(config_dir_of(home), "recordings"@),
{
    let c = config_dir();
    join_path(c.as_str(), "recordings")
}

/// The folder recordings go to: `director-captures` in League's replay
/// folder when there is one, else `recordings` in the settings folder.
pub fn record_dir_from(replays: Option<&str>) -> (r: String)
    ensures
        match replays {
            Some(d) => r@ == join(d@, "director-captures"@),
            None => exists|home: Option<Seq<char>>| r@ == join(config_dir_of(home), "recordings"@),
        },
{
    match replays {
        Some(d) => join_path(d, "director-captures"),
        None => default_record_dir(),
    }
}

/// `cs` without any entry equal to `p`, in order.
pub open spec fn without(cs: Seq<Seq<char>>, p: Seq<char>) -> Seq<Seq<char>>
    decreases cs.len(),
{
    if cs.len() == 0 {
        seq![]
    } else if cs.last() == p {
        without(cs.drop_last(), p)
    } else {
        without(cs.drop_last(), p).push(cs.last())
    }
}

/// The recent clips after remembering `p`: `p` first, its older entries
/// dropped, at most `MAX_CLIPS` kept.
pub open spec fn clips_after(cs: Seq<Seq<char>>, p: Seq<char>) -> Seq<Seq<char>> {
    let n = seq![p] + without(cs, p);
    if n.len() > MAX_CLIPS {
        n.take(MAX_CLIPS as int)
    } else {
        n
    }
}

impl Settings {
    /// Settings with the given folders and everything else at its default:
    /// first tab, HUD shown, no last sequence or look, default bindings and
    /// no clips.
    pub fn with_dirs(record_dir: String, sequence_dir: String) -> (s: Settings)
        ensures
            s.record_dir == record_dir,
            s.sequence_dir == sequence_dir,
            s.last_tab == 0,
            s.show_hud,
            s.last_sequence@ == Seq::<char>::empty(),
            s.last_look@ == Seq::<char>::empty(),
            s.bindings@ == default_view(),
            s.clips@.len() == 0,
    {
        Settings {
            record_dir,
            last_tab: 0,
            show_hud: true,
            sequence_dir,
            last_sequence: String::new(),
            last_look: String::new(),
            bindings: default_map(),
            clips: Vec::new(),
        }
    }

    /// What loading does after reading the file: the default chord of every
    /// action without a binding is filled in, and a blank sequence folder
    /// becomes `default_sequence_dir`.
    pub fn complete_loaded(&mut self, default_sequence_dir: String)
        ensures
            final(self).bindings@ == default_view().union_prefer_right(old(self).bindings@),
            trim(old(self).sequence_dir@).len() == 0 ==> final(self).sequence_dir == default_sequence_dir,
            trim(old(self).sequence_dir@).len() != 0 ==> final(self).sequence_dir == old(self).sequence_dir,
            final(self).record_dir == old(self).record_dir,
            final(self).last_tab == old(self).last_tab,
            final(self).show_hud == old(self).show_hud,
            final(self).last_sequence == old(self).last_sequence,
            final(self).last_look == old(self).last_look,
            final(self).clips == old(self).clips,
    {
        merge_defaults(&mut self.bindings);
        let sd = chars_of(self.sequence_dir.as_str());
        let t = trim_vec(&sd);
        if t.len() == 0 {
            self.sequence_dir = default_sequence_dir;
        }
    }

    /// Remembers a clip as the most recent one (the caller saves the
    /// settings afterwards).
    pub fn remember_clip(&mut self, path: &str)
        ensures
            final(self).clips@.map_values(|c: String| c@) == clips_after(
                old(self).clips@.map_values(|c: String| c@),
                path@,
            ),
            final(self).record_dir == old(self).record_dir,
            final(self).sequence_dir == old(self).sequence_dir,
            final(self).last_tab == old(self).last_tab,
            final(self).show_hud == old(self).show_hud,
            final(self).last_sequence == old(self).last_sequence,
            final(self).last_look == old(self).last_look,
            final(self).bindings@ == old(self).bindings@,
    {
        let ghost cs = self.clips@.map_values(|c: String| c@);
        let p = path.to_owned();
        let mut kept: Vec<String> = Vec::new();
        kept.push(path.to_owned());
        for i in 0..self.clips.len()
            invariant
                cs == self.clips@.map_values(|c: String| c@),
                p@ == path@,
                kept@.map_values(|c: String| c@) == seq![path@] + without(cs.take(i as int), path@),
        {
            assert(cs.take(i + 1).drop_last() =~= cs.take(i as int));
            assert(cs.take(i + 1).last() == self.clips@[i as int]@);
            if self.clips[i] != p {
                let ghost before = kept@.map_values(|c: String| c@);
                kept.push(self.clips[i].clone());
                assert(kept@.map_values(|c: String| c@) =~= before.push(self.clips@[i as int]@));
            }
        }
        assert(cs.take(self.clips.len() as int) =~= cs);
        let ghost full = kept@.map_values(|c: String| c@);
        if kept.len() > MAX_CLIPS {
            kept.truncate(MAX_CLIPS);
            assert(kept@.map_values(|c: String| c@) =~= full.take(MAX_CLIPS as int));
        }
        self.clips = kept;
    }
}

proof fn lemma_without_facts(cs: Seq<Seq<char>>, p: Seq<char>)
    ensures
        !without(cs, p).contains(p),
        forall|x: Seq<char>| #[trigger] without(cs, p).contains(x) ==> cs.contains(x),
        forall|x: Seq<char>| x != p && cs.contains(x) ==> #[trigger] without(cs, p).contains(x),
        cs.no_duplicates() ==> without(cs, p).no_duplicates(),
    decreases cs.len(),
{
    if cs.len() > 0 {
        let init = cs.drop_last();
        lemma_without_facts(init, p);
        let w = without(init, p);
        assert forall|x: Seq<char>| #[trigger] without(cs, p).contains(x) implies cs.contains(x) by {
            if w.contains(x) {
                let i = choose|i: int| 0 <= i < init.len() && init[i] == x;
                assert(cs[i] == x);
            } else {
                assert(cs[cs.len() - 1] == x);
            }
        }
        assert forall|x: Seq<char>| x != p && cs.contains(x) implies #[trigger] without(cs, p).contains(x) by {
            let i = choose|i: int| 0 <= i < cs.len() && cs[i] == x;
            if i < cs.len() - 1 {
                assert(init[i] == x);
                assert(w.contains(x));
                if cs.last() != p {
                    let j = choose|j: int| 0 <= j < w.len() && w[j] == x;
                    assert(w.push(cs.last())[j] == x);
                }
            } else {
                assert(w.push(cs.last())[w.len() as int] == x);
            }
        }
        if cs.last() != p {
            assert(!w.push(cs.last()).contains(p)) by {
                if w.push(cs.last()).contains(p) {
                    let j = choose|j: int| 0 <= j < w.len() + 1 && w.push(cs.last())[j] == p;
                    if j < w.len() {
                        assert(w[j] == p);
                    }
                }
            }
        }
        if cs.no_duplicates() {
            assert(init.no_duplicates()) by {
                assert forall|i: int, j: int| 0 <= i < init.len() && 0 <= j < init.len() && i != j implies init[i] != init[j] by {
                    assert(cs[i] == init[i] && cs[j] == init[j]);
                }
            }
            if cs.last() != p {
                assert(!w.contains(cs.last())) by {
                    if w.contains(cs.last()) {
                        assert(init.contains(cs.last()));
                        let i = choose|i: int| 0 <= i < init.len() && init[i] == cs.last();
                        assert(cs[i] == cs[cs.len() - 1]);
                    }
                }
                let n = w.push(cs.last());
                assert forall|i: int, j: int| 0 <= i < n.len() && 0 <= j < n.len() && i != j implies n[i] != n[j] by {
                    if i < w.len() && j < w.len() {
                        assert(n[i] == w[i] && n[j] == w[j]);
                    } else if i == w.len() {
                        assert(n[j] == w[j]);
                    } else {
                        assert(n[i] == w[i]);
                    }
                }
            }
        }
    }
}

/// After a clip is remembered it is the most recent one, it is listed once,
/// the list stays within `MAX_CLIPS`, and a list without repeats stays so.
pub proof fn lemma_remember_clip(cs: Seq<Seq<char>>, p: Seq<char>)
    ensures
        clips_after(cs, p).len() > 0,
        clips_after(cs, p)[0] == p,
        clips_after(cs, p).len() <= MAX_CLIPS,
        forall|i: int| 0 < i < clips_after(cs, p).len() ==> clips_after(cs, p)[i] != p,
        cs.no_duplicates() ==> clips_after(cs, p).no_duplicates(),
{
    lemma_without_facts(cs, p);
    let w = without(cs, p);
    let n = seq![p] + w;
    assert forall|i: int| 0 < i < n.len() implies n[i] != p by {
        assert(n[i] == w[i - 1]);
    }
    if cs.no_duplicates() {
        assert forall|i: int, j: int| 0 <= i < n.len() && 0 <= j < n.len() && i != j implies n[i] != n[j] by {
            if i > 0 && j > 0 {
                assert(n[i] == w[i - 1] && n[j] == w[j - 1]);
            } else if i == 0 {
                assert(n[j] == w[j - 1]);
            } else {
                assert(n[i] == w[i - 1]);
            }
        }
    }
    let r = clips_after(cs, p);
    assert forall|i: int| 0 < i < r.len() implies r[i] != p by {
        assert(r[i] == n[i]);
    }
    if cs.no_duplicates() {
        assert forall|i: int, j: int| 0 <= i < r.len() && 0 <= j < r.len() && i != j implies r[i] != r[j] by {
            assert(r[i] == n[i] && r[j] == n[j]);
        }
    }
}

} // verus!

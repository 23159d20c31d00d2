//! The visibility presets: which interface elements, health bars, fog of
//! war and effects each preset switches on or off.
use vstd::prelude::*;

verus! {

broadcast use vstd::seq_lib::group_seq_properties;

/// The cinematic preset: no fog of war, no interface or health bars, depth of field on.
pub open spec fn cinematic_flags() -> Seq<(Seq<char>, bool)> {
    seq![
        ("fogOfWar"@, false),
        ("interfaceAll"@, false),
        ("interfaceReplay"@, false),
        ("interfaceMinimap"@, false),
        ("interfaceTimeline"@, false),
        ("interfaceScore"@, false),
        ("interfaceScoreboard"@, false),
        ("interfaceChat"@, false),
        ("interfaceAnnounce"@, false),
        ("interfaceKillCallouts"@, false),
        ("interfaceQuests"@, false),
        ("interfaceFrames"@, false),
        ("interfaceTarget"@, false),
        ("healthBarChampions"@, false),
        ("healthBarStructures"@, false),
        ("healthBarWards"@, false),
        ("healthBarPets"@, false),
        ("healthBarMinions"@, false),
        ("depthOfFieldEnabled"@, true),
        ("floatingText"@, false),
    ]
}

/// The cinematic preset: no fog of war, no interface or health bars, depth of field on.
pub fn cinematic() -> (r: Vec<(String, bool)>)
    ensures
        r@.map_values(|e: (String, bool)| (e.0@, e.1)) == cinematic_flags(),
{
    let mut r: Vec<(String, bool)> = Vec::new();
    r.push(("fogOfWar".to_owned(), false));
    r.push(("interfaceAll".to_owned(), false));
    r.push(("interfaceReplay".to_owned(), false));
    r.push(("interfaceMinimap".to_owned(), false));
    r.push(("interfaceTimeline".to_owned(), false));
    r.push(("interfaceScore".to_owned(), false));
    r.push(("interfaceScoreboard".to_owned(), false));
    r.push(("interfaceChat".to_owned(), false));
    r.push(("interfaceAnnounce".to_owned(), false));
    r.push(("interfaceKillCallouts".to_owned(), false));
    r.push(("interfaceQuests".to_owned(), false));
    r.push(("interfaceFrames".to_owned(), false));
    r.push(("interfaceTarget".to_owned(), false));
    r.push(("healthBarChampions".to_owned(), false));
    r.push(("healthBarStructures".to_owned(), false));
    r.push(("healthBarWards".to_owned(), false));
    r.push(("healthBarPets".to_owned(), false));
    r.push(("healthBarMinions".to_owned(), false));
    r.push(("depthOfFieldEnabled".to_owned(), true));
    r.push(("floatingText".to_owned(), false));
    assert(r@.map_values(|e: (String, bool)| (e.0@, e.1)) =~= cinematic_flags());
    r
}

/// The gameplay preset: fog of war, the whole interface and every health bar on, depth of field off.
pub open spec fn gameplay_flags() -> Seq<(Seq<char>, bool)> {
    seq![
        ("fogOfWar"@, true),
        ("interfaceAll"@, true),
        ("interfaceReplay"@, true),
        ("interfaceMinimap"@, true),
        ("interfaceTimeline"@, true),
        ("interfaceScore"@, true),
        ("interfaceScoreboard"@, true),
        ("interfaceChat"@, true),
        ("interfaceAnnounce"@, true),
        ("interfaceKillCallouts"@, true),
        ("interfaceQuests"@, true),
        ("healthBarChampions"@, true),
        ("healthBarStructures"@, true),
        ("healthBarWards"@, true),
        ("healthBarPets"@, true),
        ("healthBarMinions"@, true),
        ("depthOfFieldEnabled"@, false),
        ("floatingText"@, true),
    ]
}

/// The gameplay preset: fog of war, the whole interface and every health bar on, depth of field off.
pub fn gameplay() -> (r: Vec<(String, bool)>)
    ensures
        r@.map_values(|e: (String, bool)| (e.0@, e.1)) == gameplay_flags(),
{
    let mut r: Vec<(String, bool)> = Vec::new();
    r.push(("fogOfWar".to_owned(), true));
    r.push(("interfaceAll".to_owned(), true));
    r.push(("interfaceReplay".to_owned(), true));
    r.push(("interfaceMinimap".to_owned(), true));
    r.push(("interfaceTimeline".to_owned(), true));
    r.push(("interfaceScore".to_owned(), true));
    r.push(("interfaceScoreboard".to_owned(), true));
    r.push(("interfaceChat".to_owned(), true));
    r.push(("interfaceAnnounce".to_owned(), true));
    r.push(("interfaceKillCallouts".to_owned(), true));
    r.push(("interfaceQuests".to_owned(), true));
    r.push(("healthBarChampions".to_owned(), true));
    r.push(("healthBarStructures".to_owned(), true));
    r.push(("healthBarWards".to_owned(), true));
    r.push(("healthBarPets".to_owned(), true));
    r.push(("healthBarMinions".to_owned(), true));
    r.push(("depthOfFieldEnabled".to_owned(), false));
    r.push(("floatingText".to_owned(), true));
    assert(r@.map_values(|e: (String, bool)| (e.0@, e.1)) =~= gameplay_flags());
    r
}

/// The broadcast preset: interface, minimap, score, scoreboard, kill callouts and champion health bars on; the rest off.
pub open spec fn broadcast_flags() -> Seq<(Seq<char>, bool)> {
    seq![
        ("fogOfWar"@, false),
        ("interfaceAll"@, true),
        ("interfaceReplay"@, false),
        ("interfaceMinimap"@, true),
        ("interfaceTimeline"@, false),
        ("interfaceScore"@, true),
        ("interfaceScoreboard"@, true),
        ("interfaceChat"@, false),
        ("interfaceAnnounce"@, false),
        ("interfaceKillCallouts"@, true),
        ("interfaceQuests"@, false),
        ("healthBarChampions"@, true),
        ("healthBarStructures"@, false),
        ("healthBarWards"@, false),
        ("depthOfFieldEnabled"@, false),
        ("floatingText"@, false),
    ]
}

/// The broadcast preset: interface, minimap, score, scoreboard, kill callouts and champion health bars on; the rest off.
pub fn broadcast() -> (r: Vec<(String, bool)>)
    ensures
        r@.map_values(|e: (String, bool)| (e.0@, e.1)) == broadcast_flags(),
{
    let mut r: Vec<(String, bool)> = Vec::new();
    r.push(("fogOfWar".to_owned(), false));
    r.push(("interfaceAll".to_owned(), true));
    r.push(("interfaceReplay".to_owned(), false));
    r.push(("interfaceMinimap".to_owned(), true));
    r.push(("interfaceTimeline".to_owned(), false));
    r.push(("interfaceScore".to_owned(), true));
    r.push(("interfaceScoreboard".to_owned(), true));
    r.push(("interfaceChat".to_owned(), false));
    r.push(("interfaceAnnounce".to_owned(), false));
    r.push(("interfaceKillCallouts".to_owned(), true));
    r.push(("interfaceQuests".to_owned(), false));
    r.push(("healthBarChampions".to_owned(), true));
    r.push(("healthBarStructures".to_owned(), false));
    r.push(("healthBarWards".to_owned(), false));
    r.push(("depthOfFieldEnabled".to_owned(), false));
    r.push(("floatingText".to_owned(), false));
    assert(r@.map_values(|e: (String, bool)| (e.0@, e.1)) =~= broadcast_flags());
    r
}

/// The cinematic preset turns on depth of field and nothing else.
pub proof fn lemma_cinematic_shows_nothing_else()
    ensures
        forall|i: int|
            0 <= i < cinematic_flags().len() && (#[trigger] cinematic_flags()[i]).1 ==> cinematic_flags()[i].0
                == "depthOfFieldEnabled"@,
        exists|i: int|
            0 <= i < cinematic_flags().len() && #[trigger] cinematic_flags()[i] == ("depthOfFieldEnabled"@, true),
{
    assert(cinematic_flags()[18] == ("depthOfFieldEnabled"@, true));
}

/// The gameplay preset turns everything on except depth of field.
pub proof fn lemma_gameplay_shows_everything_else()
    ensures
        forall|i: int|
            0 <= i < gameplay_flags().len() ==> ((#[trigger] gameplay_flags()[i]).1 <==> gameplay_flags()[i].0
                != "depthOfFieldEnabled"@),
{
    reveal_strlit("depthOfFieldEnabled");
    reveal_strlit("floatingText");
    reveal_strlit("fogOfWar");
    reveal_strlit("healthBarChampions");
    reveal_strlit("healthBarMinions");
    reveal_strlit("healthBarPets");
    reveal_strlit("healthBarStructures");
    reveal_strlit("healthBarWards");
    reveal_strlit("interfaceAll");
    reveal_strlit("interfaceAnnounce");
    reveal_strlit("interfaceChat");
    reveal_strlit("interfaceFrames");
    reveal_strlit("interfaceKillCallouts");
    reveal_strlit("interfaceMinimap");
    reveal_strlit("interfaceQuests");
    reveal_strlit("interfaceReplay");
    reveal_strlit("interfaceScore");
    reveal_strlit("interfaceScoreboard");
    reveal_strlit("interfaceTarget");
    reveal_strlit("interfaceTimeline");
    let f = gameplay_flags();
    assert forall|i: int| 0 <= i < f.len() implies ((#[trigger] f[i]).1 <==> f[i].0 != "depthOfFieldEnabled"@) by {
        if f[i].0 == "depthOfFieldEnabled"@ {
            assert(f[i].0.len() == 19);
        }
        if i != 16 {
            assert(f[i].0 != "depthOfFieldEnabled"@) by {
                if f[i].0.len() == 19 {
                    assert(f[i].0[0] != "depthOfFieldEnabled"@[0]);
                }
            }
        }
    }
}

/// Whatever the broadcast preset shows, the gameplay preset shows too, and
/// broadcast keeps depth of field off.
pub proof fn lemma_broadcast_within_gameplay()
    ensures
        forall|i: int|
            0 <= i < broadcast_flags().len() && (#[trigger] broadcast_flags()[i]).1 ==> exists|j: int|
                0 <= j < gameplay_flags().len() && #[trigger] gameplay_flags()[j] == broadcast_flags()[i],
        forall|i: int|
            0 <= i < broadcast_flags().len() && (#[trigger] broadcast_flags()[i]).0 == "depthOfFieldEnabled"@
                ==> !broadcast_flags()[i].1,
{
    reveal_strlit("depthOfFieldEnabled");
    reveal_strlit("floatingText");
    reveal_strlit("fogOfWar");
    reveal_strlit("healthBarChampions");
    reveal_strlit("healthBarMinions");
    reveal_strlit("healthBarPets");
    reveal_strlit("healthBarStructures");
    reveal_strlit("healthBarWards");
    reveal_strlit("interfaceAll");
    reveal_strlit("interfaceAnnounce");
    reveal_strlit("interfaceChat");
    reveal_strlit("interfaceFrames");
    reveal_strlit("interfaceKillCallouts");
    reveal_strlit("interfaceMinimap");
    reveal_strlit("interfaceQuests");
    reveal_strlit("interfaceReplay");
    reveal_strlit("interfaceScore");
    reveal_strlit("interfaceScoreboard");
    reveal_strlit("interfaceTarget");
    reveal_strlit("interfaceTimeline");
    let g = gameplay_flags();
    let bf = broadcast_flags();
    assert forall|i: int| 0 <= i < bf.len() && (#[trigger] bf[i]).1 implies exists|j: int|
        0 <= j < g.len() && #[trigger] g[j] == bf[i] by {
        if i == 1 {
            assert(g[1] == bf[1]);
        }
        if i == 3 {
            assert(g[3] == bf[3]);
        }
        if i == 5 {
            assert(g[5] == bf[5]);
        }
        if i == 6 {
            assert(g[6] == bf[6]);
        }
        if i == 9 {
            assert(g[9] == bf[9]);
        }
        if i == 11 {
            assert(g[11] == bf[11]);
        }
    }
    assert forall|i: int| 0 <= i < bf.len() && (#[trigger] bf[i]).0 == "depthOfFieldEnabled"@ implies !bf[i].1 by {
        if bf[i].1 {
            assert(bf[i].0[0] != "depthOfFieldEnabled"@[0] || bf[i].0.len() != 19);
        }
    }
}

} // verus!

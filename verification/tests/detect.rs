use league_director::detect::{
    config_candidates, docs_replays_of, find_installs, game_log_files, install_roots_from,
    lol_dir_from_cfg, log_tail, pid_from_pgrep, replay_dir_candidates, replay_dir_of, replay_files,
    skybox_dir_candidates, skybox_entries, unique_paths, GameInstall,
};

fn s(v: &[&str]) -> Vec<String> {
    v.iter().map(|x| x.to_string()).collect()
}

#[test]
fn install_folder_of_a_config() {
    assert_eq!(lol_dir_from_cfg("/a/LoL/Config/game.cfg"), Some("/a/LoL".to_string()));
    assert_eq!(lol_dir_from_cfg("/a/LoL/DATA/CFG/game.cfg"), None);
    assert_eq!(lol_dir_from_cfg("game.cfg"), None);
}

#[test]
fn roots_from_spotlight_output() {
    let out = s(&["/X.app\n\n/Y.app\n", ""]);
    assert_eq!(
        install_roots_from(&out),
        s(&[
            "/X.app",
            "/Y.app",
            "/Applications/League of Legends.app",
            "/Applications/League of Legends (PBE).app"
        ])
    );
}

#[test]
fn config_places_of_an_app() {
    assert_eq!(
        config_candidates("/Apps/LoL.app"),
        s(&[
            "/Apps/LoL.app/Contents/LoL/Config/game.cfg",
            "/Apps/LoL.app/Contents/LoL/DATA/CFG/game.cfg",
            "/Apps/LoL.app/Contents/LoL/Game/Config/game.cfg",
            "/Apps/LoL.app/Config/game.cfg",
            "/Apps/LoL.app/DATA/CFG/game.cfg",
            "/Apps/LoL.app/Game/Config/game.cfg",
        ])
    );
}

#[test]
fn config_places_inside_an_app() {
    assert_eq!(
        config_candidates("/Apps/LoL.app/Contents/LoL/Game"),
        s(&[
            "/Apps/LoL.app/Contents/LoL/Config/game.cfg",
            "/Apps/LoL.app/Contents/LoL/DATA/CFG/game.cfg",
            "/Apps/LoL.app/Contents/LoL/Game/Config/game.cfg",
            "/Apps/LoL.app/Contents/LoL/Game/Config/game.cfg",
            "/Apps/LoL.app/Contents/LoL/Game/DATA/CFG/game.cfg",
            "/Apps/LoL.app/Contents/LoL/Game/Game/Config/game.cfg",
        ])
    );
}

#[test]
fn installs_are_listed_once_ignoring_case() {
    let found = vec![
        GameInstall { cfg: "/X/game.cfg".to_string(), enabled: true },
        GameInstall { cfg: "/x/GAME.cfg".to_string(), enabled: false },
        GameInstall { cfg: "/Ä/game.cfg".to_string(), enabled: false },
        GameInstall { cfg: "/ä/game.cfg".to_string(), enabled: true },
    ];
    let r = find_installs(found);
    assert_eq!(r.len(), 2);
    assert_eq!(r[0].cfg, "/X/game.cfg");
    assert!(r[0].enabled);
    assert_eq!(r[1].cfg, "/Ä/game.cfg");
    assert!(!r[1].enabled);
}

#[test]
fn unique_paths_keep_first() {
    assert_eq!(unique_paths(s(&["/a/B", "/b", "/A/b", "/B"])), s(&["/a/B", "/b"]));
}

#[test]
fn replays_are_rofl_files() {
    let r = replay_files(&s(&["/r/a.rofl", "/r/A.ROFL", "/r/b.txt", "/r/c.Rofl", "/r/rofl"]));
    assert_eq!(r, s(&["/r/a.rofl", "/r/c.Rofl"]));
}

#[test]
fn skyboxes_with_labels() {
    let r = skybox_entries(&s(&["/s/Sky.dds", "/s/sky.DDS", "/s/x.png", "/s/Night.DdS"]));
    assert_eq!(
        r,
        vec![
            ("Sky".to_string(), "/s/Sky.dds".to_string()),
            ("Night".to_string(), "/s/Night.DdS".to_string())
        ]
    );
}

#[test]
fn log_tail_keeps_the_last_lines() {
    assert_eq!(log_tail("/l/r3dlog.txt", "a\nb\r\nc\n", 2), "/l/r3dlog.txt\nb\nc\n");
    assert_eq!(log_tail("/l", "a\nb", 10), "/l\na\nb\n");
    assert_eq!(log_tail("/l", "a\nb", 0), "/l\n");
    assert_eq!(log_tail("/l", "", 3), "/l\n");
}

#[test]
fn pid_from_process_listing() {
    assert_eq!(pid_from_pgrep("4242\n"), Some(4242));
    assert_eq!(pid_from_pgrep("junk\n  77  \n88\n"), Some(77));
    assert_eq!(pid_from_pgrep("99999999999\n5"), Some(5));
    assert_eq!(pid_from_pgrep(""), None);
}

#[test]
fn replay_folder_of_the_first_real_install() {
    let installs = vec![
        GameInstall { cfg: "/a/DATA/CFG/game.cfg".to_string(), enabled: false },
        GameInstall { cfg: "/b/LoL/Config/game.cfg".to_string(), enabled: true },
    ];
    assert_eq!(replay_dir_of(&installs), Some("/b/LoL/Replays".to_string()));
    let first: Vec<GameInstall> = installs[..1].iter().map(|g| GameInstall { cfg: g.cfg.clone(), enabled: g.enabled }).collect();
    assert_eq!(replay_dir_of(&first), None);
}

#[test]
fn replay_folders_searched() {
    assert_eq!(docs_replays_of("/Users/me"), "/Users/me/Documents/League of Legends/Replays");
    assert_eq!(
        replay_dir_candidates(Some("/b/LoL/Replays".to_string()), Some("/Users/me")),
        s(&["/b/LoL/Replays", "/Users/me/Documents/League of Legends/Replays"])
    );
    assert_eq!(replay_dir_candidates(None, None), Vec::<String>::new());
}

#[test]
fn skybox_folders_searched() {
    assert_eq!(
        skybox_dir_candidates("/cfg", Some("/Apps/LD.app/Contents/MacOS/ld"), Some("/work")),
        s(&[
            "/cfg/skyboxes",
            "/Apps/LD.app/Contents/Resources/skyboxes",
            "/Apps/LD.app/Contents/Resources/assets/skyboxes",
            "/Apps/LD.app/Contents/MacOS/../assets/skyboxes",
            "/Apps/LD.app/Contents/MacOS/../../assets/skyboxes",
            "/Apps/LD.app/Contents/MacOS/../../../assets/skyboxes",
            "/work/assets/skyboxes",
            "/work/../leaguedirector/resources/skyboxes",
        ])
    );
    assert_eq!(skybox_dir_candidates("/cfg", None, None), s(&["/cfg/skyboxes"]));
}

#[test]
fn game_logs_by_name() {
    let e = s(&["/l/2024-r3dlog.txt", "/l/other.txt", "/l/r3dlog.txt.bak"]);
    assert_eq!(game_log_files(&e), s(&["/l/2024-r3dlog.txt"]));
}

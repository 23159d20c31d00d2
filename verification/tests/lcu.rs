use league_director::lcu::{
    game_id_from_rofl, lcu_url, lockfile_candidates, metadata_path, parse_lockfile, rofl_dest_of,
    watch_path,
};

#[test]
fn parses_euw_replay_name() {
    assert_eq!(game_id_from_rofl("/tmp/EUW1-7948514464.rofl"), Some(7948514464));
}

#[test]
fn game_id_edge_cases() {
    assert_eq!(game_id_from_rofl("/r/NA1-12.rofl"), Some(12));
    assert_eq!(game_id_from_rofl("/r/42.rofl"), Some(42));
    assert_eq!(game_id_from_rofl("/r/replay.rofl"), None);
    assert_eq!(game_id_from_rofl("/r/EUW1-.rofl"), None);
    assert_eq!(game_id_from_rofl("/r/EUW1-99999999999999999999.rofl"), None);
    assert_eq!(game_id_from_rofl("/"), None);
}

#[test]
fn lockfile_fields() {
    assert_eq!(
        parse_lockfile("LeagueClient:1234:54321:s3cret:https\n"),
        Some(("54321".to_string(), "s3cret".to_string()))
    );
    assert_eq!(parse_lockfile("a:b:c:d"), None);
    assert_eq!(parse_lockfile(""), None);
}

#[test]
fn urls_and_paths() {
    assert_eq!(lcu_url("54321", "/lol-replays/v1/rofls/path"), "https://127.0.0.1:54321/lol-replays/v1/rofls/path");
    assert_eq!(metadata_path(42), "/lol-replays/v2/metadata/42/create");
    assert_eq!(watch_path(7948514464), "/lol-replays/v1/rofls/7948514464/watch");
}

#[test]
fn lockfile_places() {
    let roots = vec!["/Applications/Foo.app".to_string(), "/opt/lol".to_string()];
    let c = lockfile_candidates(&roots);
    assert_eq!(
        c,
        vec![
            "/Applications/Foo.app/Contents/LoL/lockfile".to_string(),
            "/opt/lol/lockfile".to_string(),
            "/Applications/League of Legends.app/Contents/LoL/lockfile".to_string(),
            "/Applications/League of Legends (PBE).app/Contents/LoL/lockfile".to_string(),
            "/Users/Shared/Riot Games/Metadata/league_of_legends.live/league_of_legends.live.lockfile".to_string(),
        ]
    );
}

#[test]
fn replay_copy_place() {
    assert_eq!(rofl_dest_of("/Replays", "/tmp/EUW1-1.rofl"), "/Replays/EUW1-1.rofl");
    assert_eq!(rofl_dest_of("/Replays", "/"), "/Replays/");
}

#[test]
fn written_ids_read_back() {
    for id in [0u64, 7, 10, 4242, 7948514464, u64::MAX] {
        let path = format!("/r/KR-{id}.rofl");
        assert_eq!(game_id_from_rofl(&path), Some(id));
        let odd = format!("a-b.c-{id}.rofl");
        assert_eq!(game_id_from_rofl(&odd), Some(id));
    }
}

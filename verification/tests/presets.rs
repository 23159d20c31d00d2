use league_director::presets::{broadcast, cinematic, gameplay};

fn lookup(flags: &[(String, bool)], key: &str) -> Option<bool> {
    flags.iter().find(|(k, _)| k == key).map(|(_, v)| *v)
}

#[test]
fn cinematic_hides_the_interface() {
    let f = cinematic();
    assert_eq!(f.len(), 20);
    assert_eq!(lookup(&f, "fogOfWar"), Some(false));
    assert_eq!(lookup(&f, "interfaceAll"), Some(false));
    assert_eq!(lookup(&f, "depthOfFieldEnabled"), Some(true));
    assert_eq!(f[0], ("fogOfWar".to_string(), false));
}

#[test]
fn gameplay_shows_everything() {
    let f = gameplay();
    assert_eq!(f.len(), 18);
    assert_eq!(lookup(&f, "fogOfWar"), Some(true));
    assert_eq!(lookup(&f, "healthBarMinions"), Some(true));
    assert_eq!(lookup(&f, "depthOfFieldEnabled"), Some(false));
    assert_eq!(lookup(&f, "interfaceFrames"), None);
}

#[test]
fn broadcast_keeps_the_essentials() {
    let f = broadcast();
    assert_eq!(f.len(), 16);
    assert_eq!(lookup(&f, "interfaceMinimap"), Some(true));
    assert_eq!(lookup(&f, "interfaceChat"), Some(false));
    assert_eq!(lookup(&f, "healthBarChampions"), Some(true));
    assert_eq!(lookup(&f, "healthBarMinions"), None);
}

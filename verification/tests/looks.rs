use league_director::looks::{json_files, json_path, sanitize};

#[test]
fn names_become_safe_stems() {
    assert_eq!(sanitize("My Look!"), "My Look_");
    assert_eq!(sanitize("  a/b  "), "a_b");
    assert_eq!(sanitize("dusk-2_final"), "dusk-2_final");
    assert_eq!(sanitize("é"), "_");
}

#[test]
fn save_paths() {
    assert_eq!(json_path("/l", "My Look!"), Ok("/l/My Look_.json".to_string()));
    assert_eq!(json_path("/l/", "x"), Ok("/l/x.json".to_string()));
    assert_eq!(json_path("/l", "   "), Err("name required".to_string()));
    assert_eq!(json_path("/l", ""), Err("name required".to_string()));
    assert_eq!(json_path("/l", "!!"), Ok("/l/__.json".to_string()));
}

#[test]
fn saved_files_are_json() {
    let e = vec![
        "/l/a.json".to_string(),
        "/l/b.JSON".to_string(),
        "/l/.json".to_string(),
        "/l/c.json.bak".to_string(),
        "/l/d.json".to_string(),
    ];
    assert_eq!(json_files(&e), vec!["/l/a.json".to_string(), "/l/d.json".to_string()]);
}

#[test]
fn names_cannot_leave_the_folder() {
    assert_eq!(json_path("/l", "../x"), Ok("/l/___x.json".to_string()));
    assert_eq!(json_path("/l", "/etc/passwd"), Ok("/l/_etc_passwd.json".to_string()));
    assert_eq!(json_path("/l", ".."), Ok("/l/__.json".to_string()));
}

use league_director::media::{
    capture_dirs_of, capture_file_name, capture_files, clip_files, copy_target_of, ffmpeg_candidates,
    finished_path_of, leftover_files,
};

fn s(v: &[&str]) -> Vec<String> {
    v.iter().map(|x| x.to_string()).collect()
}

#[test]
fn captures_and_leftovers() {
    let e = s(&["/r/a.webm", "/r/b.webm.tmp", "/r/c.png", "/r/d.txt", "/r/webm"]);
    assert_eq!(capture_files(&e), s(&["/r/a.webm", "/r/b.webm.tmp", "/r/c.png"]));
    assert_eq!(leftover_files(&e), s(&["/r/b.webm.tmp"]));
}

#[test]
fn clips_once_ignoring_case() {
    let e = s(&["/r/A.webm", "/r/a.webm", "/r/b.webm.tmp", "/r/c.png"]);
    assert_eq!(clip_files(&e), s(&["/r/A.webm", "/r/c.png"]));
}

#[test]
fn unfinished_captures_become_webm() {
    assert_eq!(finished_path_of("/r/x.webm.tmp"), "/r/x.webm");
    assert_eq!(finished_path_of("/r/x.webm"), "/r/x.webm");
    assert_eq!(finished_path_of("/r/x.png"), "/r/x.png");
}

#[test]
fn copies_into_the_recordings_folder() {
    assert_eq!(copy_target_of("/r/x.webm", "/d"), Some("/d/x.webm".to_string()));
    assert_eq!(copy_target_of("/d/x.webm", "/d"), None);
    assert_eq!(copy_target_of("/r/x.webm", ""), None);
    assert_eq!(copy_target_of("/", "/d"), None);
}

#[test]
fn folders_searched() {
    assert_eq!(capture_dirs_of("/r/x.webm", "/d"), s(&["/r", "/d"]));
    assert_eq!(capture_dirs_of("/r/x.webm", ""), s(&["/r"]));
    assert_eq!(capture_dirs_of("", ""), s(&["."]));
}

#[test]
fn new_capture_names() {
    assert_eq!(capture_file_name(1700000000, "png"), "capture_1700000000.png");
    assert_eq!(capture_file_name(0, "vp8"), "capture_0.webm");
}

#[test]
fn bundled_ffmpeg_places() {
    assert_eq!(
        ffmpeg_candidates("/Apps/LD.app/Contents/MacOS/ld"),
        s(&["/Apps/LD.app/Contents/MacOS/ffmpeg", "/Apps/LD.app/Contents/Resources/ffmpeg"])
    );
    assert_eq!(ffmpeg_candidates("/"), Vec::<String>::new());
}

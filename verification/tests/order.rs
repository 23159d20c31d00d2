use league_director::order::{by_label, newest_first};

fn timed(v: &[(&str, u64)]) -> Vec<(String, u64)> {
    v.iter().map(|(p, s)| (p.to_string(), *s)).collect()
}

fn pairs(v: &[(&str, &str)]) -> Vec<(String, String)> {
    v.iter().map(|(a, b)| (a.to_string(), b.to_string())).collect()
}

#[test]
fn newest_files_come_first_ties_keep_order() {
    let files = timed(&[("/a", 10), ("/b", 30), ("/c", 10), ("/d", 0), ("/e", 30)]);
    assert_eq!(newest_first(&files), vec!["/b", "/e", "/a", "/c", "/d"]);
    assert_eq!(newest_first(&Vec::new()), Vec::<String>::new());
}

#[test]
fn skyboxes_by_lowercased_label() {
    let e = pairs(&[("night", "/s/n.dds"), ("Dawn", "/s/d.dds"), ("dusk", "/s/u.dds"), ("DAWN", "/s/D.dds"), ("Ärm", "/s/a.dds")]);
    assert_eq!(
        by_label(&e),
        pairs(&[("Dawn", "/s/d.dds"), ("DAWN", "/s/D.dds"), ("dusk", "/s/u.dds"), ("night", "/s/n.dds"), ("Ärm", "/s/a.dds")])
    );
}

#[test]
fn shorter_label_first() {
    let e = pairs(&[("skyline", "/s/2.dds"), ("sky", "/s/1.dds")]);
    assert_eq!(by_label(&e), pairs(&[("sky", "/s/1.dds"), ("skyline", "/s/2.dds")]));
}

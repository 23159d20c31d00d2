use league_director::config_text::{is_enabled_in, set_enabled_in};

#[test]
fn reads_the_switch() {
    assert!(is_enabled_in("[General]\nEnableReplayApi=1\n"));
    assert!(is_enabled_in("  EnableReplayApi = True ; on\n"));
    assert!(!is_enabled_in("[General]\nEnableReplayApi=0\n"));
    assert!(!is_enabled_in(""));
    assert!(!is_enabled_in("EnableReplayApi"));
    assert!(!is_enabled_in("EnableReplayApi=0\nEnableReplayApi=1"));
    assert!(!is_enabled_in("; EnableReplayApi=1"));
}

#[test]
fn inserts_before_the_next_section() {
    assert_eq!(
        set_enabled_in("[General]\nFoo=1\n[Other]\nX=2", true),
        "[General]\nFoo=1\nEnableReplayApi=1\n[Other]\nX=2"
    );
}

#[test]
fn adds_a_general_section() {
    assert_eq!(set_enabled_in("Foo=1", false), "[General]\nEnableReplayApi=0\nFoo=1");
    assert_eq!(set_enabled_in("", true), "[General]\nEnableReplayApi=1");
}

#[test]
fn replaces_an_existing_line() {
    assert_eq!(set_enabled_in("[general]\nenablereplayapi=0\n", true), "[general]\nEnableReplayApi=1");
}

#[test]
fn appends_after_a_last_general_header() {
    assert_eq!(set_enabled_in("[General]", true), "[General]\nEnableReplayApi=1");
}

#[test]
fn write_then_read() {
    for text in ["[General]\nA=1\n[B]\nC=2", "", "X=1", "[General]\nEnableReplayApi=0"] {
        for on in [true, false] {
            assert_eq!(is_enabled_in(&set_enabled_in(text, on)), on);
        }
    }
}

#[test]
fn writing_keeps_other_lines_in_order() {
    let text = "; top\n[General]\nA=1\nEnableReplayApi=0\n  B = 2\n[Other]\nC=3";
    assert_eq!(
        set_enabled_in(text, true),
        "; top\n[General]\nA=1\nEnableReplayApi=1\n  B = 2\n[Other]\nC=3"
    );
    assert_eq!(set_enabled_in("x\ny", true), "[General]\nEnableReplayApi=1\nx\ny");
}

use hyprnome::special::{chars_of, is_special, is_special_by, matches_at, name_carries};

#[test]
fn no_active_window_is_not_special() {
    assert!(!is_special(None));
    assert!(!is_special_by(None, "special"));
    assert!(!is_special_by(None, ""));
}

#[test]
fn special_scratch_is_special() {
    assert!(is_special(Some("special:scratch")));
    assert!(is_special(Some("special")));
}

#[test]
fn numbered_workspace_is_not_special() {
    assert!(!is_special(Some("1")));
    assert!(!is_special(Some("")));
    assert!(!is_special(Some("specia")));
    assert!(!is_special(Some("pecial")));
    assert!(!is_special(Some("spec ial")));
}

#[test]
fn marker_may_stand_anywhere_in_the_name() {
    assert!(is_special(Some("myspecial")));
    assert!(is_special(Some("a special one")));
    assert!(is_special(Some("spespecial")));
}

#[test]
fn marker_is_case_sensitive() {
    assert!(!is_special(Some("Special")));
    assert!(!is_special(Some("SPECIAL:scratch")));
}

#[test]
fn marker_can_be_chosen() {
    assert!(is_special_by(Some("scratch:music"), "scratch"));
    assert!(!is_special_by(Some("special:music"), "scratch"));
    assert!(is_special_by(Some("anything"), ""));
    assert!(is_special_by(Some(""), ""));
}

#[test]
fn names_beyond_ascii() {
    assert!(is_special(Some("\u{fc}ber:special")));
    assert!(!is_special(Some("sp\u{e9}cial")));
    assert!(is_special_by(Some("b\u{fc}ro:\u{2603}"), "\u{2603}"));
    assert!(!is_special_by(Some("b\u{fc}ro"), "\u{2603}"));
}

#[test]
fn name_carries_agrees_with_contains() {
    let names = ["", "s", "special", "xspecialx", "speciaspecial", "lspecia", "aaa", "aab"];
    let markers = ["", "a", "ab", "special", "aa", "specials"];
    for name in names {
        for marker in markers {
            assert_eq!(name_carries(name, marker), name.contains(marker));
        }
    }
}

#[test]
fn chars_of_lists_the_characters() {
    assert_eq!(chars_of("a\u{fc}c"), vec!['a', '\u{fc}', 'c']);
    assert_eq!(chars_of(""), Vec::<char>::new());
}

#[test]
fn matches_at_a_position() {
    let name = chars_of("xspecial");
    let marker = chars_of("special");
    assert!(matches_at(&name, &marker, 1));
    assert!(!matches_at(&name, &marker, 0));
    assert!(matches_at(&name, &Vec::new(), 8));
}

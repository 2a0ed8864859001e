use tripane::entry::{classify, Entry, EntryKind};
use tripane::listing::{build_listing, Listing, RawEntry};
use tripane::nav::{command_of, find_name_index, parent_pane_source, selected_entry, Command,
    NavigationState};
use tripane::order::{str_eq, str_le};
use tripane::path::{base_name, contains_slash, is_absolute, is_root, join_path, parent_dir};
use tripane::screen::{color_of, print_width, render, render_pane};

fn raw(name: &str, is_symlink: bool, is_dir: bool) -> RawEntry {
    RawEntry { name: Some(name.to_string()), is_symlink, is_dir }
}

fn names(listing: &[Entry]) -> Vec<String> {
    listing.iter().map(|e| e.name.clone()).collect()
}

#[test]
fn listing_sorts_bytewise_uppercase_first() {
    // /tmp/x containing [b, A, c] with A a subdirectory.
    let raws = vec![raw("b", false, false), raw("A", false, true), raw("c", false, false)];
    let listing = build_listing("/tmp/x", &raws);
    assert_eq!(names(&listing), vec!["A", "b", "c"]);
    assert_eq!(listing[0].kind, EntryKind::Directory);
    assert_eq!(listing[0].path, "/tmp/x/A");
    assert_eq!(listing[1].path, "/tmp/x/b");
    assert_eq!(listing[2].kind, EntryKind::Regular);
}

#[test]
fn listing_invariant_under_report_order() {
    let a = vec![raw("b", false, false), raw("A", false, true), raw("c", false, false)];
    let b = vec![raw("c", false, false), raw("b", false, false), raw("A", false, true)];
    let la = build_listing("/tmp/x", &a);
    let lb = build_listing("/tmp/x", &b);
    assert_eq!(la.len(), lb.len());
    for (x, y) in la.iter().zip(lb.iter()) {
        assert_eq!(x.name, y.name);
        assert_eq!(x.kind, y.kind);
        assert_eq!(x.path, y.path);
    }
}

#[test]
fn listing_drops_unrepresentable_names() {
    let raws = vec![
        RawEntry { name: None, is_symlink: false, is_dir: false },
        raw("kept", false, false),
    ];
    let listing = build_listing("/d", &raws);
    assert_eq!(names(&listing), vec!["kept"]);
}

#[test]
fn listing_root_directory_paths() {
    let raws = vec![raw("usr", false, true)];
    let listing = build_listing("/", &raws);
    assert_eq!(listing[0].path, "/usr");
}

#[test]
fn classifier_symlink_before_directory() {
    assert_eq!(classify(true, true), EntryKind::Symlink);
    assert_eq!(classify(true, false), EntryKind::Symlink);
    assert_eq!(classify(false, true), EntryKind::Directory);
    assert_eq!(classify(false, false), EntryKind::Regular);
}

#[test]
fn order_compares_bytewise() {
    assert!(str_le("A", "b"));
    assert!(!str_le("b", "A"));
    assert!(str_le("a", "ab"));
    assert!(!str_le("ab", "a"));
    assert!(str_le("same", "same"));
    assert!(str_eq("same", "same"));
    assert!(!str_eq("same", "Same"));
}

#[test]
fn commands_decode_keys() {
    assert_eq!(command_of(b'q'), Command::Quit);
    assert_eq!(command_of(b'j'), Command::MoveDown);
    assert_eq!(command_of(b'k'), Command::MoveUp);
    assert_eq!(command_of(b'l'), Command::Descend);
    assert_eq!(command_of(b'h'), Command::Ascend);
    assert_eq!(command_of(b'x'), Command::Ignore);
    assert_eq!(command_of(27), Command::Ignore);
}

#[test]
fn selection_clamps_and_never_wraps() {
    let mut s = NavigationState::new("/d".to_string());
    assert_eq!(s.selection_index, 0);
    s.move_up();
    assert_eq!(s.selection_index, 0);
    s.move_up();
    assert_eq!(s.selection_index, 0);
    s.move_down(3);
    assert_eq!(s.selection_index, 1);
    s.move_down(3);
    assert_eq!(s.selection_index, 2);
    s.move_down(3);
    assert_eq!(s.selection_index, 2);
    s.move_down(3);
    assert_eq!(s.selection_index, 2);
    s.move_up();
    assert_eq!(s.selection_index, 1);
}

#[test]
fn selection_pinned_on_empty_listing() {
    let mut s = NavigationState::new("/d".to_string());
    s.move_down(0);
    assert_eq!(s.selection_index, 0);
    s.clamp(0);
    assert_eq!(s.selection_index, 0);
}

#[test]
fn clamp_pulls_stale_selection_back() {
    let mut s = NavigationState::new("/d".to_string());
    s.move_down(10);
    s.move_down(10);
    s.move_down(10);
    assert_eq!(s.selection_index, 3);
    s.clamp(2);
    assert_eq!(s.selection_index, 1);
    s.clamp(2);
    assert_eq!(s.selection_index, 1);
}

#[test]
fn descend_then_ascend_restores_selection() {
    // Selecting A (index 0) in /tmp/x, descending, then ascending must put
    // the selection back on index 0.
    let raws = vec![raw("b", false, false), raw("A", false, true), raw("c", false, false)];
    let listing = build_listing("/tmp/x", &raws);
    let mut s = NavigationState::new("/tmp/x".to_string());
    let target = s.descend_target(&listing).expect("A is a directory");
    assert_eq!(target, "/tmp/x/A");
    s.confirm_descend(target);
    assert_eq!(s.current_directory, "/tmp/x/A");
    assert_eq!(s.selection_index, 0);
    s.ascend(&listing);
    assert_eq!(s.current_directory, "/tmp/x");
    assert_eq!(s.selection_index, 0);
}

#[test]
fn descend_into_non_directory_is_refused() {
    let raws = vec![raw("f", false, false), raw("s", true, true)];
    let listing = build_listing("/d", &raws);
    let s = NavigationState::new("/d".to_string());
    // f is a regular file; s is a symlink even though it points at a
    // directory: neither is a descend target.
    assert!(s.descend_target(&listing).is_none());
    let mut s2 = NavigationState::new("/d".to_string());
    s2.move_down(2);
    assert!(s2.descend_target(&listing).is_none());
}

#[test]
fn descend_out_of_range_is_refused() {
    let listing: Vec<Entry> = Vec::new();
    let s = NavigationState::new("/d".to_string());
    assert!(s.descend_target(&listing).is_none());
}

#[test]
fn ascend_restores_deeper_selection() {
    let raws = vec![raw("alpha", false, true), raw("beta", false, true), raw("gamma", false, true)];
    let listing = build_listing("/top", &raws);
    let mut s = NavigationState::new("/top".to_string());
    s.move_down(3);
    let target = s.descend_target(&listing).expect("beta is a directory");
    assert_eq!(target, "/top/beta");
    s.confirm_descend(target);
    s.ascend(&listing);
    assert_eq!(s.current_directory, "/top");
    assert_eq!(s.selection_index, 1);
}

#[test]
fn ascend_falls_back_to_top_when_name_is_gone() {
    let raws = vec![raw("other", false, true)];
    let listing = build_listing("/top", &raws);
    let mut s = NavigationState::new("/top/gone".to_string());
    s.move_down(1);
    s.ascend(&listing);
    assert_eq!(s.current_directory, "/top");
    assert_eq!(s.selection_index, 0);
}

#[test]
fn ascend_at_root_stays_at_root() {
    let listing: Vec<Entry> = Vec::new();
    let mut s = NavigationState::new("/".to_string());
    s.ascend(&listing);
    assert_eq!(s.current_directory, "/");
    assert_eq!(s.selection_index, 0);
}

#[test]
fn parent_pane_is_empty_at_root() {
    assert!(parent_pane_source("/").is_none());
    assert_eq!(parent_pane_source("/usr").as_deref(), Some("/"));
    assert_eq!(parent_pane_source("/usr/share").as_deref(), Some("/usr"));
}

#[test]
fn first_matching_name_wins() {
    let e = |n: &str| Entry {
        name: n.to_string(),
        kind: EntryKind::Regular,
        path: format!("/d/{}", n),
    };
    let listing = vec![e("a"), e("dup"), e("dup"), e("z")];
    assert_eq!(find_name_index(&listing, "dup"), 1);
    assert_eq!(find_name_index(&listing, "z"), 3);
    assert_eq!(find_name_index(&listing, "missing"), 0);
}

#[test]
fn selected_entry_respects_bounds() {
    let listing = vec![Entry {
        name: "a".to_string(),
        kind: EntryKind::Regular,
        path: "/d/a".to_string(),
    }];
    assert!(selected_entry(&listing, 0).is_some());
    assert!(selected_entry(&listing, 1).is_none());
    assert_eq!(selected_entry(&listing, 0).unwrap().name, "a");
}

#[test]
fn path_pieces() {
    assert_eq!(parent_dir("/a/b"), "/a");
    assert_eq!(parent_dir("/a"), "/");
    assert_eq!(parent_dir("/"), "/");
    assert_eq!(base_name("/a/b"), "b");
    assert_eq!(base_name("/a"), "a");
    assert_eq!(base_name("/"), "");
    assert_eq!(join_path("/", "x"), "/x");
    assert_eq!(join_path("/a", "x"), "/a/x");
    assert!(is_root("/"));
    assert!(!is_root("/a"));
    assert!(is_absolute("/a"));
    assert!(!is_absolute("a"));
    assert!(contains_slash("a/b"));
    assert!(!contains_slash("ab"));
}

#[test]
fn cell_is_positioned_styled_and_padded() {
    let cell = print_width(3, 5, 4, "\x1b[7m", "hi");
    assert_eq!(cell, "\x1b[5;3H\x1b[7mhi\x1b[0m  ");
}

#[test]
fn cell_truncates_to_width() {
    let cell = print_width(1, 1, 3, "\x1b[1;34m", "abcdef");
    assert_eq!(cell, "\x1b[1;1H\x1b[1;34mabc\x1b[0m");
}

#[test]
fn cell_blank_is_all_spaces() {
    let cell = print_width(10, 20, 3, "\x1b[0m", "");
    assert_eq!(cell, "\x1b[20;10H\x1b[0m\x1b[0m   ");
}

#[test]
fn colors_by_kind() {
    assert_eq!(color_of(EntryKind::Directory), "\x1b[1;34m");
    assert_eq!(color_of(EntryKind::Symlink), "\x1b[1;36m");
    assert_eq!(color_of(EntryKind::Regular), "\x1b[1;37m");
}

#[test]
fn pane_highlights_selection_and_pads_rows() {
    let raws = vec![raw("b", false, false), raw("A", false, true)];
    let listing = build_listing("/d", &raws);
    let pane = render_pane(0, 2, 0, &listing, false, 4, 3);
    let expected = format!(
        "{}{}{}{}",
        "\x1b[3;1H\x1b[7mA\x1b[0m   ",
        "\x1b[4;1H\x1b[1;37mb\x1b[0m   ",
        "\x1b[5;1H\x1b[0m\x1b[0m    ",
        ""
    );
    assert_eq!(pane, expected);
}

#[test]
fn pane_without_selection_uses_kind_colors() {
    let raws = vec![raw("d", false, true)];
    let listing = build_listing("/d", &raws);
    let pane = render_pane(0, 2, -1, &listing, false, 2, 1);
    assert_eq!(pane, "\x1b[3;1H\x1b[1;34md\x1b[0m ");
}

#[test]
fn denied_pane_shows_notice_and_no_entries() {
    let raws = vec![raw("secret", false, false)];
    let listing = build_listing("/d", &raws);
    let pane = render_pane(4, 2, 0, &listing, true, 20, 2);
    assert!(pane.contains("\x1b[1;31mPermission Denied\x1b[0m"));
    assert!(!pane.contains("secret"));
    let expected = format!(
        "{}{}{}",
        "\x1b[3;5H\x1b[0m\x1b[0m                    ",
        "\x1b[4;5H\x1b[0m\x1b[0m                    ",
        "\x1b[3;5H\x1b[1;31mPermission Denied\x1b[0m   ",
    );
    assert_eq!(pane, expected);
}

#[test]
fn screen_repaints_are_byte_identical() {
    let raws = vec![raw("b", false, false), raw("A", false, true), raw("c", false, false)];
    let current = build_listing("/tmp/x", &raws);
    let parent = build_listing("/tmp", &vec![raw("x", false, true)]);
    let child = Listing::Entries(build_listing("/tmp/x/A", &Vec::new()));
    let first = render("/tmp/x", "A: directory", &parent, &current, 0, &child, 90, 30);
    let second = render("/tmp/x", "A: directory", &parent, &current, 0, &child, 90, 30);
    assert_eq!(first, second);
}

#[test]
fn screen_denied_child_beside_normal_panes() {
    let raws = vec![raw("locked", false, true)];
    let current = build_listing("/d", &raws);
    let parent: Vec<Entry> = Vec::new();
    let screen = render("/d", "", &parent, &current, 0, &Listing::Denied, 60, 4);
    assert!(screen.contains("Permission Denied"));
    // The current pane still renders its entry, highlighted.
    assert!(screen.contains("\x1b[7mlocked"));
    // The header carries the current directory in the header style.
    assert!(screen.contains("\x1b[1;32m/d"));
}

#[test]
fn screen_layout_small_exact() {
    let current = build_listing("/d", &vec![raw("f", false, false)]);
    let parent: Vec<Entry> = Vec::new();
    let child = Listing::Entries(Vec::new());
    let screen = render("/d", "m", &parent, &current, 0, &child, 9, 2);
    let expected = format!(
        "{}{}{}{}{}",
        "\x1b[2;1Hm\x1b[0m        ",
        "\x1b[1;1H\x1b[1;32m/d\x1b[0m       ",
        "\x1b[3;1H\x1b[0m\x1b[0m   ",
        "\x1b[3;4H\x1b[7mf\x1b[0m  ",
        "\x1b[3;7H\x1b[0m\x1b[0m   ",
    );
    assert_eq!(screen, expected);
}

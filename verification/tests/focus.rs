use rings::focus::FocusMove;
use rings::manager::Rings;

fn labels(l: &[&str]) -> Vec<String> {
    l.iter().map(|s| s.to_string()).collect()
}

fn sample() -> Rings {
    // g shows 1 | 2, m shows 3 alone, l is empty, w shows 4 | 5
    let mut rings = Rings::new();
    rings.insert(1, None, "g");
    rings.insert(2, None, "g");
    rings.insert(3, None, "m");
    rings.insert(4, None, "w");
    rings.insert(5, None, "w");
    rings
}

#[test]
fn focus_moves_between_columns_of_a_tag() {
    let rings = sample();
    let on = labels(&["g"]);
    assert_eq!(rings.move_focus(false, 1, &on), FocusMove::Id(2));
    assert_eq!(rings.move_focus(true, 2, &on), FocusMove::Id(1));
}

#[test]
fn focus_wraps_at_both_ends() {
    let rings = sample();
    let on = labels(&["g", "m"]);
    assert_eq!(rings.move_focus(true, 1, &on), FocusMove::Id(3));
    assert_eq!(rings.move_focus(false, 3, &on), FocusMove::Id(1));
    assert_eq!(rings.move_focus(false, 2, &on), FocusMove::Id(3));
    assert_eq!(rings.move_focus(true, 3, &on), FocusMove::Id(2));
}

#[test]
fn focus_follows_the_order_of_the_screens() {
    let rings = sample();
    let on = labels(&["w", "g"]);
    assert_eq!(rings.move_focus(false, 5, &on), FocusMove::Id(1));
    assert_eq!(rings.move_focus(false, 2, &on), FocusMove::Id(4));
    assert_eq!(rings.move_focus(true, 4, &on), FocusMove::Id(2));
}

#[test]
fn empty_tag_is_a_place_of_its_own() {
    let rings = sample();
    let on = labels(&["g", "l", "m"]);
    assert_eq!(rings.move_focus(false, 2, &on), FocusMove::Tag("l".to_string()));
    assert_eq!(rings.move_focus(true, 3, &on), FocusMove::Tag("l".to_string()));
    assert_eq!(rings.move_focus(false, 3, &on), FocusMove::Id(1));
}

#[test]
fn window_off_the_cycle_moves_nowhere() {
    let rings = sample();
    assert_eq!(rings.move_focus(false, 3, &labels(&["g"])), FocusMove::Noop);
    assert_eq!(rings.move_focus(true, 99, &labels(&["g", "m", "l", "w"])), FocusMove::Noop);
    assert_eq!(rings.move_focus(true, 1, &labels(&[])), FocusMove::Noop);
}

#[test]
fn hidden_member_has_no_place() {
    let mut rings = Rings::new();
    rings.insert(1, None, "g");
    rings.insert(2, Some(1), "g");
    rings.insert(3, Some(2), "g");
    assert_eq!(rings.move_focus(false, 2, &labels(&["g"])), FocusMove::Noop);
    assert_eq!(rings.move_focus(false, 1, &labels(&["g"])), FocusMove::Id(3));
}

#[test]
fn unknown_labels_add_no_place() {
    let rings = sample();
    let on = labels(&["zz", "g", "reikai"]);
    assert_eq!(rings.move_focus(false, 2, &on), FocusMove::Id(1));
    assert_eq!(rings.move_focus(true, 1, &on), FocusMove::Id(2));
}

#[test]
fn single_place_is_its_own_neighbour() {
    let rings = sample();
    let on = labels(&["m"]);
    assert_eq!(rings.move_focus(false, 3, &on), FocusMove::Id(3));
    assert_eq!(rings.move_focus(true, 3, &on), FocusMove::Id(3));
}

#[test]
fn fullscreen_cursor_suppresses_its_partner() {
    let mut rings = sample();
    rings.set_fullscreen(2, true);
    let on = labels(&["g", "m"]);
    // the cycle is 2, 3: window 1 has no place while 2 is fullscreen
    assert_eq!(rings.move_focus(false, 2, &on), FocusMove::Id(3));
    assert_eq!(rings.move_focus(false, 3, &on), FocusMove::Id(2));
    assert_eq!(rings.move_focus(false, 1, &on), FocusMove::Noop);
    rings.set_fullscreen(2, false);
    rings.set_fullscreen(1, true);
    assert_eq!(rings.move_focus(false, 1, &on), FocusMove::Id(3));
    assert_eq!(rings.move_focus(false, 2, &on), FocusMove::Noop);
}

#[test]
fn two_fullscreen_cursors_leave_the_tag_without_place() {
    let mut rings = sample();
    rings.set_fullscreen(1, true);
    rings.set_fullscreen(2, true);
    let on = labels(&["g", "m"]);
    assert_eq!(rings.move_focus(false, 1, &on), FocusMove::Noop);
    assert_eq!(rings.move_focus(false, 3, &on), FocusMove::Id(3));
}

#[test]
fn repeated_label_counts_its_last_place() {
    let rings = sample();
    let on = labels(&["m", "g", "m"]);
    // the cycle is 3, 1, 2, 3; window 3 is located at its last place
    assert_eq!(rings.move_focus(false, 3, &on), FocusMove::Id(3));
    assert_eq!(rings.move_focus(true, 3, &on), FocusMove::Id(2));
}

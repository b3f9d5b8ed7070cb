use rings::events::{
    destroy, event, manage, move_focus, pop_last_focused, property_change, refresh, rotate,
    swap_columns, toggle_scratchpad, Command, RingEvent,
};
use rings::manager::Rings;

const A: u32 = 101;
const B: u32 = 102;
const C: u32 = 103;

fn three_in_g() -> Rings {
    // left = [A], right = [B, C] with the cursor on C
    let mut rings = Rings::new();
    rings.insert(A, None, "g");
    rings.insert(B, Some(A), "g");
    rings.insert(C, Some(B), "g");
    rings
}

fn labels(l: &[&str]) -> Vec<String> {
    l.iter().map(|s| s.to_string()).collect()
}

#[test]
fn manage_inserts_next_to_last_focus_and_focuses() {
    let mut rings = Rings::new();
    assert_eq!(manage(&mut rings, 1, "g"), vec![Command::Rebuild, Command::Focus(1)]);
    assert_eq!(rings.last_focus(), Some(1));
    assert_eq!(manage(&mut rings, 2, "g"), vec![Command::Rebuild, Command::Focus(2)]);
    assert_eq!(manage(&mut rings, 3, "g"), vec![Command::Rebuild, Command::Focus(3)]);
    assert_eq!(rings.last_focus(), Some(3));
    let g = rings.columns("g").unwrap();
    assert_eq!(g.left().members(), vec![1]);
    assert_eq!(g.right().members(), vec![2, 3]);
    assert_eq!(rings.visible("g"), vec![1, 3]);
}

#[test]
fn manage_follows_the_noted_focus() {
    let mut rings = Rings::new();
    manage(&mut rings, 1, "g");
    manage(&mut rings, 2, "g");
    refresh(&mut rings, Some(1));
    manage(&mut rings, 3, "g");
    let g = rings.columns("g").unwrap();
    assert_eq!(g.left().members(), vec![1, 3]);
    assert_eq!(g.right().members(), vec![2]);
}

#[test]
fn manage_of_a_member_changes_nothing() {
    let mut rings = three_in_g();
    rings.set_last_focus(Some(A));
    assert_eq!(manage(&mut rings, B, "m"), Vec::<Command>::new());
    assert_eq!(rings.last_focus(), Some(A));
    assert_eq!(rings.visible("g"), vec![A, C]);
    assert_eq!(rings.visible("m"), Vec::<u32>::new());
}

#[test]
fn manage_on_unknown_tag_still_focuses() {
    let mut rings = Rings::new();
    assert_eq!(manage(&mut rings, 4, "zz"), vec![Command::Rebuild, Command::Focus(4)]);
    assert!(!rings.contains(4));
    assert_eq!(rings.last_focus(), Some(4));
}

#[test]
fn refresh_notes_the_focus() {
    let mut rings = three_in_g();
    refresh(&mut rings, Some(B));
    assert_eq!(rings.last_focus(), Some(B));
    refresh(&mut rings, None);
    assert_eq!(rings.last_focus(), None);
    assert_eq!(rings.visible("g"), vec![A, C]);
}

#[test]
fn destroy_of_cursor_refocuses_neighbour() {
    let mut rings = three_in_g();
    assert_eq!(
        destroy(&mut rings, C),
        vec![Command::Rebuild, Command::Focus(B), Command::Refresh]
    );
    assert_eq!(rings.visible("g"), vec![A, B]);
}

#[test]
fn destroy_of_hidden_member_rebuilds_without_focus() {
    let mut rings = three_in_g();
    assert_eq!(destroy(&mut rings, B), vec![Command::Rebuild, Command::Refresh]);
    assert!(!rings.contains(B));
    assert_eq!(rings.visible("g"), vec![A, C]);
}

#[test]
fn destroy_of_stranger_does_nothing() {
    let mut rings = three_in_g();
    rings.set_fullscreen(999, true);
    rings.set_scratchpad(Some(999));
    assert_eq!(destroy(&mut rings, 999), Vec::<Command>::new());
    assert!(!rings.is_fullscreen(999));
    assert_eq!(rings.scratchpad(), None);
    assert_eq!(rings.visible("g"), vec![A, C]);
}

#[test]
fn destroy_of_last_window_rebuilds_without_focus() {
    let mut rings = Rings::new();
    rings.insert(1, None, "m");
    assert_eq!(destroy(&mut rings, 1), vec![Command::Rebuild, Command::Refresh]);
    assert_eq!(rings.visible("m"), Vec::<u32>::new());
}

#[test]
fn property_change_counts_transitions_only() {
    let mut rings = three_in_g();
    assert_eq!(property_change(&mut rings, C, false), Vec::<Command>::new());
    assert_eq!(
        property_change(&mut rings, C, true),
        vec![Command::Rebuild, Command::Focus(C), Command::Refresh]
    );
    assert_eq!(rings.visible("g"), vec![C]);
    assert_eq!(property_change(&mut rings, C, true), Vec::<Command>::new());
    assert_eq!(
        property_change(&mut rings, C, false),
        vec![Command::Rebuild, Command::Focus(C), Command::Refresh]
    );
    assert_eq!(rings.visible("g"), vec![A, C]);
}

#[test]
fn event_dispatches_on_its_kind() {
    let mut rings = three_in_g();
    assert_eq!(
        event(&mut rings, RingEvent::PropertyChange { id: A, is_fullscreen: true }),
        vec![Command::Rebuild, Command::Focus(A), Command::Refresh]
    );
    assert!(rings.is_fullscreen(A));
    assert_eq!(
        event(&mut rings, RingEvent::Destroy(A)),
        vec![Command::Rebuild, Command::Focus(C), Command::Refresh]
    );
    assert!(!rings.is_fullscreen(A));
    let g = rings.columns("g").unwrap();
    assert_eq!(g.left().members(), vec![B, C]);
    assert_eq!(g.right().len(), 0);
}

#[test]
fn rotate_focuses_the_new_cursor() {
    let mut rings = three_in_g();
    assert_eq!(
        rotate(&mut rings, Some(C), "g", true),
        vec![Command::Rebuild, Command::Focus(B), Command::Refresh]
    );
    assert_eq!(rings.visible("g"), vec![A, B]);
    assert_eq!(
        rotate(&mut rings, Some(B), "g", false),
        vec![Command::Rebuild, Command::Focus(C), Command::Refresh]
    );
}

#[test]
fn rotate_without_focus_does_nothing() {
    let mut rings = three_in_g();
    assert_eq!(rotate(&mut rings, None, "g", true), Vec::<Command>::new());
    assert_eq!(rings.visible("g"), vec![A, C]);
}

#[test]
fn rotate_that_moves_nothing_keeps_the_focus() {
    let mut rings = three_in_g();
    assert_eq!(
        rotate(&mut rings, Some(A), "g", true),
        vec![Command::Rebuild, Command::Focus(A), Command::Refresh]
    );
    assert_eq!(
        rotate(&mut rings, Some(77), "g", true),
        vec![Command::Rebuild, Command::Focus(77), Command::Refresh]
    );
    assert_eq!(
        rotate(&mut rings, Some(C), "zz", true),
        vec![Command::Rebuild, Command::Focus(C), Command::Refresh]
    );
    assert_eq!(rings.visible("g"), vec![A, C]);
}

#[test]
fn rotate_on_scratchpad_takes_it_out() {
    let mut rings = three_in_g();
    rings.set_scratchpad(Some(C));
    assert_eq!(
        rotate(&mut rings, Some(C), "g", true),
        vec![Command::Rebuild, Command::Focus(B), Command::Refresh]
    );
    assert!(!rings.contains(C));
    assert_eq!(rings.scratchpad(), Some(C));
    assert_eq!(rings.visible("g"), vec![A, B]);
}

#[test]
fn rotate_on_lonely_scratchpad_keeps_focus_on_it() {
    let mut rings = Rings::new();
    rings.insert(1, None, "g");
    rings.set_scratchpad(Some(1));
    assert_eq!(
        rotate(&mut rings, Some(1), "g", false),
        vec![Command::Rebuild, Command::Focus(1), Command::Refresh]
    );
    assert!(!rings.contains(1));
}

#[test]
fn swap_columns_rebuilds_and_keeps_focus() {
    let mut rings = three_in_g();
    assert_eq!(
        swap_columns(&mut rings, Some(C), "g"),
        vec![Command::Rebuild, Command::Focus(C), Command::Refresh]
    );
    assert_eq!(rings.visible("g"), vec![C, A]);
    assert_eq!(swap_columns(&mut rings, None, "g"), vec![Command::Rebuild, Command::Refresh]);
    assert_eq!(rings.visible("g"), vec![A, C]);
}

#[test]
fn swap_columns_needs_two_columns() {
    let mut rings = Rings::new();
    rings.insert(1, None, "g");
    assert_eq!(swap_columns(&mut rings, Some(1), "g"), Vec::<Command>::new());
    assert_eq!(swap_columns(&mut rings, Some(1), "zz"), Vec::<Command>::new());
    assert_eq!(rings.visible("g"), vec![1]);
}

#[test]
fn toggle_without_scratchpad_does_nothing() {
    let mut rings = three_in_g();
    assert_eq!(toggle_scratchpad(&mut rings, Some(C), "g"), Vec::<Command>::new());
    assert_eq!(rings.visible("g"), vec![A, C]);
}

#[test]
fn toggle_hides_shown_scratchpad_and_refocuses() {
    let mut rings = three_in_g();
    rings.set_scratchpad(Some(C));
    assert_eq!(
        toggle_scratchpad(&mut rings, Some(C), "g"),
        vec![Command::Rebuild, Command::Focus(B), Command::Refresh]
    );
    assert!(!rings.contains(C));
    assert_eq!(rings.last_focus(), Some(B));
    assert_eq!(rings.scratchpad(), Some(C));
}

#[test]
fn toggle_hides_shown_scratchpad_without_focus_change() {
    let mut rings = three_in_g();
    rings.set_scratchpad(Some(C));
    rings.set_last_focus(Some(A));
    assert_eq!(
        toggle_scratchpad(&mut rings, Some(A), "g"),
        vec![Command::Rebuild, Command::Refresh]
    );
    assert!(!rings.contains(C));
    assert_eq!(rings.last_focus(), Some(A));
    assert_eq!(rings.visible("g"), vec![A, B]);
}

#[test]
fn toggle_hides_lonely_scratchpad() {
    let mut rings = Rings::new();
    rings.insert(1, None, "g");
    rings.set_scratchpad(Some(1));
    rings.set_last_focus(Some(1));
    assert_eq!(
        toggle_scratchpad(&mut rings, Some(1), "g"),
        vec![Command::Rebuild, Command::Refresh]
    );
    assert!(!rings.contains(1));
    assert_eq!(rings.last_focus(), Some(1));
}

#[test]
fn toggle_shows_absent_scratchpad_on_the_tag() {
    let mut rings = three_in_g();
    rings.set_scratchpad(Some(50));
    assert_eq!(
        toggle_scratchpad(&mut rings, Some(A), "g"),
        vec![Command::Rebuild, Command::Focus(50), Command::Refresh]
    );
    let g = rings.columns("g").unwrap();
    assert_eq!(g.left().members(), vec![A, 50]);
    assert_eq!(g.left().focus(), Some(50));
    assert_eq!(rings.last_focus(), Some(50));
    assert_eq!(rings.visible("g"), vec![50, C]);
}

#[test]
fn toggle_moves_hidden_scratchpad_to_the_tag() {
    let mut rings = three_in_g();
    rings.set_scratchpad(Some(B));
    assert_eq!(
        toggle_scratchpad(&mut rings, Some(C), "m"),
        vec![Command::Rebuild, Command::Focus(B), Command::Refresh]
    );
    assert_eq!(rings.columns("g").unwrap().right().members(), vec![C]);
    assert_eq!(rings.columns("m").unwrap().left().members(), vec![B]);
    assert_eq!(rings.visible("m"), vec![B]);
}

#[test]
fn toggle_twice_brings_the_scratchpad_back() {
    let mut rings = three_in_g();
    rings.set_scratchpad(Some(C));
    toggle_scratchpad(&mut rings, Some(C), "g");
    assert_eq!(rings.visible("g"), vec![A, B]);
    toggle_scratchpad(&mut rings, Some(B), "g");
    assert_eq!(rings.visible("g"), vec![A, C]);
    assert_eq!(rings.columns("g").unwrap().right().members(), vec![B, C]);
}

#[test]
fn move_focus_commands_for_window_tag_and_next_screen() {
    let mut rings = Rings::new();
    rings.insert(1, None, "g");
    rings.insert(2, None, "g");
    assert_eq!(
        move_focus(&rings, false, Some(1), &labels(&["g", "l"])),
        vec![Command::Focus(2), Command::Refresh]
    );
    assert_eq!(
        move_focus(&rings, false, Some(2), &labels(&["g", "l"])),
        vec![Command::FocusTag("l".to_string()), Command::Refresh]
    );
    assert_eq!(
        move_focus(&rings, true, None, &labels(&["g", "l"])),
        vec![Command::NextScreen { left_edge: false }, Command::Refresh]
    );
    assert_eq!(
        move_focus(&rings, false, Some(9), &labels(&["g", "l"])),
        vec![Command::NextScreen { left_edge: true }, Command::Refresh]
    );
}

#[test]
fn pop_parks_the_last_focus() {
    let mut rings = three_in_g();
    assert_eq!(pop_last_focused(&mut rings), Vec::<Command>::new());
    rings.set_last_focus(Some(C));
    assert_eq!(
        pop_last_focused(&mut rings),
        vec![
            Command::Relocate { id: C, tag: "reikai".to_string() },
            Command::Rebuild,
            Command::Focus(B),
            Command::Refresh
        ]
    );
    assert!(!rings.contains(C));
}

#[test]
fn pop_of_hidden_member_only_parks() {
    let mut rings = three_in_g();
    rings.set_last_focus(Some(B));
    assert_eq!(
        pop_last_focused(&mut rings),
        vec![Command::Relocate { id: B, tag: "reikai".to_string() }]
    );
    assert!(!rings.contains(B));
    rings.set_last_focus(Some(B));
    assert_eq!(
        pop_last_focused(&mut rings),
        vec![Command::Relocate { id: B, tag: "reikai".to_string() }]
    );
}

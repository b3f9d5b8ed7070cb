use penrose::pure::geometry::Rect;
use penrose::pure::{StackSet, Workspace};
use penrose::Xid;
use rings::events::{Command, RingEvent};
use rings::manager::Rings;
use rings::runtime::{
    carry_out, link_scratchpad, move_focus, pop_last_focused, rebuild, ring_rotate, rings_event,
    rings_manage, rings_refresh, swap_cols, swap_ring, tags_apart, toggle_scratchpad,
};

fn stack_set(screens: usize) -> StackSet<Xid> {
    let rects: Vec<Rect> = (0..screens).map(|i| Rect::new(1000 * i as u32, 0, 1000, 800)).collect();
    let mut cs = StackSet::try_new(Default::default(), ["g", "m", "l", "w"], rects).unwrap();
    cs.add_invisible_workspace("reikai").unwrap();
    cs
}

fn on(cs: &StackSet<Xid>, tag: &str) -> Vec<u32> {
    cs.workspace(tag).unwrap().clients().map(|c| **c).collect()
}

fn focused(cs: &StackSet<Xid>) -> Option<u32> {
    cs.current_client().map(|c| **c)
}

fn arrive(rings: &mut Rings, cs: &mut StackSet<Xid>, id: u32) {
    cs.insert(Xid::from(id));
    rings_manage(rings, cs, id);
}

fn three_in_g() -> (Rings, StackSet<Xid>) {
    let mut rings = Rings::new();
    let mut cs = stack_set(1);
    arrive(&mut rings, &mut cs, 1);
    arrive(&mut rings, &mut cs, 2);
    arrive(&mut rings, &mut cs, 3);
    (rings, cs)
}

fn snapshot(cs: &StackSet<Xid>) -> Vec<Vec<u32>> {
    ["g", "m", "l", "w", "reikai"].iter().map(|t| on(cs, t)).collect()
}

#[test]
fn managed_windows_fill_the_current_tag() {
    let (rings, cs) = three_in_g();
    let g = rings.columns("g").unwrap();
    assert_eq!(g.left().members(), vec![1]);
    assert_eq!(g.right().members(), vec![2, 3]);
    assert_eq!(on(&cs, "g"), vec![3, 1]);
    assert_eq!(on(&cs, "reikai"), vec![2]);
    assert_eq!(focused(&cs), Some(3));
    assert_eq!(rings.last_focus(), Some(3));
}

#[test]
fn manage_uses_the_tag_of_the_focused_screen() {
    let mut rings = Rings::new();
    let mut cs = stack_set(1);
    cs.focus_tag("l");
    arrive(&mut rings, &mut cs, 9);
    assert_eq!(rings.visible("l"), vec![9]);
    assert_eq!(rings.visible("g"), Vec::<u32>::new());
    assert_eq!(on(&cs, "l"), vec![9]);
}

#[test]
fn rebuild_parks_strangers_and_attaches_cursors() {
    let mut rings = Rings::new();
    let mut cs = stack_set(1);
    for id in [1, 2, 3, 4] {
        cs.insert(Xid::from(id));
    }
    rings.insert(1, None, "g");
    rings.insert(2, None, "g");
    rings.insert(3, None, "m");
    rebuild(&rings, &mut cs);
    assert_eq!(on(&cs, "g"), vec![1, 2]);
    assert_eq!(on(&cs, "m"), vec![3]);
    assert_eq!(on(&cs, "reikai"), vec![4]);
    assert_eq!(on(&cs, "l"), Vec::<u32>::new());
}

#[test]
fn rebuild_twice_moves_nothing_more() {
    let (mut rings, mut cs) = three_in_g();
    rings.rotate(3, "g", true);
    rebuild(&rings, &mut cs);
    let once = snapshot(&cs);
    assert_eq!(once[0], vec![1, 2]);
    rebuild(&rings, &mut cs);
    assert_eq!(snapshot(&cs), once);
}

#[test]
fn rebuild_shows_fullscreen_window_alone() {
    let (mut rings, mut cs) = three_in_g();
    rings.set_fullscreen(3, true);
    rebuild(&rings, &mut cs);
    assert_eq!(on(&cs, "g"), vec![3]);
    rings.set_fullscreen(3, false);
    rebuild(&rings, &mut cs);
    assert_eq!(on(&cs, "g"), vec![3, 1]);
    rings.set_last_focus(Some(1));
    rebuild(&rings, &mut cs);
    assert_eq!(on(&cs, "g"), vec![1, 3]);
}

#[test]
fn rebuild_passes_over_missing_tags() {
    let mut rings = Rings::new();
    let mut cs: StackSet<Xid> =
        StackSet::try_new(Default::default(), ["g", "m"], vec![Rect::new(0, 0, 100, 100)])
            .unwrap();
    cs.add_invisible_workspace("reikai").unwrap();
    cs.insert(Xid::from(1));
    rings.insert(1, None, "g");
    rings.insert(2, None, "w");
    rebuild(&rings, &mut cs);
    assert_eq!(on(&cs, "g"), vec![1]);
}

#[test]
fn refresh_hook_reads_the_focused_client() {
    let (mut rings, mut cs) = three_in_g();
    rings.set_last_focus(None);
    rings_refresh(&mut rings, &cs);
    assert_eq!(rings.last_focus(), Some(3));
    cs.focus_client(&Xid::from(1));
    rings_refresh(&mut rings, &cs);
    assert_eq!(rings.last_focus(), Some(1));
    cs.focus_tag("w");
    rings_refresh(&mut rings, &cs);
    assert_eq!(rings.last_focus(), None);
}

#[test]
fn rotate_shows_and_focuses_the_next_window() {
    let (mut rings, mut cs) = three_in_g();
    assert!(ring_rotate(&mut rings, &mut cs, true));
    assert_eq!(on(&cs, "g"), vec![1, 2]);
    assert_eq!(on(&cs, "reikai"), vec![3]);
    assert_eq!(focused(&cs), Some(2));
    assert_eq!(rings.visible("g"), vec![1, 2]);
}

#[test]
fn rotate_without_focus_is_idle() {
    let mut rings = Rings::new();
    let mut cs = stack_set(1);
    assert!(!ring_rotate(&mut rings, &mut cs, true));
}

#[test]
fn move_focus_steps_to_the_other_column() {
    let (mut rings, mut cs) = three_in_g();
    assert!(move_focus(&rings, &mut cs, true));
    assert_eq!(focused(&cs), Some(1));
    assert!(move_focus(&rings, &mut cs, true));
    assert_eq!(focused(&cs), Some(3));
    rings_refresh(&mut rings, &cs);
    assert_eq!(rings.last_focus(), Some(3));
}

#[test]
fn move_focus_crosses_screens() {
    let mut rings = Rings::new();
    let mut cs = stack_set(2);
    arrive(&mut rings, &mut cs, 7);
    cs.focus_tag("m");
    arrive(&mut rings, &mut cs, 8);
    assert_eq!(rings.visible("g"), vec![7]);
    assert_eq!(rings.visible("m"), vec![8]);
    assert!(move_focus(&rings, &mut cs, false));
    assert_eq!(focused(&cs), Some(7));
    assert_eq!(cs.current_tag(), "g");
    assert!(move_focus(&rings, &mut cs, false));
    assert_eq!(focused(&cs), Some(8));
}

#[test]
fn move_focus_reaches_an_empty_tag() {
    let mut rings = Rings::new();
    let mut cs = stack_set(2);
    arrive(&mut rings, &mut cs, 7);
    assert!(move_focus(&rings, &mut cs, false));
    assert_eq!(cs.current_tag(), "m");
    assert_eq!(focused(&cs), None);
}

#[test]
fn move_focus_without_focus_goes_to_the_next_screen() {
    let mut rings = Rings::new();
    let mut cs = stack_set(2);
    arrive(&mut rings, &mut cs, 7);
    arrive(&mut rings, &mut cs, 6);
    cs.focus_tag("m");
    assert_eq!(focused(&cs), None);
    assert!(move_focus(&rings, &mut cs, true));
    assert_eq!(cs.current_tag(), "g");
    assert_eq!(focused(&cs), Some(6));
    cs.focus_tag("m");
    assert!(move_focus(&rings, &mut cs, false));
    assert_eq!(focused(&cs), Some(7));
}

#[test]
fn swap_cols_mirrors_the_tag() {
    let (mut rings, mut cs) = three_in_g();
    assert!(swap_cols(&mut rings, &mut cs));
    assert_eq!(on(&cs, "g"), vec![3, 1]);
    assert_eq!(focused(&cs), Some(3));
    assert_eq!(rings.visible("g"), vec![3, 1]);
}

#[test]
fn swap_cols_with_one_column_is_idle() {
    let mut rings = Rings::new();
    let mut cs = stack_set(1);
    arrive(&mut rings, &mut cs, 1);
    assert!(!swap_cols(&mut rings, &mut cs));
    assert_eq!(on(&cs, "g"), vec![1]);
}

#[test]
fn swap_ring_reorders_the_focused_column() {
    let (mut rings, cs) = three_in_g();
    swap_ring(&mut rings, &cs, false);
    let g = rings.columns("g").unwrap();
    assert_eq!(g.right().members(), vec![3, 2]);
    assert_eq!(g.right().focus(), Some(3));
    assert_eq!(on(&cs, "g"), vec![3, 1]);
}

#[test]
fn scratchpad_is_linked_hidden_and_shown_again() {
    let (mut rings, mut cs) = three_in_g();
    assert!(!toggle_scratchpad(&mut rings, &mut cs));
    link_scratchpad(&mut rings, &cs);
    assert_eq!(rings.scratchpad(), Some(3));
    assert!(toggle_scratchpad(&mut rings, &mut cs));
    assert!(!rings.contains(3));
    assert_eq!(on(&cs, "g"), vec![2, 1]);
    assert_eq!(focused(&cs), Some(2));
    assert_eq!(rings.last_focus(), Some(2));
    assert!(toggle_scratchpad(&mut rings, &mut cs));
    assert_eq!(rings.columns("g").unwrap().right().members(), vec![2, 3]);
    assert_eq!(on(&cs, "g"), vec![3, 1]);
    assert_eq!(focused(&cs), Some(3));
    link_scratchpad(&mut rings, &cs);
    assert_eq!(rings.scratchpad(), None);
}

#[test]
fn destroy_event_refocuses_and_rebuilds() {
    let (mut rings, mut cs) = three_in_g();
    cs.remove_client(&Xid::from(3));
    assert!(rings_event(&mut rings, &mut cs, RingEvent::Destroy(3)));
    assert_eq!(on(&cs, "g"), vec![1, 2]);
    assert_eq!(focused(&cs), Some(2));
    assert!(!rings_event(&mut rings, &mut cs, RingEvent::Destroy(3)));
}

#[test]
fn fullscreen_event_shows_the_window_alone() {
    let (mut rings, mut cs) = three_in_g();
    let ev = RingEvent::PropertyChange { id: 1, is_fullscreen: true };
    assert!(rings_event(&mut rings, &mut cs, ev));
    assert_eq!(on(&cs, "g"), vec![1]);
    assert_eq!(focused(&cs), Some(1));
    assert!(!rings_event(&mut rings, &mut cs, ev));
    let off = RingEvent::PropertyChange { id: 1, is_fullscreen: false };
    assert!(rings_event(&mut rings, &mut cs, off));
    assert_eq!(on(&cs, "g"), vec![3, 1]);
}

#[test]
fn pop_parks_the_window_last_focused() {
    let (mut rings, mut cs) = three_in_g();
    assert!(pop_last_focused(&mut rings, &mut cs));
    assert!(!rings.contains(3));
    assert_eq!(on(&cs, "g"), vec![1, 2]);
    assert_eq!(on(&cs, "reikai"), vec![3]);
    assert_eq!(focused(&cs), Some(2));
}

#[test]
fn carry_out_reports_refresh_only_when_asked() {
    let (rings, mut cs) = three_in_g();
    assert!(!carry_out(&rings, &mut cs, &vec![]));
    assert!(!carry_out(&rings, &mut cs, &vec![Command::Focus(1)]));
    assert_eq!(focused(&cs), Some(1));
    assert!(carry_out(&rings, &mut cs, &vec![Command::Refresh]));
    assert!(carry_out(
        &rings,
        &mut cs,
        &vec![Command::FocusTag("w".to_string()), Command::Refresh, Command::Focus(3)]
    ));
    assert_eq!(focused(&cs), Some(3));
    assert_eq!(cs.current_tag(), "g");
}

#[test]
fn carry_out_relocates_and_focuses_tags() {
    let (rings, mut cs) = three_in_g();
    let commands = vec![
        Command::Relocate { id: 1, tag: "w".to_string() },
        Command::FocusTag("w".to_string()),
    ];
    assert!(!carry_out(&rings, &mut cs, &commands));
    assert_eq!(on(&cs, "w"), vec![1]);
    assert_eq!(on(&cs, "g"), vec![3]);
    assert_eq!(cs.current_tag(), "w");
    assert_eq!(focused(&cs), Some(1));
}

fn assert_in_line(rings: &Rings, cs: &StackSet<Xid>) {
    let all: Vec<u32> = cs.clients().map(|c| **c).collect();
    for i in 0..rings.tag_count() {
        let tag = rings.tag_label(i);
        let mut shown: Vec<u32> =
            rings.visible(&tag).into_iter().filter(|x| all.contains(x)).collect();
        let mut there = on(cs, &tag);
        shown.sort();
        there.sort();
        assert_eq!(there, shown);
    }
}

#[test]
fn every_action_leaves_the_tags_in_line() {
    let mut rings = Rings::new();
    let mut cs = stack_set(2);
    for id in 1..6 {
        arrive(&mut rings, &mut cs, id);
        assert_in_line(&rings, &cs);
    }
    cs.focus_tag("m");
    for id in 6..9 {
        arrive(&mut rings, &mut cs, id);
        assert_in_line(&rings, &cs);
    }
    assert!(ring_rotate(&mut rings, &mut cs, true));
    assert_in_line(&rings, &cs);
    assert!(ring_rotate(&mut rings, &mut cs, false));
    assert_in_line(&rings, &cs);
    assert!(swap_cols(&mut rings, &mut cs));
    assert_in_line(&rings, &cs);
    link_scratchpad(&mut rings, &cs);
    assert!(toggle_scratchpad(&mut rings, &mut cs));
    assert_in_line(&rings, &cs);
    assert!(toggle_scratchpad(&mut rings, &mut cs));
    assert_in_line(&rings, &cs);
    let gone = focused(&cs).unwrap();
    cs.remove_client(&Xid::from(gone));
    assert!(rings_event(&mut rings, &mut cs, RingEvent::Destroy(gone)));
    assert_in_line(&rings, &cs);
    let full = focused(&cs).unwrap();
    assert!(rings_event(
        &mut rings,
        &mut cs,
        RingEvent::PropertyChange { id: full, is_fullscreen: true }
    ));
    assert_in_line(&rings, &cs);
    assert_eq!(on(&cs, cs.current_tag()), vec![full]);
    assert_eq!(focused(&cs), Some(full));
    let before: usize = cs.clients().count();
    rebuild(&rings, &mut cs);
    assert_in_line(&rings, &cs);
    assert_eq!(cs.clients().count(), before);
}

const TAGS: [&str; 5] = ["g", "m", "l", "w", "reikai"];

fn head(cs: &StackSet<Xid>, tag: &str) -> Option<u32> {
    cs.workspace(tag).unwrap().focus().map(|c| **c)
}

fn holdings(cs: &StackSet<Xid>) -> Vec<(String, Vec<u32>)> {
    TAGS.iter().map(|t| (t.to_string(), on(cs, t))).collect()
}

fn tag_of(at: &[(String, Vec<u32>)], id: u32) -> Option<String> {
    at.iter().find(|(_, ids)| ids.contains(&id)).map(|(t, _)| t.clone())
}

fn scattered() -> StackSet<Xid> {
    let mut cs = stack_set(2);
    for (i, id) in (1..=12u32).enumerate() {
        cs.focus_tag(TAGS[i % 4]);
        cs.insert(Xid::from(id));
    }
    cs
}

#[test]
fn a_relocation_moves_one_window_and_no_other() {
    let rings = Rings::new();
    let mut cs = scattered();
    let mut seed: u32 = 12345;
    for _ in 0..300 {
        seed = seed.wrapping_mul(1664525).wrapping_add(1013904223);
        let id = 1 + (seed >> 8) % 14;
        let tag = ["g", "m", "l", "w", "reikai", "nowhere"][((seed >> 16) % 6) as usize];
        let before = holdings(&cs);
        let heads_before: Vec<Option<u32>> = TAGS.iter().map(|t| head(&cs, t)).collect();
        let command = Command::Relocate { id, tag: tag.to_string() };
        assert!(!carry_out(&rings, &mut cs, &vec![command]));
        let after = holdings(&cs);
        let known = tag_of(&before, id).is_some();
        let has_tag = TAGS.contains(&tag);
        if !known || !has_tag {
            assert_eq!(after, before);
            continue;
        }
        for ((t, was), (_, is)) in before.iter().zip(after.iter()) {
            let mut rest_was = was.clone();
            rest_was.retain(|x| *x != id);
            let mut rest_is = is.clone();
            rest_is.retain(|x| *x != id);
            rest_was.sort();
            rest_is.sort();
            assert_eq!(rest_is, rest_was);
            assert_eq!(is.contains(&id), t == tag);
            assert_eq!(is.iter().filter(|x| **x == id).count(), usize::from(t == tag));
        }
        assert_eq!(head(&cs, tag), Some(id));
        for (i, t) in TAGS.iter().enumerate() {
            if *t != tag && !before[i].1.contains(&id) {
                assert_eq!(head(&cs, t), heads_before[i]);
            }
        }
    }
}

#[test]
fn focus_commands_leave_every_window_in_place() {
    let rings = Rings::new();
    let mut cs = scattered();
    let mut seed: u32 = 777;
    for _ in 0..300 {
        seed = seed.wrapping_mul(1664525).wrapping_add(1013904223);
        let id = 1 + (seed >> 8) % 14;
        let tag = ["g", "m", "l", "w", "reikai", "nowhere"][((seed >> 16) % 6) as usize];
        let before = holdings(&cs);
        match (seed >> 24) % 3 {
            0 => {
                carry_out(&rings, &mut cs, &vec![Command::Focus(id)]);
                if tag_of(&before, id).is_some() {
                    assert_eq!(focused(&cs), Some(id));
                }
            }
            1 => {
                carry_out(&rings, &mut cs, &vec![Command::FocusTag(tag.to_string())]);
                if TAGS.contains(&tag) {
                    assert_eq!(cs.current_tag(), tag);
                }
            }
            _ => {
                carry_out(&rings, &mut cs, &vec![Command::NextScreen { left_edge: true }]);
            }
        }
        assert_eq!(holdings(&cs), before);
    }
}

#[test]
fn rebuild_brings_a_scattered_stack_set_in_line() {
    let mut rings = Rings::new();
    let mut cs = scattered();
    let mut focus = None;
    for (i, id) in [3u32, 8, 1, 12, 5, 10, 6, 40].iter().enumerate() {
        rings.insert(*id, focus, TAGS[(i * 3) % 4]);
        focus = Some(*id);
    }
    rings.set_fullscreen(5, true);
    let mut all: Vec<u32> = cs.clients().map(|c| **c).collect();
    all.sort();
    rebuild(&rings, &mut cs);
    assert_in_line(&rings, &cs);
    let mut still: Vec<u32> = cs.clients().map(|c| **c).collect();
    still.sort();
    assert_eq!(still, all);
    let once = holdings(&cs);
    rebuild(&rings, &mut cs);
    assert_eq!(holdings(&cs), once);
}

#[test]
fn stack_set_with_two_tags_of_one_label_is_left_alone() {
    let (mut rings, mut cs) = three_in_g();
    assert!(tags_apart(&cs));
    *cs.workspace_mut("m").unwrap() = Workspace::new(9, "l", Default::default(), None);
    assert!(!tags_apart(&cs));
    let before = snapshot_of(&cs);
    rings.rotate(3, "g", true);
    rebuild(&rings, &mut cs);
    assert_eq!(snapshot_of(&cs), before);
    assert!(!carry_out(&rings, &mut cs, &vec![Command::Focus(1), Command::Refresh]));
    assert_eq!(focused(&cs), Some(3));
    assert!(!ring_rotate(&mut rings, &mut cs, false));
    assert_eq!(snapshot_of(&cs), before);
    assert_eq!(rings.visible("g"), vec![1, 2]);
}

fn snapshot_of(cs: &StackSet<Xid>) -> Vec<(String, Vec<u32>)> {
    cs.workspaces().map(|w| (w.tag().to_string(), w.clients().map(|c| **c).collect())).collect()
}

#[test]
fn the_window_last_focused_is_attached_last() {
    let (mut rings, mut cs) = three_in_g();
    assert_eq!(rings.visible("g"), vec![1, 3]);
    cs.focus_client(&Xid::from(1));
    rings_refresh(&mut rings, &cs);
    rebuild(&rings, &mut cs);
    assert_eq!(on(&cs, "g"), vec![1, 3]);
    assert_eq!(head(&cs, "g"), Some(1));
    cs.focus_client(&Xid::from(3));
    rings_refresh(&mut rings, &cs);
    rebuild(&rings, &mut cs);
    assert_eq!(on(&cs, "g"), vec![3, 1]);
    assert_eq!(head(&cs, "g"), Some(3));
    rings.set_last_focus(Some(2));
    rebuild(&rings, &mut cs);
    assert_eq!(on(&cs, "g"), vec![1, 3]);
    assert_eq!(head(&cs, "g"), Some(1));
}

#[test]
fn next_screen_focuses_the_facing_edge_or_the_empty_tag() {
    let mut rings = Rings::new();
    let mut cs = stack_set(3);
    arrive(&mut rings, &mut cs, 7);
    arrive(&mut rings, &mut cs, 6);
    cs.focus_tag("l");
    assert_eq!(focused(&cs), None);
    // the screens show g, m, l: after l comes g
    assert!(move_focus(&rings, &mut cs, true));
    assert_eq!(cs.current_tag(), "g");
    assert_eq!(focused(&cs), Some(6));
    cs.focus_tag("l");
    assert!(move_focus(&rings, &mut cs, false));
    assert_eq!(cs.current_tag(), "g");
    assert_eq!(focused(&cs), Some(7));
    // a focused window that is in no ring leads on to the next screen, which is empty
    cs.insert(Xid::from(50));
    assert_eq!(focused(&cs), Some(50));
    assert!(move_focus(&rings, &mut cs, false));
    assert_eq!(cs.current_tag(), "m");
    assert_eq!(focused(&cs), None);
}

#[test]
fn idle_events_leave_the_stack_set_alone() {
    let (mut rings, mut cs) = three_in_g();
    cs.focus_client(&Xid::from(1));
    let before = snapshot(&cs);
    let same = RingEvent::PropertyChange { id: 3, is_fullscreen: false };
    assert!(!rings_event(&mut rings, &mut cs, same));
    assert!(!rings_event(&mut rings, &mut cs, RingEvent::Destroy(99)));
    assert!(!toggle_scratchpad(&mut rings, &mut cs));
    assert!(!carry_out(&rings, &mut cs, &vec![]));
    assert_eq!(snapshot(&cs), before);
    assert_eq!(focused(&cs), Some(1));
    assert_eq!(cs.current_tag(), "g");
}

use rings::sync::{hidden_tag, holds, plan_tag, Relocation};
use std::collections::HashMap;

fn to(id: u32, tag: &str) -> Relocation {
    Relocation { id, tag: tag.to_string() }
}

fn carry_out(at: &mut HashMap<u32, String>, plan: &[Relocation]) {
    for r in plan {
        at.insert(r.id, r.tag.clone());
    }
}

fn attached(at: &HashMap<u32, String>, tag: &str) -> Vec<u32> {
    let mut v: Vec<u32> = at.iter().filter(|(_, t)| t.as_str() == tag).map(|(id, _)| *id).collect();
    v.sort();
    v
}

#[test]
fn hidden_tag_has_its_label() {
    assert_eq!(hidden_tag(), "reikai");
}

#[test]
fn holds_finds_members() {
    assert!(holds(&vec![1, 2, 3], 2));
    assert!(!holds(&vec![1, 2, 3], 4));
    assert!(!holds(&vec![], 4));
}

#[test]
fn plan_parks_what_is_not_shown() {
    let plan = plan_tag(&vec![5, 6, 7, 8], &vec![7, 9], "m");
    assert_eq!(
        plan,
        vec![to(5, "reikai"), to(6, "reikai"), to(8, "reikai"), to(7, "m"), to(9, "m")]
    );
}

#[test]
fn plan_for_empty_tag_attaches_only() {
    assert_eq!(plan_tag(&vec![], &vec![2, 1], "g"), vec![to(2, "g"), to(1, "g")]);
    assert_eq!(plan_tag(&vec![], &vec![], "g"), Vec::<Relocation>::new());
}

#[test]
fn plan_for_nothing_shown_parks_everything() {
    assert_eq!(plan_tag(&vec![3, 4], &vec![], "g"), vec![to(3, "reikai"), to(4, "reikai")]);
}

#[test]
fn second_sync_relocates_nothing() {
    let mut at: HashMap<u32, String> = HashMap::new();
    for (id, tag) in [(1, "g"), (2, "g"), (3, "g"), (4, "m"), (5, "reikai")] {
        at.insert(id, tag.to_string());
    }
    let order = vec![5, 2];
    let first = plan_tag(&attached(&at, "g"), &order, "g");
    carry_out(&mut at, &first);
    assert_eq!(attached(&at, "g"), vec![2, 5]);
    let settled = at.clone();
    let second = plan_tag(&attached(&at, "g"), &order, "g");
    assert_eq!(second, vec![to(5, "g"), to(2, "g")]);
    assert!(second.iter().all(|r| r.tag != "reikai"));
    carry_out(&mut at, &second);
    assert_eq!(at, settled);
}

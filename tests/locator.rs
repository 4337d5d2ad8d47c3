use computer_use_cli::desktop::Desktop;
use computer_use_cli::errors::AutomationError;
use computer_use_cli::locator::Locator;
use computer_use_cli::selector::Selector;
use computer_use_cli::tree::{Bounds, TreeSnapshot};

fn s(v: &str) -> String {
    v.to_string()
}

fn bounds(x: i32, y: i32, width: u32, height: u32) -> Option<Bounds> {
    Some(Bounds { x, y, width, height })
}

// 0 desktop
//   1 application "Calculator"
//     2 window "Main"
//       3 button "OK" (actionable)
//       4 text "Label" "Hello"
//       5 button "Cancel" (bounds only)
//       6 text "Status" "Ready"
//       7 button "Help" (neither)
//   8 application "Browser"
fn sample() -> TreeSnapshot {
    let mut t = TreeSnapshot::new(s("desktop"), s("Desktop"), bounds(0, 0, 1920, 1080));
    t.add_node(0, s("application"), s("Calculator"), s(""), bounds(100, 100, 400, 300), false);
    t.add_node(1, s("window"), s("Main"), s(""), bounds(100, 120, 400, 280), false);
    t.add_node(2, s("button"), s("OK"), s("OK"), bounds(110, 300, 80, 30), true);
    t.add_node(2, s("text"), s("Label"), s("Hello"), None, false);
    t.add_node(2, s("button"), s("Cancel"), s("Cancel"), bounds(200, 300, 81, 31), false);
    t.add_node(2, s("text"), s("Status"), s("Ready"), None, false);
    t.add_node(2, s("button"), s("Help"), s(""), None, false);
    t.add_node(0, s("application"), s("Browser"), s(""), None, false);
    t
}

fn ids(d: &Desktop, q: &str) -> Vec<usize> {
    d.locator(q).all().iter().map(|e| e.id).collect()
}

#[test]
fn role_button_returns_the_three_buttons_in_order() {
    let d = Desktop::from_snapshot(sample());
    let found = d.locator("role:button").all();
    assert_eq!(found.iter().map(|e| e.id).collect::<Vec<_>>(), vec![3, 5, 7]);
    assert_eq!(found[1].name, "Cancel");
    assert_eq!(found[0].role, "button");
}

#[test]
fn wildcard_lists_every_node_once() {
    let d = Desktop::from_snapshot(sample());
    assert_eq!(ids(&d, "*"), vec![0, 1, 2, 3, 4, 5, 6, 7, 8]);
}

#[test]
fn wildcard_skips_destroyed_subtrees() {
    let mut t = sample();
    t.destroy(2);
    let d = Desktop::from_snapshot(t);
    assert_eq!(ids(&d, "*"), vec![0, 1, 8]);
}

#[test]
fn chained_locator_stays_below_parent_matches() {
    let d = Desktop::from_snapshot(sample());
    let apps = d.locator("name:Calculator");
    let buttons = apps.locator(Selector::parse("role:button"));
    let found: Vec<usize> = buttons.all().iter().map(|e| e.id).collect();
    assert_eq!(found, vec![3, 5, 7]);
    let under_browser = d.locator("name:Browser").locator(Selector::parse("*"));
    assert!(under_browser.all().is_empty());
    assert_eq!(ids(&d, "name:Calculator >> role:button"), vec![3, 5, 7]);
}

#[test]
fn chaining_leaves_the_parent_unchanged() {
    let d = Desktop::from_snapshot(sample());
    let parent = d.locator("role:window");
    let _child = parent.locator(Selector::parse("role:text"));
    assert_eq!(parent.selector.steps.len(), 1);
    assert_eq!(parent.all().iter().map(|e| e.id).collect::<Vec<_>>(), vec![2]);
}

#[test]
fn scoped_locator_searches_below_its_root() {
    let t = sample();
    let loc = Locator::within(&t, 1, Selector::parse("role:text"));
    assert_eq!(loc.all().iter().map(|e| e.id).collect::<Vec<_>>(), vec![4, 6]);
    let none = Locator::within(&t, 8, Selector::parse("*"));
    assert!(none.all().is_empty());
}

#[test]
fn nth_past_the_end_is_not_found() {
    let d = Desktop::from_snapshot(sample());
    let loc = d.locator("role:button");
    assert_eq!(loc.nth(1).unwrap().id, 5);
    assert_eq!(loc.nth(3).err(), Some(AutomationError::NotFound));
    assert_eq!(loc.nth(usize::MAX).err(), Some(AutomationError::NotFound));
}

#[test]
fn first_on_empty_result_is_not_found() {
    let d = Desktop::from_snapshot(sample());
    assert_eq!(d.locator("role:slider").first().err(), Some(AutomationError::NotFound));
    assert_eq!(d.locator("role:button").first().unwrap().id, 3);
    assert!(d.locator("role:slider").all().is_empty());
}

#[test]
fn name_contains_and_exact() {
    let d = Desktop::from_snapshot(sample());
    assert_eq!(ids(&d, "Canc"), vec![5]);
    assert_eq!(ids(&d, "name:Canc"), Vec::<usize>::new());
    assert_eq!(ids(&d, "name:Cancel"), vec![5]);
}

#[test]
fn text_matches_aggregated_subtree_text() {
    let d = Desktop::from_snapshot(sample());
    assert_eq!(ids(&d, "text:Hello"), vec![0, 1, 2, 4]);
    assert_eq!(ids(&d, "role:window >> text:Ready"), vec![6]);
}

#[test]
fn index_steps_pick_among_candidates() {
    let d = Desktop::from_snapshot(sample());
    assert_eq!(ids(&d, "index:1"), vec![1]);
    assert_eq!(ids(&d, "role:window >> index:0"), vec![3]);
    assert_eq!(ids(&d, "role:window >> index:9"), Vec::<usize>::new());
}

#[test]
fn role_button_ignores_interleaved_text_nodes() {
    let mut t = TreeSnapshot::new(s("desktop"), s("Desktop"), None);
    let mut buttons = Vec::new();
    for k in 0..3 {
        for j in 0..k + 2 {
            t.add_node(0, s("text"), format!("t{}{}", k, j), s("x"), None, false);
        }
        buttons.push(t.add_node(0, s("button"), format!("b{}", k), s(""), None, true));
    }
    t.add_node(0, s("text"), s("tail"), s(""), None, false);
    let d = Desktop::from_snapshot(t);
    assert_eq!(ids(&d, "role:button"), buttons);
}

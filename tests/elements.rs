use computer_use_cli::desktop::{Desktop, LaunchDecision, ScrollDirection};
use computer_use_cli::element::{ClickMethod, InputKind};
use computer_use_cli::errors::AutomationError;
use computer_use_cli::retry::{RetryPolicy, RetryStep};
use computer_use_cli::tree::{Bounds, TreeSnapshot};

fn s(v: &str) -> String {
    v.to_string()
}

fn bounds(x: i32, y: i32, width: u32, height: u32) -> Option<Bounds> {
    Some(Bounds { x, y, width, height })
}

fn sample() -> TreeSnapshot {
    let mut t = TreeSnapshot::new(s("desktop"), s("Desktop"), bounds(0, 0, 1920, 1080));
    t.add_node(0, s("application"), s("Calculator"), s(""), bounds(100, 100, 400, 300), false);
    t.add_node(1, s("window"), s("Main"), s(""), bounds(100, 120, 400, 280), false);
    t.add_node(2, s("button"), s("OK"), s("OK"), bounds(110, 300, 80, 30), true);
    t.add_node(2, s("text"), s("Label"), s("Hello"), None, false);
    t.add_node(2, s("button"), s("Cancel"), s("Cancel"), bounds(200, 300, 81, 31), false);
    t.add_node(2, s("text"), s("Status"), s("Ready"), None, false);
    t.add_node(2, s("button"), s("Help"), s(""), None, false);
    t.add_node(0, s("application"), s("Browser"), s(""), None, false);
    t
}

#[test]
fn reads_on_destroyed_node_are_stale() {
    let d = Desktop::from_snapshot(sample());
    let ok = d.locator("name:OK").first().unwrap();
    let cancel = d.locator("name:Cancel").first().unwrap();
    let mut t = sample();
    t.destroy(3);
    assert_eq!(ok.role(&t).err(), Some(AutomationError::StaleElement));
    assert_eq!(ok.name(&t).err(), Some(AutomationError::StaleElement));
    assert_eq!(ok.bounds(&t).err(), Some(AutomationError::StaleElement));
    assert_eq!(ok.text(&t, 5).err(), Some(AutomationError::StaleElement));
    assert_eq!(ok.click(&t).err(), Some(AutomationError::StaleElement));
    assert_eq!(cancel.role(&t).unwrap(), "button");
    t.destroy(2);
    assert_eq!(cancel.name(&t).err(), Some(AutomationError::StaleElement));
}

#[test]
fn reads_follow_the_current_snapshot() {
    let d = Desktop::from_snapshot(sample());
    let window = d.locator("role:window").first().unwrap();
    assert_eq!(window.name(d.tree()).unwrap(), "Main");
    assert_eq!(window.text(d.tree(), 1).unwrap(), "OK Hello Cancel Ready");
    assert_eq!(window.text(d.tree(), 0).unwrap(), "");
    assert_eq!(window.bounds(d.tree()).unwrap(), bounds(100, 120, 400, 280));
}

#[test]
fn click_uses_accessibility_action_when_supported() {
    let d = Desktop::from_snapshot(sample());
    let ok = d.locator("name:OK").first().unwrap();
    let r = ok.click(d.tree()).unwrap();
    assert_eq!(r.method, ClickMethod::AccessibilityAction);
    assert_eq!(r.method.name(), "accessibility-action");
    assert_eq!(r.coordinates, None);
}

#[test]
fn click_falls_back_to_coordinates() {
    let d = Desktop::from_snapshot(sample());
    let cancel = d.locator("name:Cancel").first().unwrap();
    let r = cancel.click(d.tree()).unwrap();
    assert_eq!(r.method, ClickMethod::CoordinateClick);
    assert_eq!(r.method.name(), "coordinate-click");
    assert_eq!(r.coordinates, Some((240, 315)));
    assert!(!r.details.is_empty());
}

#[test]
fn click_without_action_or_bounds_fails() {
    let d = Desktop::from_snapshot(sample());
    let help = d.locator("name:Help").first().unwrap();
    assert_eq!(help.click(d.tree()).err(), Some(AutomationError::ActionFailed));
    assert_eq!(help.type_text(d.tree(), "x").err(), Some(AutomationError::ActionFailed));
    let cancel = d.locator("name:Cancel").first().unwrap();
    let key = cancel.press_key(d.tree(), "Enter").unwrap();
    assert_eq!(key.coordinates, Some((240, 315)));
    assert_eq!(key.method, ClickMethod::CoordinateClick);
    assert_eq!(key.kind, InputKind::Key);
    assert_eq!(key.input, "Enter");
    assert_eq!(key.target, 5);
}

#[test]
fn type_text_carries_the_text() {
    let d = Desktop::from_snapshot(sample());
    let ok = d.locator("name:OK").first().unwrap();
    let typed = ok.type_text(d.tree(), "héllo, wörld").unwrap();
    assert_eq!(typed.input, "héllo, wörld");
    assert_eq!(typed.kind, InputKind::Text);
    assert_eq!(typed.method, ClickMethod::AccessibilityAction);
    assert_eq!(typed.coordinates, None);
    assert_eq!(typed.target, 3);
}

#[test]
fn open_missing_application_fails_to_launch() {
    let d = Desktop::from_snapshot(sample());
    match d.open_application("NoSuchApp") {
        LaunchDecision::Launch(name) => assert_eq!(name, "NoSuchApp"),
        LaunchDecision::Activate(_) => panic!("NoSuchApp is not running"),
    }
    assert_eq!(d.launch_result("NoSuchApp", false).err(), Some(AutomationError::LaunchFailed));
    assert_eq!(d.launch_result("NoSuchApp", true).err(), Some(AutomationError::LaunchFailed));
    assert_eq!(d.application("NoSuchApp").err(), Some(AutomationError::NotFound));
    assert_eq!(d.application("Calculator").unwrap().id, 1);
    match d.open_application("Browser") {
        LaunchDecision::Activate(e) => assert_eq!(e.id, 8),
        LaunchDecision::Launch(_) => panic!("Browser is running"),
    }
    assert_eq!(d.launch_result("Browser", true).unwrap().id, 8);
    assert_eq!(d.launch_result("Browser", false).err(), Some(AutomationError::LaunchFailed));
}

#[test]
fn applications_are_children_of_the_root() {
    let d = Desktop::from_snapshot(sample());
    let apps = d.applications().unwrap();
    assert_eq!(apps.iter().map(|e| e.id).collect::<Vec<_>>(), vec![1, 8]);
    assert_eq!(d.root().id, 0);
    assert_eq!(d.root().role, "desktop");
}

#[test]
fn focused_element_follows_focus() {
    let mut d = Desktop::from_snapshot(sample());
    assert_eq!(d.focused_element().err(), Some(AutomationError::NotFound));
    d.set_focus(Some(4));
    assert_eq!(d.focused_element().unwrap().name, "Label");
    let mut t = sample();
    t.destroy(4);
    d.refresh(t);
    assert_eq!(d.focused_element().err(), Some(AutomationError::NotFound));
}

#[test]
fn open_url_request_carries_url_and_browser() {
    let mut d = Desktop::from_snapshot(sample());
    let r = d.open_url("https://example.com", Some("Browser"));
    assert_eq!(r.url, "https://example.com");
    assert_eq!(r.browser, Some(s("Browser")));
    let plain = d.open_url("https://example.org/a?b=c", None);
    assert_eq!(plain.url, "https://example.org/a?b=c");
    assert_eq!(plain.browser, None);
    d.set_default_browser(Some(s("Firefox")));
    assert_eq!(d.open_url("https://example.com", None).browser, Some(s("Firefox")));
    assert_eq!(d.open_url("https://example.com", Some("Safari")).browser, Some(s("Safari")));
}

#[test]
fn new_desktop_holds_only_the_root() {
    let d = Desktop::new(false, true).unwrap();
    assert_eq!(d.locator("*").all().len(), 1);
    assert!(d.engine.activate_app);
    assert!(!d.engine.use_background_apps);
}

#[test]
fn scroll_checks_direction() {
    let d = Desktop::from_snapshot(sample());
    let g = d.scroll_at_position(10, 20, "down", 3).unwrap();
    assert_eq!(g.position, Some((10, 20)));
    assert_eq!(g.direction, ScrollDirection::Down);
    assert_eq!(g.amount, 3);
    let c = d.scroll_at_current_position("left", 1).unwrap();
    assert_eq!(c.position, None);
    assert_eq!(c.direction, ScrollDirection::Left);
    assert_eq!(d.scroll_at_position(0, 0, "sideways", 3).err(), Some(AutomationError::ActionFailed));
    assert_eq!(d.scroll_at_current_position("up", 0).unwrap().amount, 0);
    assert_eq!(d.scroll_at_current_position("Up", 1).err(), Some(AutomationError::ActionFailed));
}

#[test]
fn retry_waits_no_longer_than_the_timeout() {
    let p = RetryPolicy::new(100, 30);
    assert_eq!(p.next_step(true, 0, false), RetryStep::Done);
    assert_eq!(p.next_step(false, 0, false), RetryStep::Wait(30));
    assert_eq!(p.next_step(false, 90, false), RetryStep::Wait(10));
    assert_eq!(p.next_step(false, 100, false), RetryStep::Fail(AutomationError::NotFound));
    assert_eq!(p.next_step(false, 10, true), RetryStep::Fail(AutomationError::Cancelled));
    assert_eq!(p.next_step(true, 500, true), RetryStep::Done);
    assert_eq!(RetryPolicy::new(5, 0).next_step(false, 0, false), RetryStep::Wait(1));
    let mut elapsed: u64 = 0;
    let mut attempts = 0;
    loop {
        attempts += 1;
        match p.next_step(false, elapsed, false) {
            RetryStep::Wait(w) => elapsed += w,
            RetryStep::Fail(e) => {
                assert_eq!(e, AutomationError::NotFound);
                break;
            }
            RetryStep::Done => unreachable!(),
        }
    }
    assert_eq!(elapsed, 100);
    assert_eq!(attempts, 5);
}

#[test]
fn error_messages_are_distinct() {
    assert_eq!(AutomationError::NotFound.message(), "element not found");
    assert_eq!(AutomationError::StaleElement.message(), "element no longer exists");
    assert_eq!(AutomationError::Cancelled.message(), "cancelled");
    assert_ne!(AutomationError::LaunchFailed.message(), AutomationError::ActionFailed.message());
}

#[test]
fn first_attempt_returns_a_match_at_once() {
    let d = Desktop::from_snapshot(sample());
    let p = RetryPolicy::new(1000, 50);
    let hit = d.locator("role:button").first_attempt(&p, 999, false);
    assert_eq!(hit.unwrap().id, 3);
    let miss = d.locator("role:slider");
    assert_eq!(miss.first_attempt(&p, 0, false).err(), Some(RetryStep::Wait(50)));
    assert_eq!(miss.first_attempt(&p, 1000, false).err(), Some(RetryStep::Fail(AutomationError::NotFound)));
    assert_eq!(miss.first_attempt(&p, 10, true).err(), Some(RetryStep::Fail(AutomationError::Cancelled)));
}

#[test]
fn attributes_and_enabled_flag_are_read_live() {
    let mut t = sample();
    t.add_attribute(3, s("AXIdentifier"), s("ok-button"));
    t.add_attribute(3, s("AXIdentifier"), s("shadowed"));
    t.add_attribute(3, s("AXHelp"), s("Confirms"));
    t.set_enabled(5, false);
    let d = Desktop::from_snapshot(t);
    let ok = d.locator("name:OK").first().unwrap();
    let cancel = d.locator("name:Cancel").first().unwrap();
    assert_eq!(ok.attribute(d.tree(), "AXIdentifier").unwrap(), Some(s("ok-button")));
    assert_eq!(ok.attribute(d.tree(), "AXHelp").unwrap(), Some(s("Confirms")));
    assert_eq!(ok.attribute(d.tree(), "AXMissing").unwrap(), None);
    assert_eq!(ok.is_enabled(d.tree()).unwrap(), true);
    assert_eq!(cancel.is_enabled(d.tree()).unwrap(), false);
    let mut gone = sample();
    gone.destroy(1);
    assert_eq!(ok.attribute(&gone, "AXHelp").err(), Some(AutomationError::StaleElement));
    assert_eq!(ok.is_enabled(&gone).err(), Some(AutomationError::StaleElement));
}

use std::collections::{HashMap, HashSet};

use jxcel::ports::WindowLabel;
use jxcel::session::state::SessionError;
use jxcel::session::watch::WatchedWindows;

/// The window side as a test drives it: which windows can be found, and how often each was
/// subscribed to. `subscribe_fails` stands for a window destroyed between lookup and
/// subscription.
#[derive(Default)]
struct FakeWindows {
    existing: HashSet<String>,
    subscriptions: HashMap<String, usize>,
    subscribe_fails: bool,
}

impl FakeWindows {
    fn with(labels: &[&str]) -> Self {
        FakeWindows {
            existing: labels.iter().map(|label| (*label).to_owned()).collect(),
            ..FakeWindows::default()
        }
    }

    fn has_window(&self, label: &str) -> bool {
        self.existing.contains(label)
    }

    fn subscribe(&mut self, label: &str) -> bool {
        if self.subscribe_fails || !self.existing.contains(label) {
            return false;
        }
        *self.subscriptions.entry(label.to_owned()).or_insert(0) += 1;
        true
    }

    fn subscription_count(&self, label: &str) -> usize {
        self.subscriptions.get(label).copied().unwrap_or(0)
    }
}

/// The registration that each creating entrance makes before it touches the session table.
fn register(watch: &mut WatchedWindows, windows: &mut FakeWindows, label: &str) -> Result<(), SessionError> {
    let window = WindowLabel::new(label);
    if watch.is_watched(&window) {
        let present = windows.has_window(label);
        watch.settle_watched(&window, present)
    } else {
        let subscribed = windows.subscribe(label);
        watch.settle_subscription(&window, subscribed)
    }
}

fn watched(watch: &WatchedWindows, labels: &[&str]) -> Vec<String> {
    labels
        .iter()
        .filter(|label| watch.is_watched(&WindowLabel::new(label)))
        .map(|label| (*label).to_owned())
        .collect()
}

#[test]
fn every_creating_entry_registers_the_subscription() {
    let mut windows = FakeWindows::with(&["doc-1", "empty-1", "empty-2"]);
    let mut watch = WatchedWindows::new();
    for label in ["doc-1", "empty-1", "empty-2"] {
        assert_eq!(register(&mut watch, &mut windows, label), Ok(()));
    }
    for label in ["doc-1", "empty-1", "empty-2"] {
        assert_eq!(1, windows.subscription_count(label), "{label} has no subscription");
    }
    assert_eq!(3, watch.len());
    assert_eq!(
        vec!["doc-1".to_owned(), "empty-1".to_owned(), "empty-2".to_owned()],
        watched(&watch, &["doc-1", "empty-1", "empty-2"])
    );
}

#[test]
fn a_destroyed_window_returns_to_absent() {
    let mut windows = FakeWindows::with(&["doc-1"]);
    let mut watch = WatchedWindows::new();
    register(&mut watch, &mut windows, "doc-1").expect("the window is found");
    // The destruction notice releases the window's record.
    windows.existing.remove("doc-1");
    watch.release(&WindowLabel::new("doc-1"));
    assert!(!watch.is_watched(&WindowLabel::new("doc-1")));
    assert_eq!(0, watch.len(), "a record of the destroyed window stayed");
}

#[test]
fn a_destroy_leaves_the_other_windows_untouched() {
    let mut windows = FakeWindows::with(&["doc-1", "doc-2"]);
    let mut watch = WatchedWindows::new();
    register(&mut watch, &mut windows, "doc-1").expect("the window is found");
    register(&mut watch, &mut windows, "doc-2").expect("the window is found");
    windows.existing.remove("doc-1");
    watch.release(&WindowLabel::new("doc-1"));
    assert_eq!(vec!["doc-2".to_owned()], watched(&watch, &["doc-1", "doc-2"]));
    assert_eq!(1, watch.len());
}

#[test]
fn a_creating_entry_cleans_up_a_window_that_cannot_be_resolved() {
    let mut windows = FakeWindows::with(&["doc-1"]);
    let mut watch = WatchedWindows::new();
    register(&mut watch, &mut windows, "doc-1").expect("the window is found");
    let subscriptions_before = windows.subscription_count("doc-1");
    // Destroyed between lookup and subscription: no notice arrives.
    windows.existing.remove("doc-1");

    assert_eq!(register(&mut watch, &mut windows, "doc-1"), Err(SessionError::NoDocument));
    assert!(!watch.is_watched(&WindowLabel::new("doc-1")), "the clean-up left the record");
    // The other entrances are refused the same way and subscribe nothing.
    assert_eq!(register(&mut watch, &mut windows, "doc-1"), Err(SessionError::NoDocument));
    assert_eq!(register(&mut watch, &mut windows, "doc-1"), Err(SessionError::NoDocument));
    assert_eq!(0, watch.len());
    assert_eq!(subscriptions_before, windows.subscription_count("doc-1"), "a missing window was subscribed to");
}

#[test]
fn the_cleanup_path_releases_a_session_whose_window_is_gone() {
    let mut windows = FakeWindows::with(&["doc-1", "doc-2"]);
    let mut watch = WatchedWindows::new();
    register(&mut watch, &mut windows, "doc-1").expect("the window is found");
    register(&mut watch, &mut windows, "doc-2").expect("the window is found");
    windows.existing.remove("doc-1");

    let one = WindowLabel::new("doc-1");
    let two = WindowLabel::new("doc-2");
    assert!(watch.forget_unresolvable(&one, windows.has_window("doc-1")));
    assert_eq!(vec!["doc-2".to_owned()], watched(&watch, &["doc-1", "doc-2"]));
    // A window that is found is left alone.
    assert!(!watch.forget_unresolvable(&two, windows.has_window("doc-2")));
    assert_eq!(vec!["doc-2".to_owned()], watched(&watch, &["doc-1", "doc-2"]));
}

#[test]
fn repeated_resolves_register_the_subscription_once() {
    let mut windows = FakeWindows::with(&["doc-1", "doc-2"]);
    let mut watch = WatchedWindows::new();
    register(&mut watch, &mut windows, "doc-1").expect("first");
    register(&mut watch, &mut windows, "doc-1").expect("second");
    assert_eq!(1, windows.subscription_count("doc-1"), "subscribed twice");
    // A retry after a failed read registers nothing more either.
    register(&mut watch, &mut windows, "doc-2").expect("first");
    register(&mut watch, &mut windows, "doc-2").expect("retry");
    assert_eq!(1, windows.subscription_count("doc-2"), "the retry subscribed again");
    assert_eq!(vec!["doc-1".to_owned(), "doc-2".to_owned()], watched(&watch, &["doc-1", "doc-2"]));
    assert_eq!(2, watch.len());
}

#[test]
fn a_failed_registration_does_not_insert_a_session() {
    let mut windows = FakeWindows::with(&["doc-1"]);
    windows.subscribe_fails = true;
    let mut watch = WatchedWindows::new();
    assert_eq!(register(&mut watch, &mut windows, "doc-1"), Err(SessionError::NoDocument));
    assert_eq!(0, watch.len());
    assert!(!watch.is_watched(&WindowLabel::new("doc-1")));
}

#[test]
fn releasing_an_unwatched_window_changes_nothing() {
    let mut windows = FakeWindows::with(&["doc-1"]);
    let mut watch = WatchedWindows::new();
    register(&mut watch, &mut windows, "doc-1").expect("the window is found");
    watch.release(&WindowLabel::new("doc-9"));
    assert_eq!(vec!["doc-1".to_owned()], watched(&watch, &["doc-1", "doc-9"]));
}

use purple::clipboard_manager::{ClipboardManager, Pinning};
use purple::contents::{Contents, Kind, Shown};
use purple::model::HISTORY_LEN;
use purple::store::HasId;

fn text(s: &str) -> Contents {
    Contents::Text { text: s.to_string() }
}

fn paths(items: &[&str]) -> Contents {
    Contents::FilePath { paths: items.iter().map(|s| s.to_string()).collect() }
}

fn image(thumbnail: &str, rgba: Vec<u8>, width: u32, height: u32) -> Contents {
    Contents::Image { thumbnail: thumbnail.to_string(), rgba, width, height }
}

fn shown_text(shown: &Shown) -> String {
    match shown {
        Shown::Text(t) => t.clone(),
        other => panic!("not a text entry: {:?}", other),
    }
}

fn empty() -> ClipboardManager {
    ClipboardManager::new(Vec::new(), None)
}

fn see(manager: &mut ClipboardManager, contents: Contents) -> u32 {
    let seen = Some(contents);
    assert!(manager.can_check(&seen));
    manager.check(seen).unwrap()
}

#[test]
fn twenty_one_items_keep_the_newest_twenty() {
    let mut manager = empty();
    let mut ids = Vec::new();
    for i in 0..21 {
        ids.push(see(&mut manager, text(&format!("item-{}", i))));
    }
    let update = manager.emit();
    assert_eq!(update.history.len(), HISTORY_LEN);
    assert_eq!(update.history.len(), 20);
    for (position, entry) in update.history.iter().enumerate() {
        assert_eq!(shown_text(&entry.content), format!("item-{}", 20 - position));
        assert_eq!(entry.content.kind(), Kind::Text);
        assert!(!entry.is_pinned);
        assert_eq!(entry.id, ids[20 - position]);
    }
    assert!(manager.get(ids[0]).is_none());
    assert!(update.pinned.is_empty());
    assert!(update.history.iter().all(|e| shown_text(&e.content) != "item-0"));
}

#[test]
fn ids_count_up_from_zero() {
    let mut manager = empty();
    assert_eq!(see(&mut manager, text("a")), 0);
    assert_eq!(see(&mut manager, text("b")), 1);
    assert_eq!(see(&mut manager, paths(&["/a"])), 2);
    assert_eq!(manager.history(), vec![2, 1, 0]);
    assert_eq!(manager.get(1).unwrap().id(), 1);
    assert!(!manager.get(1).unwrap().is_pinned);
}

#[test]
fn equal_payload_gets_the_same_id_again() {
    let mut manager = empty();
    let first = see(&mut manager, text("same"));
    let other = see(&mut manager, text("other"));
    let second = see(&mut manager, text("same"));
    assert_eq!(first, second);
    assert_ne!(first, other);
    assert_eq!(manager.history(), vec![first, other]);
    assert_eq!(manager.emit().history.len(), 2);
}

#[test]
fn images_are_the_same_by_their_thumbnail() {
    let mut manager = empty();
    let a = see(&mut manager, image("thumb", vec![1, 2, 3, 4], 1, 1));
    let b = see(&mut manager, text("between"));
    let c = see(&mut manager, image("thumb", vec![9, 9, 9, 9, 9, 9, 9, 9], 2, 1));
    let d = see(&mut manager, image("other", vec![1, 2, 3, 4], 1, 1));
    assert_eq!(a, c);
    assert_ne!(a, d);
    assert_ne!(a, b);
    match &manager.get(a).unwrap().contents {
        Contents::Image { rgba, width, .. } => {
            assert_eq!(rgba, &vec![1, 2, 3, 4]);
            assert_eq!(*width, 1);
        }
        other => panic!("not an image: {:?}", other),
    }
    let update = manager.emit();
    assert!(matches!(&update.history[0].content, Shown::Image(t) if t == "other"));
    assert_eq!(update.history[0].content.kind(), Kind::Image);
    assert_eq!(Kind::Image.name(), "image");
    assert_eq!(Kind::Text.name(), "text");
    assert_eq!(Kind::Paths.name(), "paths");
}

#[test]
fn text_and_paths_with_the_same_letters_differ() {
    let mut manager = empty();
    let a = see(&mut manager, text("/a"));
    let b = see(&mut manager, paths(&["/a"]));
    let c = see(&mut manager, paths(&["/a", "/b"]));
    let d = see(&mut manager, paths(&["/a"]));
    assert_ne!(a, b);
    assert_ne!(b, c);
    assert_eq!(b, d);
    assert_eq!(manager.history(), vec![b, c, a]);
}

#[test]
fn seeing_the_head_again_changes_nothing() {
    let mut manager = empty();
    see(&mut manager, text("a"));
    see(&mut manager, text("b"));
    let before = manager.history();
    assert_eq!(manager.check(Some(text("b"))), Some(1));
    assert_eq!(manager.history(), before);
}

#[test]
fn nothing_readable_changes_nothing() {
    let mut manager = empty();
    see(&mut manager, text("a"));
    assert_eq!(manager.check(None), None);
    assert_eq!(manager.history(), vec![0]);
    assert!(!manager.awaits_own_change());
}

#[test]
fn pinned_entry_survives_eviction() {
    let mut manager = empty();
    let a = see(&mut manager, text("keep me"));
    assert_eq!(manager.pin(a), Pinning::Pinned);
    for i in 0..HISTORY_LEN {
        see(&mut manager, text(&format!("later-{}", i)));
    }
    assert!(!manager.history().contains(&a));
    assert_eq!(manager.history().len(), HISTORY_LEN);
    assert_eq!(manager.pinned(), vec![a]);
    let item = manager.get(a).unwrap();
    assert!(item.is_pinned);
    assert!(matches!(&item.contents, Contents::Text { text } if text == "keep me"));
    let update = manager.emit();
    assert_eq!(update.pinned.len(), 1);
    assert_eq!(update.pinned[0].id, a);
    assert!(update.pinned[0].is_pinned);
    assert_eq!(shown_text(&update.pinned[0].content), "keep me");
}

#[test]
fn unpinned_entry_is_dropped_by_eviction() {
    let mut manager = empty();
    let a = see(&mut manager, text("lose me"));
    for i in 0..HISTORY_LEN {
        see(&mut manager, text(&format!("later-{}", i)));
    }
    assert!(manager.get(a).is_none());
    assert_eq!(manager.copy(a, true), false);
    assert_eq!(manager.pin(a), Pinning::Unknown);
}

#[test]
fn own_change_is_consumed_after_copy() {
    let mut manager = empty();
    let a = see(&mut manager, text("a"));
    let b = see(&mut manager, text("b"));
    assert!(manager.copy(a, true));
    assert!(manager.awaits_own_change());
    let after_copy = manager.history();
    assert_eq!(after_copy, vec![a, b]);
    assert_eq!(manager.check(Some(text("something else"))), None);
    assert_eq!(manager.history(), after_copy);
    assert!(!manager.awaits_own_change());
    assert!(matches!(manager.current(), Some(Contents::Text { text }) if text == "a"));
    let c = see(&mut manager, text("c"));
    assert_eq!(manager.history(), vec![c, a, b]);
}

#[test]
fn copy_of_current_changes_nothing() {
    let mut manager = empty();
    let a = see(&mut manager, text("a"));
    let b = see(&mut manager, text("b"));
    manager.pin(a);
    assert_eq!(manager.copy(b, true), false);
    assert!(!manager.awaits_own_change());
    assert_eq!(manager.history(), vec![b, a]);
    assert_eq!(manager.pinned(), vec![a]);
    assert!(manager.get(a).is_some() && manager.get(b).is_some());
    let c = see(&mut manager, text("c"));
    assert_eq!(manager.history(), vec![c, b, a]);
}

#[test]
fn copy_of_unknown_id_changes_nothing() {
    let mut manager = empty();
    see(&mut manager, text("a"));
    assert_eq!(manager.copy(42, true), false);
    assert!(!manager.awaits_own_change());
    assert_eq!(manager.history(), vec![0]);
}

#[test]
fn copy_of_pinned_only_entry_evicts_the_oldest() {
    let mut manager = ClipboardManager::new(vec![text("pinned")], None);
    assert_eq!(manager.pinned(), vec![0]);
    assert!(manager.history().is_empty());
    assert!(manager.current().is_none());
    let mut ids = Vec::new();
    for i in 0..HISTORY_LEN {
        ids.push(see(&mut manager, text(&format!("t-{}", i))));
    }
    assert!(manager.copy(0, true));
    let history = manager.history();
    assert_eq!(history.len(), HISTORY_LEN);
    assert_eq!(history[0], 0);
    assert!(manager.get(ids[0]).is_none());
    assert!(manager.get(ids[1]).is_some());
    assert!(matches!(manager.current(), Some(Contents::Text { text }) if text == "pinned"));
}

#[test]
fn pin_puts_the_newest_pin_first() {
    let mut manager = empty();
    let a = see(&mut manager, text("a"));
    let b = see(&mut manager, text("b"));
    assert_eq!(manager.pin(a), Pinning::Pinned);
    assert_eq!(manager.pin(b), Pinning::Pinned);
    assert_eq!(manager.pin(a), Pinning::AlreadyPinned);
    assert_eq!(manager.pinned(), vec![b, a]);
    assert!(manager.get(a).unwrap().is_pinned);
    let kept = manager.pinned_contents();
    assert_eq!(kept.len(), 2);
    assert!(matches!(&kept[0], Contents::Text { text } if text == "b"));
    assert!(matches!(&kept[1], Contents::Text { text } if text == "a"));
    let update = manager.emit();
    assert!(update.history.iter().all(|e| e.is_pinned));
}

#[test]
fn pin_of_unknown_id_changes_nothing() {
    let mut manager = ClipboardManager::new(Vec::new(), Some(text("a")));
    assert_eq!(manager.pin(77), Pinning::Unknown);
    assert!(manager.pinned().is_empty());
    assert_eq!(manager.history(), vec![0]);
}

#[test]
fn unpin_keeps_an_entry_that_the_history_names() {
    let mut manager = empty();
    let a = see(&mut manager, text("a"));
    manager.pin(a);
    assert!(manager.unpin(a));
    assert!(manager.pinned().is_empty());
    assert!(!manager.get(a).unwrap().is_pinned);
    assert_eq!(manager.history(), vec![a]);
    assert!(!manager.unpin(a));
}

#[test]
fn unpin_without_history_drops_the_entry() {
    let mut manager = ClipboardManager::new(vec![text("old pin"), paths(&["/p"])], Some(text("now")));
    assert_eq!(manager.pinned(), vec![0, 1]);
    assert_eq!(manager.history(), vec![2]);
    assert_eq!(manager.pin(0), Pinning::AlreadyPinned);
    assert!(manager.unpin(0));
    assert!(manager.get(0).is_none());
    assert_eq!(manager.pinned(), vec![1]);
    assert!(manager.get(1).unwrap().is_pinned);
    assert!(!manager.unpin(0));
    assert!(!manager.unpin(99));
}

#[test]
fn start_keeps_the_saved_order_and_drops_repeats() {
    let manager = ClipboardManager::new(
        vec![text("one"), text("two"), text("one"), text("three")],
        Some(text("two")),
    );
    assert_eq!(manager.pinned(), vec![0, 1, 2]);
    assert_eq!(manager.history(), vec![1]);
    let update = manager.emit();
    let shown: Vec<String> = update.pinned.iter().map(|e| shown_text(&e.content)).collect();
    assert_eq!(shown, vec!["one", "two", "three"]);
    assert!(update.pinned.iter().all(|e| e.is_pinned));
    assert!(update.history[0].is_pinned);
    assert!(!manager.awaits_own_change());
    assert!(manager.has_room());
}

#[test]
fn start_with_nothing_is_empty() {
    let manager = empty();
    let update = manager.emit();
    assert!(update.history.is_empty() && update.pinned.is_empty());
    assert!(manager.current().is_none());
    assert!(manager.get(0).is_none());
}

#[test]
fn evicted_payload_gets_a_new_id_later() {
    let mut manager = empty();
    let first = see(&mut manager, text("again"));
    for i in 0..HISTORY_LEN {
        see(&mut manager, text(&format!("t-{}", i)));
    }
    let second = see(&mut manager, text("again"));
    assert_ne!(first, second);
    assert_eq!(second as usize, HISTORY_LEN + 1);
}

#[test]
fn equal_payload_gets_the_same_id_after_a_copy() {
    let mut manager = empty();
    let x = see(&mut manager, text("x"));
    let first = see(&mut manager, text("same"));
    assert!(manager.copy(x, true));
    assert_eq!(manager.check(Some(text("x"))), None);
    let second = see(&mut manager, text("same"));
    assert_eq!(first, second);
    assert_eq!(manager.history(), vec![first, x]);
    let update = manager.emit();
    let shown: Vec<String> = update.history.iter().map(|e| shown_text(&e.content)).collect();
    assert_eq!(shown, vec!["same", "x"]);
}

#[test]
fn history_never_names_an_entry_twice() {
    let mut manager = empty();
    for round in 0..3 {
        for i in 0..25 {
            see(&mut manager, text(&format!("t-{}", (i * 7 + round) % 23)));
        }
    }
    let history = manager.history();
    assert_eq!(history.len(), HISTORY_LEN);
    let mut sorted = history.clone();
    sorted.sort();
    sorted.dedup();
    assert_eq!(sorted.len(), history.len());
    let update = manager.emit();
    let mut shown: Vec<String> = update.history.iter().map(|e| shown_text(&e.content)).collect();
    shown.sort();
    shown.dedup();
    assert_eq!(shown.len(), HISTORY_LEN);
}

#[test]
fn failed_write_changes_nothing() {
    let mut manager = ClipboardManager::new(vec![text("pinned")], None);
    let mut ids = Vec::new();
    for i in 0..HISTORY_LEN {
        ids.push(see(&mut manager, text(&format!("t-{}", i))));
    }
    let history = manager.history();
    let pinned = manager.pinned();
    assert!(matches!(manager.to_write(0), Some(Contents::Text { text }) if text == "pinned"));
    assert_eq!(manager.copy(0, false), false);
    assert_eq!(manager.history(), history);
    assert_eq!(manager.pinned(), pinned);
    assert!(manager.get(ids[0]).is_some());
    assert!(!manager.awaits_own_change());
    let next = see(&mut manager, text("outside"));
    assert_eq!(manager.history()[0], next);
    assert_eq!(manager.copy(ids[5], false), false);
    assert!(!manager.awaits_own_change());
    assert_eq!(manager.history()[0], next);
}

#[test]
fn to_write_gives_what_a_copy_writes() {
    let mut manager = empty();
    let a = see(&mut manager, text("a"));
    let b = see(&mut manager, paths(&["/b"]));
    assert!(manager.to_write(b).is_none());
    assert!(manager.to_write(99).is_none());
    assert!(matches!(manager.to_write(a), Some(Contents::Text { text }) if text == "a"));
    assert_eq!(manager.history(), vec![b, a]);
    assert!(manager.copy(a, true));
    assert!(manager.to_write(a).is_none());
    assert!(matches!(manager.to_write(b), Some(Contents::FilePath { paths }) if paths.len() == 1));
}

#[test]
fn a_pending_signal_can_always_be_checked() {
    let mut manager = empty();
    let a = see(&mut manager, text("a"));
    see(&mut manager, text("b"));
    assert!(manager.copy(a, true));
    assert!(manager.can_check(&Some(text("never seen"))));
    assert!(manager.can_check(&None));
    assert_eq!(manager.check(Some(text("never seen"))), None);
    assert!(manager.can_check(&Some(text("a"))));
    assert!(manager.can_check(&Some(text("new"))));
}

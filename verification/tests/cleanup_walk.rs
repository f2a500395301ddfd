use cove_optimizer::cleanup::CleanOutcome;
use cove_optimizer::cleanup_walk::{CleanupWalk, WalkAction, WalkEvent};

fn wide(s: &str) -> Vec<u16> {
    s.encode_utf16().collect()
}

fn entry(name: &str, attributes: u32) -> WalkEvent {
    WalkEvent::Entry { name: wide(name), attributes }
}

#[test]
fn emptying_removes_child_folders_after_their_files_and_never_the_target() {
    let (mut w, a) = CleanupWalk::start(0, true);
    assert_eq!(a, WalkAction::Read { dir: 0, restart: true });
    assert_eq!(w.step(entry(".", 0x10)), WalkAction::Read { dir: 0, restart: false });
    assert_eq!(w.step(entry("a.tmp", 0x20)), WalkAction::DeleteFile { dir: 0, name: wide("a.tmp") });
    assert!(w.accepts(&WalkEvent::Deleted(100)));
    assert!(!w.accepts(&WalkEvent::Length(100)));
    assert_eq!(w.step(WalkEvent::Deleted(100)), WalkAction::Read { dir: 0, restart: false });
    assert_eq!(w.step(entry("sub", 0x10)), WalkAction::OpenDir { dir: 0, name: wide("sub") });
    assert_eq!(w.step(WalkEvent::Opened(1)), WalkAction::Read { dir: 0, restart: false });
    // A linked folder is left alone.
    assert_eq!(w.step(entry("link", 0x10 | 0x400)), WalkAction::Read { dir: 0, restart: false });
    assert_eq!(w.step(WalkEvent::End), WalkAction::Read { dir: 1, restart: true });
    assert_eq!(w.step(entry("b.tmp", 0x20)), WalkAction::DeleteFile { dir: 1, name: wide("b.tmp") });
    assert_eq!(w.step(WalkEvent::Failed), WalkAction::Read { dir: 1, restart: false });
    assert_eq!(w.step(WalkEvent::End), WalkAction::RemoveDir { dir: 1 });
    assert_eq!(w.step(WalkEvent::Failed), WalkAction::Done(Ok(())));
    let o = w.outcome();
    assert_eq!((o.freed_bytes, o.deleted_files, o.skipped_items), (100, 1, 3));
    assert_eq!(o.message(), "Cleaned 100 bytes; skipped 3 in-use, protected, or linked items.");
    assert!(!w.accepts(&WalkEvent::End));
}

#[test]
fn measuring_counts_files_and_skips_unsafe_names() {
    let (mut w, _) = CleanupWalk::start(7, false);
    assert_eq!(w.step(entry("big.bin", 0x20)), WalkAction::MeasureFile { dir: 7, name: wide("big.bin") });
    assert_eq!(w.step(WalkEvent::Length(2048)), WalkAction::Read { dir: 7, restart: false });
    assert_eq!(w.step(entry("a:b", 0x20)), WalkAction::Read { dir: 7, restart: false });
    assert_eq!(w.step(entry("gone.tmp", 0x20)), WalkAction::MeasureFile { dir: 7, name: wide("gone.tmp") });
    assert_eq!(w.step(WalkEvent::Missing), WalkAction::Read { dir: 7, restart: false });
    assert_eq!(w.step(WalkEvent::End), WalkAction::Done(Ok(())));
    let m = w.measurement();
    assert_eq!((m.size_bytes, m.file_count, m.skipped_items), (2048, 1, 1));
}

#[test]
fn a_target_that_cannot_be_read_fails_the_walk() {
    let (mut w, _) = CleanupWalk::start(0, false);
    assert_eq!(
        w.step(WalkEvent::ReadFailed("denied".to_string())),
        WalkAction::Done(Err("Could not enumerate cleanup folder: denied".to_string()))
    );
    let (mut w2, _) = CleanupWalk::start(0, true);
    assert_eq!(w2.step(entry("sub", 0x10)), WalkAction::OpenDir { dir: 0, name: wide("sub") });
    assert_eq!(w2.step(WalkEvent::Opened(3)), WalkAction::Read { dir: 0, restart: false });
    assert_eq!(w2.step(WalkEvent::End), WalkAction::Read { dir: 3, restart: true });
    // A child folder that cannot be read is skipped, and still removed after.
    assert_eq!(w2.step(WalkEvent::ReadFailed("denied".to_string())), WalkAction::RemoveDir { dir: 3 });
    assert_eq!(w2.step(WalkEvent::Removed), WalkAction::Done(Ok(())));
    assert_eq!(w2.outcome().skipped_items, 1);
}

#[test]
fn an_empty_target_cleans_zero_bytes() {
    let (mut w, a) = CleanupWalk::start(0, true);
    assert_eq!(a, WalkAction::Read { dir: 0, restart: true });
    assert_eq!(w.step(WalkEvent::End), WalkAction::Done(Ok(())));
    let o = w.outcome();
    assert!(!o.root_missing);
    assert_eq!((o.freed_bytes, o.deleted_files, o.skipped_items), (0, 0, 0));
    assert_eq!(o.message(), "Cleaned 0 MB");
}

#[test]
fn a_missing_target_is_already_clean() {
    let o = CleanOutcome::empty(true);
    assert_eq!((o.freed_bytes, o.deleted_files, o.skipped_items), (0, 0, 0));
    assert_eq!(o.message(), "Already clean (folder does not exist).");
}

#[test]
fn a_file_in_use_does_not_stop_the_other_deletions() {
    let (mut w, _) = CleanupWalk::start(4, true);
    assert_eq!(w.step(entry("locked.tmp", 0x20)), WalkAction::DeleteFile { dir: 4, name: wide("locked.tmp") });
    assert_eq!(w.step(WalkEvent::Failed), WalkAction::Read { dir: 4, restart: false });
    assert_eq!(w.step(entry("free.tmp", 0x20)), WalkAction::DeleteFile { dir: 4, name: wide("free.tmp") });
    assert_eq!(w.step(WalkEvent::Deleted(7)), WalkAction::Read { dir: 4, restart: false });
    assert_eq!(w.step(WalkEvent::End), WalkAction::Done(Ok(())));
    let o = w.outcome();
    assert_eq!((o.freed_bytes, o.deleted_files, o.skipped_items), (7, 1, 1));
}

#[test]
fn measuring_keeps_partial_totals_past_a_file_in_use() {
    let (mut w, _) = CleanupWalk::start(2, false);
    assert_eq!(w.step(entry("locked.tmp", 0x20)), WalkAction::MeasureFile { dir: 2, name: wide("locked.tmp") });
    assert_eq!(w.step(WalkEvent::Failed), WalkAction::Read { dir: 2, restart: false });
    assert_eq!(w.step(entry("readable.tmp", 0x20)), WalkAction::MeasureFile { dir: 2, name: wide("readable.tmp") });
    assert_eq!(w.step(WalkEvent::Length(7)), WalkAction::Read { dir: 2, restart: false });
    assert_eq!(w.step(WalkEvent::End), WalkAction::Done(Ok(())));
    let m = w.measurement();
    assert_eq!((m.size_bytes, m.file_count, m.skipped_items), (7, 1, 1));
}

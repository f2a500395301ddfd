//! The decisions of a cleanup walk as a state machine. A walk measures or
//! empties one target folder: given what reading, opening, measuring or
//! deleting the last entry came to, it says what to do next. Doing each step
//! is file-system I/O outside the library; folders are named by the ids the
//! caller gives them (the target folder's id when the walk starts, a child's
//! id when it is opened).
//!
//! Folders are visited depth first. When emptying, a folder is removed only
//! after all of its children, and the target folder itself is never removed.
use vstd::prelude::*;
use crate::cleanup::{admits_directory, classify_entry, entry_class, enumeration_failure, sat_add, CleanOutcome, DirectoryMeasurement, EntryClass, MAX_PENDING_DIRECTORIES};

verus! {

/// A folder still to visit: its id, whether it is the target folder, and
/// whether its children are done (then only the folder itself is removed).
#[derive(Clone, Copy, PartialEq, Eq, Structural)]
pub struct PendingDir {
    pub dir: usize,
    pub is_root: bool,
    pub after_children: bool,
}

/// What the walk waits to hear about.
#[derive(Clone, Copy, PartialEq, Eq, Structural)]
pub enum Awaiting {
    /// The next entry of the folder being read.
    Entry,
    /// Opening a child folder.
    DirOpen,
    /// Measuring or deleting a file.
    FileDone,
    /// Removing an emptied folder.
    DirRemoved,
    /// Nothing: the walk is over.
    Nothing,
}

/// The folder being read: the child folders found so far wait in
/// `children` until it is read to the end.
pub struct Reading {
    pub dir: usize,
    pub is_root: bool,
    pub enumerated_any: bool,
    pub children: Vec<usize>,
}

/// What the caller is to do next.
#[derive(Debug, PartialEq, Eq)]
pub enum WalkAction {
    /// Read the next entry of folder `dir` (from its start when `restart`).
    Read { dir: usize, restart: bool },
    /// Open child folder `name` of `dir` without following links.
    OpenDir { dir: usize, name: Vec<u16> },
    /// Open file `name` of `dir` and read its length.
    MeasureFile { dir: usize, name: Vec<u16> },
    /// Open file `name` of `dir`, read its length, and delete it.
    DeleteFile { dir: usize, name: Vec<u16> },
    /// Remove the emptied folder `dir`.
    RemoveDir { dir: usize },
    /// The walk is over: `Err` with the reason it failed.
    Done(Result<(), String>),
}

/// What the last step came to.
pub enum WalkEvent {
    /// The next entry: its name and attribute word.
    Entry { name: Vec<u16>, attributes: u32 },
    /// The folder has no more entries.
    End,
    /// Reading the folder failed (the error's text).
    ReadFailed(String),
    /// The child folder was opened and is a real folder; its id.
    Opened(usize),
    /// The entry no longer exists.
    Missing,
    /// The step could not be done (in use, protected, or not what it was).
    Failed,
    /// The file's length.
    Length(u64),
    /// The file was deleted; its length.
    Deleted(u64),
    /// The folder was removed.
    Removed,
}

/// A walk over one target folder.
pub struct CleanupWalk {
    deleting: bool,
    pending: Vec<PendingDir>,
    current: Option<Reading>,
    awaiting: Awaiting,
    measurement: DirectoryMeasurement,
    outcome: CleanOutcome,
}

// ---------------------------------------------------------------------------
// The walk as plain values
// ---------------------------------------------------------------------------

pub struct ReadingView {
    pub dir: usize,
    pub is_root: bool,
    pub enumerated_any: bool,
    pub children: Seq<usize>,
}

/// The tallies: `(size_bytes, file_count)` measured or `(freed_bytes,
/// deleted_files)` deleted, and the items skipped.
#[verifier::ext_equal]
pub struct WalkView {
    pub deleting: bool,
    pub pending: Seq<PendingDir>,
    pub current: Option<ReadingView>,
    pub awaiting: Awaiting,
    pub bytes: u64,
    pub files: u64,
    pub skipped: u64,
}

pub enum ActionView {
    Read(usize, bool),
    OpenDir(usize, Seq<u16>),
    MeasureFile(usize, Seq<u16>),
    DeleteFile(usize, Seq<u16>),
    RemoveDir(usize),
    Done(Result<(), Seq<char>>),
}

pub enum EventView {
    Entry(Seq<u16>, u32),
    End,
    ReadFailed(Seq<char>),
    Opened(usize),
    Missing,
    Failed,
    Length(u64),
    Deleted(u64),
    Removed,
}

impl View for CleanupWalk {
    type V = WalkView;

    closed spec fn view(&self) -> WalkView {
        WalkView {
            deleting: self.deleting,
            pending: self.pending@,
            current: match &self.current {
                Some(r) => Some(
                    ReadingView {
                        dir: r.dir,
                        is_root: r.is_root,
                        enumerated_any: r.enumerated_any,
                        children: r.children@,
                    },
                ),
                None => None,
            },
            awaiting: self.awaiting,
            bytes: if self.deleting {
                self.outcome.freed_bytes
            } else {
                self.measurement.size_bytes
            },
            files: if self.deleting {
                self.outcome.deleted_files
            } else {
                self.measurement.file_count
            },
            skipped: if self.deleting {
                self.outcome.skipped_items
            } else {
                self.measurement.skipped_items
            },
        }
    }
}

impl View for WalkAction {
    type V = ActionView;

    open spec fn view(&self) -> ActionView {
        match self {
            WalkAction::Read { dir, restart } => ActionView::Read(*dir, *restart),
            WalkAction::OpenDir { dir, name } => ActionView::OpenDir(*dir, name@),
            WalkAction::MeasureFile { dir, name } => ActionView::MeasureFile(*dir, name@),
            WalkAction::DeleteFile { dir, name } => ActionView::DeleteFile(*dir, name@),
            WalkAction::RemoveDir { dir } => ActionView::RemoveDir(*dir),
            WalkAction::Done(r) => ActionView::Done(
                match r {
                    Ok(()) => Ok(()),
                    Err(m) => Err(m@),
                },
            ),
        }
    }
}

impl View for WalkEvent {
    type V = EventView;

    open spec fn view(&self) -> EventView {
        match self {
            WalkEvent::Entry { name, attributes } => EventView::Entry(name@, *attributes),
            WalkEvent::End => EventView::End,
            WalkEvent::ReadFailed(m) => EventView::ReadFailed(m@),
            WalkEvent::Opened(d) => EventView::Opened(*d),
            WalkEvent::Missing => EventView::Missing,
            WalkEvent::Failed => EventView::Failed,
            WalkEvent::Length(n) => EventView::Length(*n),
            WalkEvent::Deleted(n) => EventView::Deleted(*n),
            WalkEvent::Removed => EventView::Removed,
        }
    }
}

/// Only child folders wait to be removed, and only while emptying.
pub open spec fn pending_ok(s: WalkView) -> bool {
    forall|i: int|
        0 <= i < s.pending.len() ==> (#[trigger] s.pending[i]).after_children ==> s.deleting
            && !s.pending[i].is_root
}

/// A well-formed walk: its stack is well formed, and the folder being read
/// is known exactly while an entry, an open or a file is awaited.
pub open spec fn walk_wf(s: WalkView) -> bool {
    &&& pending_ok(s)
    &&& (s.awaiting == Awaiting::Entry || s.awaiting == Awaiting::DirOpen || s.awaiting
        == Awaiting::FileDone) <==> s.current is Some
}

/// One more item left alone.
pub open spec fn skip_one(s: WalkView) -> WalkView {
    WalkView { skipped: sat_add(s.skipped, 1), ..s }
}

/// The next folder off the stack: an emptied child is removed, any other
/// folder is read from its start; with none left the walk is over.
pub open spec fn advance(s: WalkView) -> (WalkView, ActionView) {
    if s.pending.len() == 0 {
        (WalkView { current: None, awaiting: Awaiting::Nothing, ..s }, ActionView::Done(Ok(())))
    } else {
        let p = s.pending.last();
        let rest = s.pending.drop_last();
        if p.after_children {
            (
                WalkView { pending: rest, current: None, awaiting: Awaiting::DirRemoved, ..s },
                ActionView::RemoveDir(p.dir),
            )
        } else {
            (
                WalkView {
                    pending: rest,
                    current: Some(
                        ReadingView {
                            dir: p.dir,
                            is_root: p.is_root,
                            enumerated_any: false,
                            children: Seq::empty(),
                        },
                    ),
                    awaiting: Awaiting::Entry,
                    ..s
                },
                ActionView::Read(p.dir, true),
            )
        }
    }
}

pub open spec fn child_pending(c: usize) -> PendingDir {
    PendingDir { dir: c, is_root: false, after_children: false }
}

/// The folder read to its end: when emptying, a child folder waits to be
/// removed after its children; the children found wait above it, in the
/// order they were found (the last found is read first).
pub open spec fn close_current(s: WalkView, r: ReadingView) -> WalkView {
    let marker: Seq<PendingDir> = if s.deleting && !r.is_root {
        seq![PendingDir { dir: r.dir, is_root: false, after_children: true }]
    } else {
        Seq::empty()
    };
    WalkView {
        pending: s.pending + marker + r.children.map_values(|c: usize| child_pending(c)),
        current: None,
        ..s
    }
}

/// Whether the walk can take event `e` now.
pub open spec fn accepts(s: WalkView, e: EventView) -> bool {
    match s.awaiting {
        Awaiting::Entry => s.current is Some && (e is Entry || e is End || e is ReadFailed),
        Awaiting::DirOpen => s.current is Some && (e is Opened || e is Missing || e is Failed),
        Awaiting::FileDone => s.current is Some && (e is Missing || e is Failed || (!s.deleting
            && e is Length) || (s.deleting && e is Deleted)),
        Awaiting::DirRemoved => e is Removed || e is Failed,
        Awaiting::Nothing => false,
    }
}

/// Read on in the current folder.
pub open spec fn read_on(s: WalkView, r: ReadingView) -> (WalkView, ActionView) {
    (WalkView { current: Some(r), awaiting: Awaiting::Entry, ..s }, ActionView::Read(r.dir, false))
}

/// The walk after event `e`, and what to do next.
pub open spec fn walk_next(s: WalkView, e: EventView) -> (WalkView, ActionView) {
    match s.current {
        None => match e {
            EventView::Failed => advance(skip_one(s)),
            _ => advance(s),
        },
        Some(r) => match e {
            EventView::Entry(name, attributes) => {
                let r1 = ReadingView { enumerated_any: true, ..r };
                match entry_class(name, attributes) {
                    EntryClass::Ignore => read_on(s, r1),
                    EntryClass::Skip => read_on(skip_one(s), r1),
                    EntryClass::Directory => (
                        WalkView { current: Some(r1), awaiting: Awaiting::DirOpen, ..s },
                        ActionView::OpenDir(r.dir, name),
                    ),
                    EntryClass::File => (
                        WalkView { current: Some(r1), awaiting: Awaiting::FileDone, ..s },
                        if s.deleting {
                            ActionView::DeleteFile(r.dir, name)
                        } else {
                            ActionView::MeasureFile(r.dir, name)
                        },
                    ),
                }
            },
            EventView::End => advance(close_current(s, r)),
            EventView::ReadFailed(m) => if r.is_root && !r.enumerated_any {
                (
                    WalkView { current: None, awaiting: Awaiting::Nothing, ..s },
                    ActionView::Done(Err("Could not enumerate cleanup folder: "@ + m)),
                )
            } else {
                advance(close_current(skip_one(s), r))
            },
            EventView::Opened(c) => if s.pending.len() + r.children.len() < MAX_PENDING_DIRECTORIES {
                read_on(s, ReadingView { children: r.children.push(c), ..r })
            } else {
                read_on(skip_one(s), r)
            },
            EventView::Missing => read_on(s, r),
            EventView::Failed => read_on(skip_one(s), r),
            EventView::Length(n) => read_on(
                WalkView { bytes: sat_add(s.bytes, n), files: sat_add(s.files, 1), ..s },
                r,
            ),
            EventView::Deleted(n) => read_on(
                WalkView { bytes: sat_add(s.bytes, n), files: sat_add(s.files, 1), ..s },
                r,
            ),
            EventView::Removed => read_on(s, r),
        },
    }
}

// ---------------------------------------------------------------------------
// The walk
// ---------------------------------------------------------------------------

impl CleanupWalk {
    /// A walk over the target folder `root`: emptying it when `deleting`,
    /// else measuring it. Its first step is to read the folder.
    pub fn start(root: usize, deleting: bool) -> (r: (CleanupWalk, WalkAction))
        ensures
            r.0@ == (WalkView {
                deleting,
                pending: Seq::empty(),
                current: Some(
                    ReadingView { dir: root, is_root: true, enumerated_any: false, children: Seq::empty() },
                ),
                awaiting: Awaiting::Entry,
                bytes: 0,
                files: 0,
                skipped: 0,
            }),
            r.1@ == ActionView::Read(root, true),
            walk_wf(r.0@),
    {
        let w = CleanupWalk {
            deleting,
            pending: Vec::new(),
            current: Some(Reading { dir: root, is_root: true, enumerated_any: false, children: Vec::new() }),
            awaiting: Awaiting::Entry,
            measurement: DirectoryMeasurement::empty(),
            outcome: CleanOutcome::empty(false),
        };
        proof {
            assert(w@ =~= (WalkView {
                deleting,
                pending: Seq::empty(),
                current: Some(
                    ReadingView { dir: root, is_root: true, enumerated_any: false, children: Seq::empty() },
                ),
                awaiting: Awaiting::Entry,
                bytes: 0,
                files: 0,
                skipped: 0,
            }));
        }
        (w, WalkAction::Read { dir: root, restart: true })
    }

    /// Whether the walk can take `e` now.
    pub fn accepts(&self, e: &WalkEvent) -> (r: bool)
        ensures
            r == accepts(self@, e@),
    {
        match self.awaiting {
            Awaiting::Entry => self.current.is_some() && match e {
                WalkEvent::Entry { .. } | WalkEvent::End | WalkEvent::ReadFailed(_) => true,
                _ => false,
            },
            Awaiting::DirOpen => self.current.is_some() && match e {
                WalkEvent::Opened(_) | WalkEvent::Missing | WalkEvent::Failed => true,
                _ => false,
            },
            Awaiting::FileDone => self.current.is_some() && match e {
                WalkEvent::Missing | WalkEvent::Failed => true,
                WalkEvent::Length(_) => !self.deleting,
                WalkEvent::Deleted(_) => self.deleting,
                _ => false,
            },
            Awaiting::DirRemoved => match e {
                WalkEvent::Removed | WalkEvent::Failed => true,
                _ => false,
            },
            Awaiting::Nothing => false,
        }
    }

    /// The totals measured so far.
    pub fn measurement(&self) -> (r: DirectoryMeasurement)
        ensures
            !self@.deleting ==> r.size_bytes == self@.bytes && r.file_count == self@.files
                && r.skipped_items == self@.skipped,
    {
        DirectoryMeasurement {
            size_bytes: self.measurement.size_bytes,
            file_count: self.measurement.file_count,
            skipped_items: self.measurement.skipped_items,
        }
    }

    /// What emptying has come to so far.
    pub fn outcome(&self) -> (r: CleanOutcome)
        ensures
            self@.deleting ==> r.freed_bytes == self@.bytes && r.deleted_files == self@.files
                && r.skipped_items == self@.skipped && !r.root_missing,
    {
        CleanOutcome {
            freed_bytes: self.outcome.freed_bytes,
            deleted_files: self.outcome.deleted_files,
            skipped_items: self.outcome.skipped_items,
            root_missing: false,
        }
    }

    fn skip(&mut self)
        ensures
            final(self)@ == skip_one(old(self)@),
    {
        if self.deleting {
            self.outcome.add_skipped();
        } else {
            self.measurement.add_skipped();
        }
        proof {
            assert(final(self)@ =~= skip_one(old(self)@));
        }
    }

    fn advance(&mut self) -> (a: WalkAction)
        requires
            pending_ok(old(self)@),
        ensures
            (final(self)@, a@) == advance(old(self)@),
            walk_wf(final(self)@),
    {
        let ghost s = self@;
        match self.pending.pop() {
            None => {
                self.current = None;
                self.awaiting = Awaiting::Nothing;
                proof {
                    assert(self@ =~= advance(s).0);
                }
                WalkAction::Done(Ok(()))
            },
            Some(p) => {
                proof {
                    assert(s.pending.drop_last() =~= self.pending@);
                }
                if p.after_children {
                    self.current = None;
                    self.awaiting = Awaiting::DirRemoved;
                    proof {
                        assert(self@ =~= advance(s).0);
                    }
                    WalkAction::RemoveDir { dir: p.dir }
                } else {
                    self.current = Some(
                        Reading { dir: p.dir, is_root: p.is_root, enumerated_any: false, children: Vec::new() },
                    );
                    self.awaiting = Awaiting::Entry;
                    proof {
                        assert(self@ =~= advance(s).0);
                    }
                    WalkAction::Read { dir: p.dir, restart: true }
                }
            },
        }
    }

    /// Move the folder being read off: its removal marker (when emptying a
    /// child) and its children go onto the stack.
    fn close_current(&mut self, r: Reading)
        requires
            old(self)@.current is None,
            pending_ok(old(self)@),
        ensures
            final(self)@ == close_current(
                old(self)@,
                ReadingView {
                    dir: r.dir,
                    is_root: r.is_root,
                    enumerated_any: r.enumerated_any,
                    children: r.children@,
                },
            ),
            pending_ok(final(self)@),
    {
        let ghost s = self@;
        let ghost rv = ReadingView {
            dir: r.dir,
            is_root: r.is_root,
            enumerated_any: r.enumerated_any,
            children: r.children@,
        };
        if self.deleting && !r.is_root {
            self.pending.push(PendingDir { dir: r.dir, is_root: false, after_children: true });
        }
        let ghost base = self.pending@;
        let ghost m0 = self.measurement;
        let ghost o0 = self.outcome;
        let mut i: usize = 0;
        while i < r.children.len()
            invariant
                i <= r.children@.len(),
                self.current is None,
                self.deleting == s.deleting,
                self.awaiting == s.awaiting,
                self.measurement == m0,
                self.outcome == o0,
                m0.size_bytes == old(self).measurement.size_bytes,
                m0.file_count == old(self).measurement.file_count,
                m0.skipped_items == old(self).measurement.skipped_items,
                o0.freed_bytes == old(self).outcome.freed_bytes,
                o0.deleted_files == old(self).outcome.deleted_files,
                o0.skipped_items == old(self).outcome.skipped_items,
                self.pending@ == base + r.children@.take(i as int).map_values(
                    |c: usize| child_pending(c),
                ),
            decreases r.children.len() - i,
        {
            self.pending.push(PendingDir { dir: r.children[i], is_root: false, after_children: false });
            proof {
                assert(r.children@.take(i + 1).map_values(|c: usize| child_pending(c))
                    =~= r.children@.take(i as int).map_values(|c: usize| child_pending(c)).push(
                    child_pending(r.children@[i as int]),
                ));
            }
            i = i + 1;
        }
        proof {
            assert(r.children@.take(i as int) =~= r.children@);
            let marker: Seq<PendingDir> = if s.deleting && !r.is_root {
                seq![PendingDir { dir: r.dir, is_root: false, after_children: true }]
            } else {
                Seq::empty()
            };
            assert(self.pending@ =~= s.pending + marker + r.children@.map_values(
                |c: usize| child_pending(c),
            ));
            assert(self@ =~= close_current(s, rv));
            assert forall|k: int| 0 <= k < self@.pending.len() implies (#[trigger] self@.pending[k]).after_children
                ==> self@.deleting && !self@.pending[k].is_root by {
                if k < s.pending.len() {
                    assert(self@.pending[k] == s.pending[k]);
                } else if k < s.pending.len() + marker.len() {
                    assert(self@.pending[k] == marker[k - s.pending.len()]);
                } else {
                    assert(self@.pending[k] == child_pending(
                        r.children@[k - s.pending.len() - marker.len()],
                    ));
                }
            }
        }
    }

    /// Take the outcome of the last step and say what to do next.
    #[verifier::rlimit(40)]
    pub fn step(&mut self, e: WalkEvent) -> (a: WalkAction)
        requires
            walk_wf(old(self)@),
            accepts(old(self)@, e@),
        ensures
            (final(self)@, a@) == walk_next(old(self)@, e@),
            walk_wf(final(self)@),
    {
        let ghost s = self@;
        let ghost ev = e@;
        match self.current.take() {
            None => {
                match e {
                    WalkEvent::Failed => {
                        self.skip();
                    },
                    _ => {},
                }
                proof {
                    assert(self@ =~= (match ev {
                        EventView::Failed => skip_one(s),
                        _ => s,
                    }));
                }
                self.advance()
            },
            Some(mut r) => {
                let ghost rv = s.current->0;
                match e {
                    WalkEvent::Entry { name, attributes } => {
                        r.enumerated_any = true;
                        let dir = r.dir;
                        let class = classify_entry(name.as_slice(), attributes);
                        match class {
                            EntryClass::Ignore => {
                                self.current = Some(r);
                                self.awaiting = Awaiting::Entry;
                                proof {
                                    assert(self@ =~= walk_next(s, ev).0);
                                }
                                WalkAction::Read { dir, restart: false }
                            },
                            EntryClass::Skip => {
                                self.skip();
                                self.current = Some(r);
                                self.awaiting = Awaiting::Entry;
                                proof {
                                    assert(self@ =~= walk_next(s, ev).0);
                                }
                                WalkAction::Read { dir, restart: false }
                            },
                            EntryClass::Directory => {
                                self.current = Some(r);
                                self.awaiting = Awaiting::DirOpen;
                                proof {
                                    assert(self@ =~= walk_next(s, ev).0);
                                }
                                WalkAction::OpenDir { dir, name }
                            },
                            EntryClass::File => {
                                self.current = Some(r);
                                self.awaiting = Awaiting::FileDone;
                                proof {
                                    assert(self@ =~= walk_next(s, ev).0);
                                }
                                if self.deleting {
                                    WalkAction::DeleteFile { dir, name }
                                } else {
                                    WalkAction::MeasureFile { dir, name }
                                }
                            },
                        }
                    },
                    WalkEvent::End => {
                        self.close_current(r);
                        self.advance()
                    },
                    WalkEvent::ReadFailed(m) => {
                        match enumeration_failure(r.is_root, r.enumerated_any, m.as_str()) {
                            Some(msg) => {
                                self.awaiting = Awaiting::Nothing;
                                proof {
                                    assert(self@ =~= walk_next(s, ev).0);
                                }
                                WalkAction::Done(Err(msg))
                            },
                            None => {
                                self.skip();
                                self.close_current(r);
                                self.advance()
                            },
                        }
                    },
                    WalkEvent::Opened(c) => {
                        if admits_directory(self.pending.len(), r.children.len()) {
                            r.children.push(c);
                        } else {
                            self.skip();
                        }
                        let dir = r.dir;
                        self.current = Some(r);
                        self.awaiting = Awaiting::Entry;
                        proof {
                            assert(self@ =~= walk_next(s, ev).0);
                        }
                        WalkAction::Read { dir, restart: false }
                    },
                    WalkEvent::Failed => {
                        self.skip();
                        let dir = r.dir;
                        self.current = Some(r);
                        self.awaiting = Awaiting::Entry;
                        proof {
                            assert(self@ =~= walk_next(s, ev).0);
                        }
                        WalkAction::Read { dir, restart: false }
                    },
                    WalkEvent::Length(n) | WalkEvent::Deleted(n) => {
                        if self.deleting {
                            self.outcome.add_deleted(n);
                        } else {
                            self.measurement.add_file(n);
                        }
                        let dir = r.dir;
                        self.current = Some(r);
                        self.awaiting = Awaiting::Entry;
                        proof {
                            assert(self@ =~= walk_next(s, ev).0);
                        }
                        WalkAction::Read { dir, restart: false }
                    },
                    WalkEvent::Missing | WalkEvent::Removed => {
                        let dir = r.dir;
                        self.current = Some(r);
                        self.awaiting = Awaiting::Entry;
                        proof {
                            assert(self@ =~= walk_next(s, ev).0);
                        }
                        WalkAction::Read { dir, restart: false }
                    },
                }
            },
        }
    }
}

/// Emptying removes a folder only once it was read to its end as a child
/// folder: every removal the walk asks for names a folder waiting with its
/// children done, or the child folder just read to its end; the target
/// folder itself is never removed, and measuring removes nothing.
pub proof fn the_target_folder_is_never_removed(s: WalkView, e: EventView)
    requires
        walk_wf(s),
        accepts(s, e),
    ensures
        walk_next(s, e).1 matches ActionView::RemoveDir(d) ==> s.deleting && ((exists|i: int|
            0 <= i < s.pending.len() && (#[trigger] s.pending[i]).dir == d
                && s.pending[i].after_children && !s.pending[i].is_root) || (s.current matches Some(
            r,
        ) && r.dir == d && !r.is_root)),
{
    let a = walk_next(s, e).1;
    if a matches ActionView::RemoveDir(d) {
        match s.current {
            None => {
                let s1 = match e {
                    EventView::Failed => skip_one(s),
                    _ => s,
                };
                assert(s1.pending == s.pending);
                let k = s.pending.len() - 1;
                assert(s.pending.last() == s.pending[k]);
            },
            Some(r) => {
                let s1 = match e {
                    EventView::ReadFailed(_) => skip_one(s),
                    _ => s,
                };
                let c = close_current(s1, r);
                let marker: Seq<PendingDir> = if s.deleting && !r.is_root {
                    seq![PendingDir { dir: r.dir, is_root: false, after_children: true }]
                } else {
                    Seq::empty()
                };
                let kids = r.children.map_values(|x: usize| child_pending(x));
                assert(c.pending == s.pending + marker + kids);
                let k = c.pending.len() - 1;
                assert(c.pending.last() == c.pending[k]);
                if kids.len() > 0 {
                    assert(c.pending[k] == kids[kids.len() - 1]);
                } else if marker.len() > 0 {
                    assert(c.pending[k] == marker[0]);
                } else {
                    assert(c.pending[k] == s.pending[k]);
                }
            },
        }
    }
}

} // verus!

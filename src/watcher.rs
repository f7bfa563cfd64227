//! The decisions of a zone's watch loop: which directories to watch, and how
//! notifications are coalesced over a fixed window before a reconciliation.

use vstd::prelude::*;

use crate::changes::{
    contains_path, distinct_paths, join, lemma_path_set_push, path_set, ChangeSet, Changes,
};
use crate::event_analyzer::{analyze_event, classify, Event};

verus! {

/// The parent directory of a path, as `Path::parent` gives it.
pub uninterp spec fn parent_of(p: Seq<char>) -> Option<Seq<char>>;

/// Whether a path starts with a base path by whole components, as
/// `Path::starts_with` decides it.
pub uninterp spec fn starts_with_path(p: Seq<char>, base: Seq<char>) -> bool;

/// Relies on std::path::Path::parent: the parent directory of a path, which
/// depends on the path alone, or none for a root or empty path. The parent
/// of a path given as a `str` is a prefix of it, so it is valid UTF-8.
#[verifier::external_body]
fn parent_dir(p: &String) -> (r: Option<String>)
    ensures
        match r {
            Option::Some(d) => parent_of(p@) == Option::Some(d@),
            Option::None => parent_of(p@) is None,
        },
{
    match std::path::Path::new(p.as_str()).parent() {
        Some(d) => match d.to_str() {
            Some(s) => Some(s.to_string()),
            None => None,
        },
        None => None,
    }
}

/// Relies on std::path::Path::starts_with: whether `base` is a prefix of
/// `p` by whole components, which depends on the two paths alone.
#[verifier::external_body]
fn path_starts_with(p: &String, base: &String) -> (r: bool)
    ensures
        r == starts_with_path(p@, base@),
{
    std::path::Path::new(p.as_str()).starts_with(base.as_str())
}

/// Why the directories to watch could not be found.
#[derive(Clone, Debug, PartialEq, Eq)]
pub enum WatchSetupError {
    NoParentDir { path: String },
}

/// The directories to watch for the includes: their parent directories,
/// except those under `nix_dir`, whose files never change.
pub open spec fn watched_dirs(includes: Seq<String>, nix_dir: Seq<char>) -> Set<Seq<char>> {
    Set::new(
        |d: Seq<char>|
            exists|i: int|
                0 <= i < includes.len() && parent_of((#[trigger] includes[i])@) == Option::Some(d)
                    && !starts_with_path(d, nix_dir),
    )
}

/// The parent directories of the includes that are not under `nix_dir`,
/// each once; fails with the first include that has no parent directory.
pub fn dirs_to_watch(includes: &Vec<String>, nix_dir: &String) -> (r: Result<
    Vec<String>,
    WatchSetupError,
>)
    ensures
        match r {
            Ok(dirs) => distinct_paths(dirs@) && path_set(dirs@) == watched_dirs(includes@, nix_dir@)
                && forall|i: int| 0 <= i < includes@.len() ==> (#[trigger] parent_of(includes@[i]@)) is Some,
            Err(WatchSetupError::NoParentDir { path }) => exists|i: int|
                0 <= i < includes@.len() && path == includes@[i] && parent_of(includes@[i]@) is None
                    && forall|j: int| 0 <= j < i ==> (#[trigger] parent_of(includes@[j]@)) is Some,
        },
{
    let mut dirs: Vec<String> = Vec::new();
    let mut i: usize = 0;
    assert(path_set(dirs@) =~= watched_dirs(includes@.subrange(0, 0), nix_dir@));
    while i < includes.len()
        invariant
            0 <= i <= includes@.len(),
            distinct_paths(dirs@),
            path_set(dirs@) == watched_dirs(includes@.subrange(0, i as int), nix_dir@),
            forall|j: int| 0 <= j < i ==> (#[trigger] parent_of(includes@[j]@)) is Some,
        decreases includes@.len() - i,
    {
        let ghost pre = includes@.subrange(0, i as int);
        let ghost next = includes@.subrange(0, i + 1);
        match parent_dir(&includes[i]) {
            Option::None => {
                return Err(WatchSetupError::NoParentDir { path: includes[i].clone() });
            },
            Option::Some(d) => {
                let ghost before = dirs@;
                let keep = !path_starts_with(&d, nix_dir) && !contains_path(&dirs, &d);
                if keep {
                    proof {
                        lemma_path_set_push(before, d);
                    }
                    dirs.push(d);
                    assert forall|a: int, b: int|
                        0 <= a < dirs@.len() && 0 <= b < dirs@.len() && a != b implies (
                        #[trigger] dirs@[a])@ != (#[trigger] dirs@[b])@ by {
                        if a < before.len() && b < before.len() {
                            assert(dirs@[a] == before[a] && dirs@[b] == before[b]);
                        } else if a < before.len() {
                            assert(dirs@[a] == before[a]);
                            assert(path_set(before).contains(before[a]@));
                        } else if b < before.len() {
                            assert(dirs@[b] == before[b]);
                            assert(path_set(before).contains(before[b]@));
                        }
                    }
                }
                assert forall|x: Seq<char>|
                    path_set(dirs@).contains(x) == watched_dirs(next, nix_dir@).contains(x) by {
                    if watched_dirs(pre, nix_dir@).contains(x) {
                        let j = choose|j: int|
                            0 <= j < pre.len() && parent_of((#[trigger] pre[j])@) == Option::Some(x)
                                && !starts_with_path(x, nix_dir@);
                        assert(next[j] == pre[j]);
                    }
                    if watched_dirs(next, nix_dir@).contains(x) {
                        let j = choose|j: int|
                            0 <= j < next.len() && parent_of((#[trigger] next[j])@) == Option::Some(x)
                                && !starts_with_path(x, nix_dir@);
                        if j < i {
                            assert(next[j] == pre[j]);
                        } else {
                            assert(next[j] == includes@[i as int]);
                        }
                    }
                    if x == d@ && !starts_with_path(x, nix_dir@) {
                        assert(next[i as int] == includes@[i as int]);
                    }
                }
                assert(path_set(dirs@) =~= watched_dirs(next, nix_dir@));
            },
        }
        i += 1;
    }
    assert(includes@.subrange(0, includes@.len() as int) =~= includes@);
    Ok(dirs)
}

/// The change set after one more notification, or after none when the
/// channel of notifications is closed.
pub fn detect_change(includes: &Vec<String>, res: Option<Event>, changes: Changes) -> (r: Changes)
    requires
        changes.wf(),
    ensures
        r.wf(),
        r@ == match res {
            Option::Some(e) => join(
                changes@,
                classify(path_set(includes@), e.kind, path_set(e.paths@), e.need_rescan),
            ),
            Option::None => changes@,
        },
{
    match res {
        Option::Some(event) => {
            let new_changes = analyze_event("", includes, event);
            changes.union(new_changes)
        },
        Option::None => changes,
    }
}

/// Where a zone's watch loop stands.
#[derive(Clone, Copy, Debug, PartialEq, Eq)]
pub enum Phase {
    WaitingForFirstEvent,
    CollectingWindow,
}

/// What the watch loop does next.
#[derive(Debug, PartialEq, Eq)]
pub enum Step {
    /// Keep receiving notifications.
    Idle,
    /// A change was seen: set the deadline of the window, a fixed time from
    /// now, and keep receiving notifications until it passes.
    OpenWindow,
    /// The window closed: reconcile with these changes, without forcing.
    Reconcile(Changes),
}

/// The state of a zone's watch loop: its phase and the changes collected in
/// the current window.
#[derive(Debug, PartialEq, Eq)]
pub struct Coalescer {
    pub phase: Phase,
    pub changes: Changes,
}

impl Coalescer {
    /// Nothing is collected while waiting for a first change, and something
    /// always is while a window is open.
    pub open spec fn wf(&self) -> bool {
        &&& self.changes.wf()
        &&& self.phase == Phase::WaitingForFirstEvent ==> self.changes@ == ChangeSet::Unchanged
        &&& self.phase == Phase::CollectingWindow ==> self.changes@ != ChangeSet::Unchanged
    }

    /// A loop waiting for its first change.
    pub fn new() -> (r: Coalescer)
        ensures
            r.wf(),
            r.phase == Phase::WaitingForFirstEvent,
    {
        Coalescer { phase: Phase::WaitingForFirstEvent, changes: Changes::Nothing }
    }

    /// Takes in a notification (`None` when the channel is closed). While
    /// waiting, a notification that changes nothing is dropped, and a first
    /// change opens the window; while the window is open, every notification
    /// is joined into the collected changes and the deadline stays as it was.
    pub fn on_event(&mut self, includes: &Vec<String>, res: Option<Event>) -> (step: Step)
        requires
            old(self).wf(),
        ensures
            final(self).wf(),
            ({
                let c = match res {
                    Option::Some(e) => join(
                        old(self).changes@,
                        classify(path_set(includes@), e.kind, path_set(e.paths@), e.need_rescan),
                    ),
                    Option::None => old(self).changes@,
                };
                if old(self).phase == Phase::WaitingForFirstEvent && c == ChangeSet::Unchanged {
                    final(self).phase == Phase::WaitingForFirstEvent && step == Step::Idle
                } else if old(self).phase == Phase::WaitingForFirstEvent {
                    final(self).phase == Phase::CollectingWindow && final(self).changes@ == c
                        && step == Step::OpenWindow
                } else {
                    final(self).phase == Phase::CollectingWindow && final(self).changes@ == c
                        && step == Step::Idle
                }
            }),
    {
        let mut current = Changes::Nothing;
        std::mem::swap(&mut current, &mut self.changes);
        let updated = detect_change(includes, res, current);
        match self.phase {
            Phase::WaitingForFirstEvent => {
                match updated {
                    Changes::Nothing => {
                        self.changes = Changes::Nothing;
                        Step::Idle
                    },
                    _ => {
                        self.changes = updated;
                        self.phase = Phase::CollectingWindow;
                        Step::OpenWindow
                    },
                }
            },
            Phase::CollectingWindow => {
                self.changes = updated;
                Step::Idle
            },
        }
    }

    /// The deadline of the window passed: hands out the collected changes,
    /// never `Nothing`, and waits for a first change again. While waiting,
    /// does nothing.
    pub fn on_deadline(&mut self) -> (step: Step)
        requires
            old(self).wf(),
        ensures
            final(self).wf(),
            final(self).phase == Phase::WaitingForFirstEvent,
            old(self).phase == Phase::WaitingForFirstEvent ==> step == Step::Idle,
            old(self).phase == Phase::CollectingWindow ==> (step matches Step::Reconcile(c) && c.wf()
                && c@ == old(self).changes@ && c@ != ChangeSet::Unchanged),
    {
        match self.phase {
            Phase::WaitingForFirstEvent => Step::Idle,
            Phase::CollectingWindow => {
                let mut c = Changes::Nothing;
                std::mem::swap(&mut c, &mut self.changes);
                self.phase = Phase::WaitingForFirstEvent;
                Step::Reconcile(c)
            },
        }
    }
}

} // verus!

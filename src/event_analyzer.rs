//! Classification of file-system notifications into change sets.

use vstd::prelude::*;

use crate::changes::{contains_path, distinct_paths, intersect_changes, lemma_path_set_empty,
    lemma_path_set_prefix, lemma_path_set_push, path_set, ChangeSet, Changes};

verus! {

use UncertainModification::{MaybeModified, NotModified};

#[derive(Clone, Copy, Debug, PartialEq, Eq)]
pub enum AccessMode {
    Any,
    Execute,
    Read,
    Write,
    Other,
}

#[derive(Clone, Copy, Debug, PartialEq, Eq)]
pub enum AccessKind {
    Any,
    Read,
    Open(AccessMode),
    Close(AccessMode),
    Other,
}

#[derive(Clone, Copy, Debug, PartialEq, Eq)]
pub enum CreateKind {
    Any,
    File,
    Folder,
    Other,
}

#[derive(Clone, Copy, Debug, PartialEq, Eq)]
pub enum DataChange {
    Any,
    Size,
    Content,
    Other,
}

#[derive(Clone, Copy, Debug, PartialEq, Eq)]
pub enum MetadataKind {
    Any,
    AccessTime,
    WriteTime,
    Permissions,
    Ownership,
    Extended,
    Other,
}

#[derive(Clone, Copy, Debug, PartialEq, Eq)]
pub enum RenameMode {
    Any,
    To,
    From,
    Both,
    Other,
}

#[derive(Clone, Copy, Debug, PartialEq, Eq)]
pub enum ModifyKind {
    Any,
    Data(DataChange),
    Metadata(MetadataKind),
    Name(RenameMode),
    Other,
}

#[derive(Clone, Copy, Debug, PartialEq, Eq)]
pub enum RemoveKind {
    Any,
    File,
    Folder,
    Other,
}

/// The kind of a file-system notification.
#[derive(Clone, Copy, Debug, PartialEq, Eq)]
pub enum EventKind {
    Any,
    Access(AccessKind),
    Create(CreateKind),
    Modify(ModifyKind),
    Remove(RemoveKind),
    Other,
}

/// A file-system notification: its kind, the paths it reports, and whether
/// the watch backend says that notifications may have been lost.
#[derive(Clone, Debug, PartialEq, Eq)]
pub struct Event {
    pub kind: EventKind,
    pub paths: Vec<String>,
    pub need_rescan: bool,
}

#[derive(Clone, Copy, Debug, PartialEq, Eq)]
pub enum UncertainModification {
    MaybeModified,
    NotModified,
}

/// Whether a notification of this kind may stand for a change of content:
/// not for pure accesses, for metadata changes other than permissions and
/// ownership, or for folders being created or removed; for all else, unknown
/// and generic kinds included.
pub open spec fn kind_may_modify(kind: EventKind) -> bool {
    match kind {
        EventKind::Any | EventKind::Other => true,
        EventKind::Access(_) => false,
        EventKind::Create(c) => !(c is Folder),
        EventKind::Modify(m) => match m {
            ModifyKind::Metadata(md) => md is Permissions || md is Ownership,
            _ => true,
        },
        EventKind::Remove(r) => !(r is Folder),
    }
}

/// The change set that a notification stands for, given the watched paths.
pub open spec fn classify(
    watched: Set<Seq<char>>,
    kind: EventKind,
    reported: Set<Seq<char>>,
    need_rescan: bool,
) -> ChangeSet {
    if need_rescan {
        ChangeSet::Rescan
    } else if kind_may_modify(kind) {
        intersect_changes(watched, reported)
    } else {
        ChangeSet::Unchanged
    }
}

/// Whether a notification of kind `kind` may stand for a change of content.
pub fn uncertain_modification(kind: &EventKind) -> (r: UncertainModification)
    ensures
        (r == UncertainModification::MaybeModified) == kind_may_modify(*kind),
{
    match kind {
        EventKind::Any | EventKind::Other => MaybeModified,
        EventKind::Access(v) => match v {
            AccessKind::Any
            | AccessKind::Read
            | AccessKind::Other
            | AccessKind::Open(_)
            | AccessKind::Close(_) => NotModified,
        },
        EventKind::Create(v) => match v {
            CreateKind::Any | CreateKind::File | CreateKind::Other => MaybeModified,
            CreateKind::Folder => NotModified,
        },
        EventKind::Modify(v) => match v {
            ModifyKind::Any | ModifyKind::Other => MaybeModified,
            ModifyKind::Data(d) => match d {
                DataChange::Any | DataChange::Size | DataChange::Content | DataChange::Other => {
                    MaybeModified
                },
            },
            ModifyKind::Metadata(md) => match md {
                MetadataKind::Any
                | MetadataKind::AccessTime
                | MetadataKind::WriteTime
                | MetadataKind::Extended
                | MetadataKind::Other => NotModified,
                MetadataKind::Permissions | MetadataKind::Ownership => MaybeModified,
            },
            ModifyKind::Name(rn) => match rn {
                RenameMode::Any
                | RenameMode::To
                | RenameMode::From
                | RenameMode::Both
                | RenameMode::Other => MaybeModified,
            },
        },
        EventKind::Remove(v) => match v {
            RemoveKind::Any | RemoveKind::File | RemoveKind::Other => MaybeModified,
            RemoveKind::Folder => NotModified,
        },
    }
}

/// The change set for the watched paths that the notification reports:
/// `Nothing` when there are none, else exactly those paths.
pub fn check_paths(zone_name: &str, zone_paths: &Vec<String>, event_paths: Vec<String>) -> (r:
    Changes)
    ensures
        r.wf(),
        r@ == intersect_changes(path_set(zone_paths@), path_set(event_paths@)),
{
    let mut found: Vec<String> = Vec::new();
    let mut i: usize = 0;
    assert(path_set(found@) =~= path_set(zone_paths@.subrange(0, 0)).intersect(
        path_set(event_paths@),
    ));
    while i < zone_paths.len()
        invariant
            0 <= i <= zone_paths.len(),
            distinct_paths(found@),
            path_set(found@) == path_set(zone_paths@.subrange(0, i as int)).intersect(
                path_set(event_paths@),
            ),
        decreases zone_paths.len() - i,
    {
        let p = &zone_paths[i];
        proof {
            lemma_path_set_prefix(zone_paths@, i as int);
        }
        if contains_path(&event_paths, p) && !contains_path(&found, p) {
            let ghost before = found@;
            proof {
                lemma_path_set_push(before, *p);
            }
            found.push(p.clone());
            assert forall|a: int, b: int|
                0 <= a < found@.len() && 0 <= b < found@.len() && a != b implies (
                #[trigger] found@[a])@ != (#[trigger] found@[b])@ by {
                if a < before.len() && b < before.len() {
                    assert(found@[a] == before[a] && found@[b] == before[b]);
                } else if a < before.len() {
                    assert(found@[a] == before[a]);
                    assert(path_set(before).contains(before[a]@));
                } else if b < before.len() {
                    assert(found@[b] == before[b]);
                    assert(path_set(before).contains(before[b]@));
                }
            }
        }
        assert(path_set(found@) =~= path_set(zone_paths@.subrange(0, i + 1)).intersect(
            path_set(event_paths@),
        ));
        i += 1;
    }
    assert(zone_paths@.subrange(0, zone_paths.len() as int) =~= zone_paths@);
    proof {
        lemma_path_set_empty(found@);
    }
    if found.len() == 0 {
        Changes::Nothing
    } else {
        Changes::Paths(found)
    }
}

/// Classifies a notification for a zone whose watched paths are
/// `zone_paths`: `All` when the backend may have lost notifications,
/// `Nothing` for kinds that cannot stand for a change of content, and else
/// the watched paths that it reports.
pub fn analyze_event(zone_name: &str, zone_paths: &Vec<String>, event: Event) -> (r: Changes)
    ensures
        r.wf(),
        r@ == classify(path_set(zone_paths@), event.kind, path_set(event.paths@), event.need_rescan),
{
    if event.need_rescan {
        return Changes::All;
    }
    match uncertain_modification(&event.kind) {
        MaybeModified => check_paths(zone_name, zone_paths, event.paths),
        NotModified => Changes::Nothing,
    }
}

/// A notification never yields a change set of no paths: an empty
/// intersection with the watched paths yields "nothing changed".
pub proof fn lemma_classify_never_empty_paths(
    watched: Set<Seq<char>>,
    kind: EventKind,
    reported: Set<Seq<char>>,
    need_rescan: bool,
)
    ensures
        classify(watched, kind, reported, need_rescan) != ChangeSet::Changed(Set::<Seq<char>>::empty()),
        !need_rescan && kind_may_modify(kind) && watched.intersect(reported) == Set::<Seq<char>>::empty()
            ==> classify(watched, kind, reported, need_rescan) == ChangeSet::Unchanged,
{
}

/// Classification is a function of the watched set and of the
/// notification's kind, reported set and rescan flag: the same notification
/// against the same watched set always gives the same change set, whatever
/// the order or repetition of the paths.
pub proof fn lemma_classify_deterministic(
    watched1: Seq<String>,
    watched2: Seq<String>,
    e1: Event,
    e2: Event,
)
    requires
        path_set(watched1) == path_set(watched2),
        e1.kind == e2.kind,
        path_set(e1.paths@) == path_set(e2.paths@),
        e1.need_rescan == e2.need_rescan,
    ensures
        classify(path_set(watched1), e1.kind, path_set(e1.paths@), e1.need_rescan) == classify(
            path_set(watched2),
            e2.kind,
            path_set(e2.paths@),
            e2.need_rescan,
        ),
{
}

impl Event {
    /// A notification of kind `kind` that reports no path.
    pub fn new(kind: EventKind) -> (r: Event)
        ensures
            r.kind == kind,
            r.paths@.len() == 0,
            !r.need_rescan,
    {
        Event { kind, paths: Vec::new(), need_rescan: false }
    }

    /// This notification, reporting `path` too.
    pub fn add_path(self, path: String) -> (r: Event)
        ensures
            r.kind == self.kind,
            r.paths@ == self.paths@.push(path),
            r.need_rescan == self.need_rescan,
    {
        let mut e = self;
        e.paths.push(path);
        e
    }

    /// This notification, marked as one after which the backend may have
    /// lost notifications.
    pub fn set_need_rescan(self) -> (r: Event)
        ensures
            r.kind == self.kind,
            r.paths@ == self.paths@,
            r.need_rescan,
    {
        let mut e = self;
        e.need_rescan = true;
        e
    }
}

} // verus!

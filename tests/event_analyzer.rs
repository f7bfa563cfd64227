use zonewatch::changes::Changes::{self, All, Nothing, Paths};
use zonewatch::event_analyzer::EventKind::{Access, Any, Create, Modify, Other, Remove};
use zonewatch::event_analyzer::{
    analyze_event, check_paths, AccessKind, AccessMode, CreateKind, DataChange, Event, EventKind,
    MetadataKind, ModifyKind, RemoveKind, RenameMode,
};

fn s(p: &str) -> String {
    p.to_string()
}

#[test]
fn check_paths_test() {
    let zone_name = "test";
    let path1 = s("/path1");
    let path2 = s("/path/2");
    let path3 = s("path-3");
    let zone_paths_all = Vec::from([path1.clone(), path2.clone(), path3.clone()]);
    let event_paths_all = Vec::from([path1, path2.clone(), path3]);
    let zone_paths_one = Vec::from([path2.clone()]);
    let event_paths_one = Vec::from([path2]);
    let zone_paths_empty: Vec<String> = Vec::new();
    let event_paths_empty: Vec<String> = Vec::new();
    assert_eq!(
        check_paths(zone_name, &zone_paths_all, event_paths_all.clone()),
        Paths(zone_paths_all.clone())
    );
    assert_eq!(
        check_paths(zone_name, &zone_paths_all, event_paths_one.clone()),
        Paths(zone_paths_one.clone())
    );
    assert_eq!(
        check_paths(zone_name, &zone_paths_all, event_paths_empty.clone()),
        Nothing
    );
    assert_eq!(
        check_paths(zone_name, &zone_paths_one, event_paths_all.clone()),
        Paths(zone_paths_one.clone())
    );
    assert_eq!(
        check_paths(zone_name, &zone_paths_one, event_paths_one.clone()),
        Paths(zone_paths_one.clone())
    );
    assert_eq!(
        check_paths(zone_name, &zone_paths_one, event_paths_empty.clone()),
        Nothing
    );
    assert_eq!(
        check_paths(zone_name, &zone_paths_empty, event_paths_all),
        Nothing
    );
    assert_eq!(
        check_paths(zone_name, &zone_paths_empty, event_paths_one),
        Nothing
    );
    assert_eq!(
        check_paths(zone_name, &zone_paths_empty, event_paths_empty),
        Nothing
    );
}

fn assert_modified(event_kind: EventKind, expect_modified: bool) {
    let zone_name = "test";
    let path = s("/path");
    let zone_paths = Vec::from([path.clone()]);
    let event = Event::new(event_kind).add_path(path);
    let expected_state = if expect_modified {
        Paths(zone_paths.clone())
    } else {
        Nothing
    };
    assert_eq!(analyze_event(zone_name, &zone_paths, event), expected_state);
}

#[test]
fn process_event_test() {
    assert_modified(Any, true);
    assert_modified(Access(AccessKind::Any), false);
    assert_modified(Access(AccessKind::Read), false);
    assert_modified(Access(AccessKind::Open(AccessMode::Any)), false);
    assert_modified(Access(AccessKind::Close(AccessMode::Any)), false);
    assert_modified(Access(AccessKind::Other), false);
    assert_modified(Create(CreateKind::Any), true);
    assert_modified(Create(CreateKind::File), true);
    assert_modified(Create(CreateKind::Folder), false);
    assert_modified(Create(CreateKind::Other), true);
    assert_modified(Modify(ModifyKind::Any), true);
    assert_modified(Modify(ModifyKind::Data(DataChange::Any)), true);
    assert_modified(Modify(ModifyKind::Data(DataChange::Size)), true);
    assert_modified(Modify(ModifyKind::Data(DataChange::Content)), true);
    assert_modified(Modify(ModifyKind::Data(DataChange::Other)), true);
    assert_modified(Modify(ModifyKind::Metadata(MetadataKind::Any)), false);
    assert_modified(
        Modify(ModifyKind::Metadata(MetadataKind::AccessTime)),
        false,
    );
    assert_modified(Modify(ModifyKind::Metadata(MetadataKind::WriteTime)), false);
    assert_modified(
        Modify(ModifyKind::Metadata(MetadataKind::Permissions)),
        true,
    );
    assert_modified(Modify(ModifyKind::Metadata(MetadataKind::Ownership)), true);
    assert_modified(Modify(ModifyKind::Metadata(MetadataKind::Extended)), false);
    assert_modified(Modify(ModifyKind::Metadata(MetadataKind::Other)), false);
    assert_modified(Modify(ModifyKind::Name(RenameMode::Any)), true);
    assert_modified(Modify(ModifyKind::Name(RenameMode::To)), true);
    assert_modified(Modify(ModifyKind::Name(RenameMode::From)), true);
    assert_modified(Modify(ModifyKind::Name(RenameMode::Both)), true);
    assert_modified(Modify(ModifyKind::Name(RenameMode::Other)), true);
    assert_modified(Modify(ModifyKind::Other), true);
    assert_modified(Remove(RemoveKind::Any), true);
    assert_modified(Remove(RemoveKind::File), true);
    assert_modified(Remove(RemoveKind::Folder), false);
    assert_modified(Remove(RemoveKind::Other), true);
    assert_modified(Other, true);
}

#[test]
fn rescan_flag_forces_all_whatever_the_kind() {
    let zone_paths = vec![s("/a")];
    let event = Event::new(EventKind::Access(AccessKind::Read)).set_need_rescan();
    assert_eq!(analyze_event("z", &zone_paths, event), All);
    let event = Event::new(EventKind::Create(CreateKind::File)).add_path(s("/elsewhere")).set_need_rescan();
    assert_eq!(analyze_event("z", &zone_paths, event), All);
}

#[test]
fn classification_is_deterministic() {
    let zone_paths = vec![s("/a"), s("/b")];
    let event = Event::new(EventKind::Modify(ModifyKind::Data(DataChange::Content)))
        .add_path(s("/b"))
        .add_path(s("/c"));
    let first = analyze_event("z", &zone_paths, event.clone());
    let second = analyze_event("z", &zone_paths, event);
    assert_eq!(first, second);
    assert_eq!(first, Paths(vec![s("/b")]));
}

#[test]
fn unrelated_paths_give_nothing_not_an_empty_set() {
    let zone_paths = vec![s("/a")];
    let event = Event::new(EventKind::Remove(RemoveKind::File)).add_path(s("/other"));
    assert_eq!(analyze_event("z", &zone_paths, event), Nothing);
}

#[test]
fn repeated_event_paths_are_reported_once() {
    let zone_paths = vec![s("/a"), s("/b")];
    let r = check_paths("z", &zone_paths, vec![s("/b"), s("/b"), s("/a")]);
    assert_eq!(r, Paths(vec![s("/a"), s("/b")]));
}

fn sorted(c: Changes) -> Option<Vec<String>> {
    match c {
        Paths(mut v) => {
            v.sort();
            Some(v)
        }
        Nothing => Some(Vec::new()),
        All => None,
    }
}

#[test]
fn union_laws_on_values() {
    let a = || Paths(vec![s("/a")]);
    let b = || Paths(vec![s("/b"), s("/a")]);
    let c = || Paths(vec![s("/c")]);
    // associative and commutative
    assert_eq!(
        sorted(a().union(b()).union(c())),
        sorted(a().union(b().union(c())))
    );
    assert_eq!(sorted(a().union(b())), sorted(b().union(a())));
    assert_eq!(sorted(a().union(b())), Some(vec![s("/a"), s("/b")]));
    // All absorbs, Nothing is the identity
    assert_eq!(All.union(a()), All);
    assert_eq!(a().union(All), All);
    assert_eq!(Nothing.union(a()), a());
    assert_eq!(a().union(Nothing), a());
    assert_eq!(Nothing.union(Nothing), Nothing);
    assert_eq!(All.union(Nothing), All);
}

#[test]
fn add_extends_without_duplicates() {
    assert_eq!(Nothing.add(vec![s("/a"), s("/a")]), Paths(vec![s("/a")]));
    assert_eq!(Paths(vec![s("/a")]).add(vec![s("/b"), s("/a")]), Paths(vec![s("/a"), s("/b")]));
    assert_eq!(All.add(vec![s("/a")]), All);
}

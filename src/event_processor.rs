//! Reconciliation: the snapshot that a batch of changes gives a zone, and
//! whether it must be written, with which serial.

use vstd::prelude::*;

use crate::changes::{ChangeSet, Changes};
use crate::config;
use crate::zone_text::zone_text;
use crate::zone_file::{
    copy_paths, path_seq, status_of_read, FileRead, Include, IncludeMap, Soa, SoaView, Zone,
    ZoneView,
};

verus! {

/// The paths whose files must be read again: every configured include when
/// the zone has no snapshot yet or on a full rescan, else the changed paths.
pub open spec fn rescan_paths(config_zone: config::Zone, changes: ChangeSet, has_prior: bool) -> Set<
    Seq<char>,
> {
    if !has_prior {
        crate::changes::path_set(config_zone.includes@)
    } else {
        match changes {
            ChangeSet::Rescan => crate::changes::path_set(config_zone.includes@),
            ChangeSet::Changed(s) => s,
            ChangeSet::Unchanged => Set::empty(),
        }
    }
}

/// The paths whose files must be read again before reconciling.
pub fn paths_to_rescan(config_zone: &config::Zone, changes: &Changes, has_prior: bool) -> (r: Vec<
    String,
>)
    ensures
        crate::changes::path_set(r@) == rescan_paths(*config_zone, changes@, has_prior),
{
    if !has_prior {
        return copy_paths(&config_zone.includes);
    }
    match changes {
        Changes::All => copy_paths(&config_zone.includes),
        Changes::Paths(v) => copy_paths(v),
        Changes::Nothing => {
            let r: Vec<String> = Vec::new();
            assert(crate::changes::path_set(r@) =~= Set::<Seq<char>>::empty());
            r
        },
    }
}

/// The statuses of the files just read: each path maps to the status that
/// its last read gives.
pub fn scan_includes(reads: &Vec<(String, FileRead)>) -> (r: IncludeMap)
    ensures
        forall|k: Seq<char>|
            r@.contains_key(k) <==> exists|i: int| 0 <= i < reads@.len() && (#[trigger] reads@[i]).0@ == k,
        forall|i: int|
            0 <= i < reads@.len() && (forall|j: int| i < j < reads@.len() ==> (#[trigger] reads@[j]).0@ != reads@[i].0@)
                ==> status_of_read((#[trigger] reads@[i]).1, r@[reads@[i].0@]),
{
    let mut r = IncludeMap::new();
    let mut n: usize = 0;
    while n < reads.len()
        invariant
            0 <= n <= reads@.len(),
            forall|k: Seq<char>|
                r@.contains_key(k) <==> exists|i: int| 0 <= i < n && (#[trigger] reads@[i]).0@ == k,
            forall|i: int|
                0 <= i < n && (forall|j: int| i < j < n ==> (#[trigger] reads@[j]).0@ != reads@[i].0@)
                    ==> status_of_read((#[trigger] reads@[i]).1, r@[reads@[i].0@]),
        decreases reads@.len() - n,
    {
        let status = Include::from_read(&reads[n].1);
        let ghost before = r@;
        r = r.insert(reads[n].0.clone(), status);
        assert forall|k: Seq<char>|
            r@.contains_key(k) <==> exists|i: int| 0 <= i < n + 1 && (#[trigger] reads@[i]).0@ == k by {
            if before.contains_key(k) {
                let i = choose|i: int| 0 <= i < n && (#[trigger] reads@[i]).0@ == k;
                assert(0 <= i < n + 1);
            }
        }
        assert forall|i: int|
            0 <= i < n + 1 && (forall|j: int| i < j < n + 1 ==> (#[trigger] reads@[j]).0@ != reads@[i].0@)
                implies status_of_read((#[trigger] reads@[i]).1, r@[reads@[i].0@]) by {
            if i < n {
                assert(reads@[n as int].0@ != reads@[i].0@);
            }
        }
        n += 1;
    }
    r
}

/// The include map of the candidate snapshot.
pub open spec fn candidate_includes(
    changes: ChangeSet,
    old: Option<ZoneView>,
    rescanned: Map<Seq<char>, Include>,
) -> Map<Seq<char>, Include> {
    match old {
        Option::None => rescanned,
        Option::Some(o) => match changes {
            ChangeSet::Rescan => rescanned,
            ChangeSet::Changed(_) => o.includes.union_prefer_right(rescanned),
            ChangeSet::Unchanged => o.includes,
        },
    }
}

/// The candidate snapshot: the configuration's fields, the include map of
/// `candidate_includes`, and the serial of the prior snapshot, or the
/// configured initial serial when there is none.
pub open spec fn candidate(
    zone_name: Seq<char>,
    config_zone: config::Zone,
    changes: ChangeSet,
    old: Option<ZoneView>,
    rescanned: Map<Seq<char>, Include>,
) -> ZoneView {
    ZoneView {
        name: zone_name,
        dir: config_zone.dir@,
        ttl: config_zone.ttl@,
        includes: candidate_includes(changes, old, rescanned),
        includes_ordered: path_seq(config_zone.includes@),
        soa: SoaView {
            ttl: config_zone.soa.ttl@,
            mname: config_zone.soa.mname@,
            rname: config_zone.soa.rname@,
            serial: match old {
                Option::None => config_zone.soa.initial_serial,
                Option::Some(o) => o.soa.serial,
            },
            refresh: config_zone.soa.refresh@,
            retry: config_zone.soa.retry@,
            expire: config_zone.soa.expire@,
            minimum: config_zone.soa.minimum@,
        },
    }
}

pub open spec fn view_of_option(z: Option<&Zone>) -> Option<ZoneView> {
    match z {
        Option::Some(z) => Option::Some(z@),
        Option::None => Option::None,
    }
}

pub open spec fn view_of_result(z: Option<Zone>) -> Option<ZoneView> {
    match z {
        Option::Some(z) => Option::Some(z@),
        Option::None => Option::None,
    }
}

/// The candidate snapshot for a zone: the configuration's fields, the prior
/// serial (or the initial one), and the prior include map with the statuses
/// just read put in.
pub fn update_zone(
    zone_name: &str,
    config_zone: &config::Zone,
    changes: Changes,
    maybe_old_zone: Option<&Zone>,
    rescanned: IncludeMap,
) -> (r: Zone)
    ensures
        r@ == candidate(zone_name@, *config_zone, changes@, view_of_option(maybe_old_zone), rescanned@),
{
    let (serial, includes) = match maybe_old_zone {
        Option::None => (config_zone.soa.initial_serial, rescanned),
        Option::Some(old_zone) => {
            let includes = match changes {
                Changes::All => rescanned,
                Changes::Paths(_) => old_zone.includes.duplicate().overlay(&rescanned),
                Changes::Nothing => old_zone.includes.duplicate(),
            };
            (old_zone.soa.serial, includes)
        },
    };
    let soa = Soa {
        ttl: config_zone.soa.ttl.clone(),
        mname: config_zone.soa.mname.clone(),
        rname: config_zone.soa.rname.clone(),
        serial,
        refresh: config_zone.soa.refresh.clone(),
        retry: config_zone.soa.retry.clone(),
        expire: config_zone.soa.expire.clone(),
        minimum: config_zone.soa.minimum.clone(),
    };
    Zone {
        name: zone_name.to_owned(),
        dir: config_zone.dir.clone(),
        ttl: config_zone.ttl.clone(),
        includes,
        includes_ordered: copy_paths(&config_zone.includes),
        soa,
    }
}

/// The serial after `s`: one more, wrapping from the largest 32-bit value
/// to 0.
pub open spec fn next_serial(s: u32) -> u32 {
    if s == u32::MAX {
        0
    } else {
        (s + 1) as u32
    }
}

/// `z` with serial `serial`.
pub open spec fn with_serial(z: ZoneView, serial: u32) -> ZoneView {
    ZoneView {
        name: z.name,
        dir: z.dir,
        ttl: z.ttl,
        includes: z.includes,
        includes_ordered: z.includes_ordered,
        soa: SoaView {
            ttl: z.soa.ttl,
            mname: z.soa.mname,
            rname: z.soa.rname,
            serial,
            refresh: z.soa.refresh,
            retry: z.soa.retry,
            expire: z.soa.expire,
            minimum: z.soa.minimum,
        },
    }
}

/// What to write for a candidate snapshot: the candidate itself when there
/// is no prior snapshot, nothing when it equals the prior one and the write
/// is not forced, the unchanged candidate when it is forced, and else the
/// candidate with the next serial.
pub open spec fn write_decision(force_write: bool, new_zone: ZoneView, old: Option<ZoneView>) -> Option<
    ZoneView,
> {
    match old {
        Option::None => Option::Some(new_zone),
        Option::Some(o) => if new_zone == o {
            if force_write {
                Option::Some(new_zone)
            } else {
                Option::None
            }
        } else {
            Option::Some(with_serial(new_zone, next_serial(new_zone.soa.serial)))
        },
    }
}

/// Decides whether the candidate snapshot is written, and with which
/// serial. `None` means that nothing is written and no reload is needed.
pub fn write_state(force_write: bool, new_zone: Zone, maybe_old_zone: Option<&Zone>) -> (r: Option<
    Zone,
>)
    ensures
        view_of_result(r) == write_decision(force_write, new_zone@, view_of_option(maybe_old_zone)),
{
    match maybe_old_zone {
        Option::None => Option::Some(new_zone),
        Option::Some(old_zone) => {
            if new_zone.same_as(old_zone) {
                if force_write {
                    Option::Some(new_zone)
                } else {
                    Option::None
                }
            } else {
                let mut z = new_zone;
                let serial = if z.soa.serial == 0xffff_ffff {
                    0
                } else {
                    z.soa.serial + 1
                };
                z.soa.serial = serial;
                assert(z@ == with_serial(new_zone@, next_serial(new_zone@.soa.serial)));
                Option::Some(z)
            }
        },
    }
}

/// What a reconciliation writes: the write decision for the candidate
/// snapshot.
pub open spec fn reconciliation(
    zone_name: Seq<char>,
    config_zone: config::Zone,
    changes: ChangeSet,
    force_write: bool,
    old: Option<ZoneView>,
    rescanned: Map<Seq<char>, Include>,
) -> Option<ZoneView> {
    write_decision(force_write, candidate(zone_name, config_zone, changes, old, rescanned), old)
}

/// Reconciles a zone: computes the candidate snapshot from the prior one,
/// the changes and the statuses just read, and returns the snapshot to
/// commit and write to disk, or `None` when nothing changed and the write
/// is not forced. A returned snapshot needs a reload.
pub fn reconcile(
    zone_name: &str,
    config_zone: &config::Zone,
    changes: Changes,
    force_write: bool,
    maybe_old_zone: Option<&Zone>,
    rescanned: IncludeMap,
) -> (r: Option<Zone>)
    ensures
        view_of_result(r) == reconciliation(
            zone_name@,
            *config_zone,
            changes@,
            force_write,
            view_of_option(maybe_old_zone),
            rescanned@,
        ),
{
    let new_zone = update_zone(zone_name, config_zone, changes, maybe_old_zone, rescanned);
    write_state(force_write, new_zone, maybe_old_zone)
}

/// The snapshot stored after a reconciliation: the one written, or else the
/// prior one.
pub open spec fn stored_after(written: Option<ZoneView>, old: Option<ZoneView>) -> ZoneView {
    match written {
        Option::Some(z) => z,
        Option::None => old->Some_0,
    }
}

/// Reconciling a second time with the same configuration, changes and file
/// statuses, without forcing, writes nothing: the serial stays the same.
pub proof fn lemma_reconcile_idempotent(
    zone_name: Seq<char>,
    config_zone: config::Zone,
    changes: ChangeSet,
    force_write: bool,
    old: Option<ZoneView>,
    rescanned: Map<Seq<char>, Include>,
)
    ensures
        ({
            let first = reconciliation(zone_name, config_zone, changes, force_write, old, rescanned);
            let stored = stored_after(first, old);
            reconciliation(zone_name, config_zone, changes, false, Option::Some(stored), rescanned)
                is None
        }),
{
    let first = reconciliation(zone_name, config_zone, changes, force_write, old, rescanned);
    let stored = stored_after(first, old);
    let again = candidate(zone_name, config_zone, changes, Option::Some(stored), rescanned);
    if let Option::Some(o) = old {
        assert(o.includes.union_prefer_right(rescanned).union_prefer_right(rescanned)
            =~= o.includes.union_prefer_right(rescanned));
    }
    assert(rescanned.union_prefer_right(rescanned) =~= rescanned);
    assert(again.includes =~= stored.includes);
    assert(again == stored);
}

/// A forced reconciliation whose candidate equals the prior snapshot writes
/// that same snapshot again, serial included, so the zone file's text is the
/// same to the byte.
pub proof fn lemma_forced_rewrite_unchanged(
    zone_name: Seq<char>,
    config_zone: config::Zone,
    changes: ChangeSet,
    old: ZoneView,
    rescanned: Map<Seq<char>, Include>,
)
    requires
        candidate(zone_name, config_zone, changes, Option::Some(old), rescanned) == old,
    ensures
        reconciliation(zone_name, config_zone, changes, true, Option::Some(old), rescanned)
            == Option::Some(old),
        zone_text(
            reconciliation(zone_name, config_zone, changes, true, Option::Some(old), rescanned)->Some_0,
        ) == zone_text(old),
{
}

/// A reconciliation whose candidate differs from the prior snapshot writes
/// the candidate with the prior serial advanced by exactly one, wrapping
/// from the largest 32-bit value to 0, forced or not.
pub proof fn lemma_change_advances_serial(
    zone_name: Seq<char>,
    config_zone: config::Zone,
    changes: ChangeSet,
    force_write: bool,
    old: ZoneView,
    rescanned: Map<Seq<char>, Include>,
)
    requires
        candidate(zone_name, config_zone, changes, Option::Some(old), rescanned) != old,
    ensures
        ({
            let c = candidate(zone_name, config_zone, changes, Option::Some(old), rescanned);
            &&& reconciliation(zone_name, config_zone, changes, force_write, Option::Some(old), rescanned)
                == Option::Some(with_serial(c, next_serial(old.soa.serial)))
            &&& next_serial(old.soa.serial) as int == (old.soa.serial + 1) % 0x1_0000_0000
        }),
{
}

} // verus!

//! The rows that the fingerprint store keeps for a zone and its includes,
//! and their conversion to and from zone snapshots.

use vstd::prelude::*;

use crate::changes::path_set;
use crate::zone_file::{path_seq, Include, IncludeMap, Soa, SoaView, Zone, ZoneView};

verus! {

broadcast use vstd::array::group_array_axioms;

/// The row of the `zones` table for one zone.
#[derive(Clone, Debug, PartialEq, Eq)]
pub struct ZoneRow {
    pub name: String,
    pub dir: String,
    pub ttl: String,
    pub soa_ttl: String,
    pub soa_mname: String,
    pub soa_rname: String,
    pub soa_serial: i64,
    pub soa_refresh: String,
    pub soa_retry: String,
    pub soa_expire: String,
    pub soa_minimum: String,
}

/// A row of the `includes` table: exactly one of `hash` and `error` is set
/// in a valid row.
#[derive(Clone, Debug, PartialEq, Eq)]
pub struct IncludeRow {
    pub path: String,
    pub hash: Option<Vec<u8>>,
    pub error: Option<i64>,
}

/// The `hash` and `error` columns that store a status.
#[derive(Clone, Debug, PartialEq, Eq)]
pub struct PartialInclude {
    pub hash: Option<Vec<u8>>,
    pub error: Option<i64>,
}

#[derive(Clone, Copy, Debug, PartialEq, Eq)]
pub enum IncludeConvertError {
    InvalidHashLength,
    FileReadConvert,
    HashAndErrorNotSet,
    HashAndErrorBothSet,
}

/// Why stored rows do not make a snapshot.
#[derive(Clone, Copy, Debug, PartialEq, Eq)]
pub enum StoreError {
    SerialOutOfRange,
    IncludeConvert(IncludeConvertError),
}

impl IncludeConvertError {
    /// A description of the error.
    pub fn message(&self) -> (r: &'static str)
        ensures
            r@ == match self {
                IncludeConvertError::InvalidHashLength => "hash is not 32 bytes long"@,
                IncludeConvertError::FileReadConvert => "failed to convert the file read error"@,
                IncludeConvertError::HashAndErrorNotSet => "neither hash nor error were set"@,
                IncludeConvertError::HashAndErrorBothSet => "both hash and error were set"@,
            },
    {
        match self {
            IncludeConvertError::InvalidHashLength => "hash is not 32 bytes long",
            IncludeConvertError::FileReadConvert => "failed to convert the file read error",
            IncludeConvertError::HashAndErrorNotSet => "neither hash nor error were set",
            IncludeConvertError::HashAndErrorBothSet => "both hash and error were set",
        }
    }
}

/// The code that the `error` column stores for a status that is not
/// readable.
pub open spec fn error_code(s: Include) -> i64 {
    match s {
        Include::NotFound => 1,
        Include::PermissionDenied => 2,
        _ => 0,
    }
}

/// The status that an `error` code stands for.
pub open spec fn decode_error_code(e: i64) -> Result<Include, IncludeConvertError> {
    if e == 0 {
        Ok(Include::OtherError)
    } else if e == 1 {
        Ok(Include::NotFound)
    } else if e == 2 {
        Ok(Include::PermissionDenied)
    } else {
        Err(IncludeConvertError::FileReadConvert)
    }
}

/// The fingerprint whose bytes are `h`.
pub open spec fn fingerprint_of_bytes(h: Seq<u8>) -> [u8; 32] {
    choose|f: [u8; 32]| f@ == h
}

/// The status that a pair of `hash` and `error` columns stands for: a valid
/// pair has exactly one of them set, and a hash of 32 bytes.
pub open spec fn decode_include(hash: Option<Seq<u8>>, error: Option<i64>) -> Result<
    Include,
    IncludeConvertError,
> {
    match (hash, error) {
        (Option::Some(h), Option::None) => if h.len() == 32 {
            Ok(Include::Readable(fingerprint_of_bytes(h)))
        } else {
            Err(IncludeConvertError::InvalidHashLength)
        },
        (Option::None, Option::Some(e)) => decode_error_code(e),
        (Option::Some(_), Option::Some(_)) => Err(IncludeConvertError::HashAndErrorBothSet),
        (Option::None, Option::None) => Err(IncludeConvertError::HashAndErrorNotSet),
    }
}

pub open spec fn bytes_view(h: Option<Vec<u8>>) -> Option<Seq<u8>> {
    match h {
        Option::Some(v) => Option::Some(v@),
        Option::None => Option::None,
    }
}

/// The status that a row of the `includes` table stands for.
pub open spec fn decode_row(row: IncludeRow) -> Result<Include, IncludeConvertError> {
    decode_include(bytes_view(row.hash), row.error)
}

/// The status that an `error` code stands for: 0 for another error, 1 for
/// a file not found, 2 for a permission denied.
pub fn include_from_error_code(e: i64) -> (r: Result<Include, IncludeConvertError>)
    ensures
        r == decode_error_code(e),
{
    if e == 0 {
        Ok(Include::OtherError)
    } else if e == 1 {
        Ok(Include::NotFound)
    } else if e == 2 {
        Ok(Include::PermissionDenied)
    } else {
        Err(IncludeConvertError::FileReadConvert)
    }
}

/// The fingerprint whose bytes are `h`, which must be 32 bytes long.
pub fn fingerprint_from_bytes(h: &Vec<u8>) -> (r: Result<[u8; 32], IncludeConvertError>)
    ensures
        match r {
            Ok(f) => h@.len() == 32 && f == fingerprint_of_bytes(h@),
            Err(e) => h@.len() != 32 && e == IncludeConvertError::InvalidHashLength,
        },
{
    if h.len() != 32 {
        return Err(IncludeConvertError::InvalidHashLength);
    }
    let mut f: [u8; 32] = [0u8; 32];
    let mut i: usize = 0;
    while i < 32
        invariant
            0 <= i <= 32,
            h@.len() == 32,
            forall|k: int| 0 <= k < i ==> f@[k] == h@[k],
        decreases 32 - i,
    {
        f[i] = h[i];
        i += 1;
    }
    assert(f@ =~= h@);
    assert(f =~= fingerprint_of_bytes(h@));
    Ok(f)
}

/// The status that a row of the `includes` table stands for; a row with
/// both or neither of `hash` and `error` set is corrupt.
pub fn include_from_row(row: &IncludeRow) -> (r: Result<Include, IncludeConvertError>)
    ensures
        r == decode_row(*row),
{
    match (&row.hash, &row.error) {
        (Option::Some(h), Option::None) => match fingerprint_from_bytes(h) {
            Ok(f) => Ok(Include::Readable(f)),
            Err(e) => Err(e),
        },
        (Option::None, Option::Some(e)) => include_from_error_code(*e),
        (Option::Some(_), Option::Some(_)) => Err(IncludeConvertError::HashAndErrorBothSet),
        (Option::None, Option::None) => Err(IncludeConvertError::HashAndErrorNotSet),
    }
}

/// The `hash` and `error` columns that store `s`: the fingerprint's bytes,
/// or the code of the reason it could not be read.
pub fn partial_include_from(s: &Include) -> (r: PartialInclude)
    ensures
        match *s {
            Include::Readable(f) => r.hash matches Option::Some(h) && h@ == f@ && r.error
                is None,
            _ => r.hash is None && r.error == Option::Some(error_code(*s)),
        },
        decode_include(bytes_view(r.hash), r.error) == Ok::<Include, IncludeConvertError>(*s),
{
    match s {
        Include::Readable(f) => {
            let mut h: Vec<u8> = Vec::new();
            let mut i: usize = 0;
            while i < 32
                invariant
                    0 <= i <= 32,
                    h@ == f@.subrange(0, i as int),
                decreases 32 - i,
            {
                h.push(f[i]);
                assert(h@ =~= f@.subrange(0, i + 1));
                i += 1;
            }
            assert(h@ =~= f@);
            assert(fingerprint_of_bytes(h@) =~= *f);
            PartialInclude { hash: Option::Some(h), error: Option::None }
        },
        Include::OtherError => PartialInclude { hash: Option::None, error: Option::Some(0) },
        Include::NotFound => PartialInclude { hash: Option::None, error: Option::Some(1) },
        Include::PermissionDenied => PartialInclude { hash: Option::None, error: Option::Some(2) },
    }
}

/// A row of the `includes` table whose `hash` and `error` columns are both
/// set, or both unset, is refused as corrupt.
pub proof fn lemma_corrupt_row_refused(row: IncludeRow)
    ensures
        row.hash is Some && row.error is Some ==> decode_row(row) == Err::<
            Include,
            IncludeConvertError,
        >(IncludeConvertError::HashAndErrorBothSet),
        row.hash is None && row.error is None ==> decode_row(row) == Err::<
            Include,
            IncludeConvertError,
        >(IncludeConvertError::HashAndErrorNotSet),
{
}

/// The map that rows of the `includes` table stand for, each row replacing
/// an earlier one of the same path; rows that do not decode are left out.
pub open spec fn rows_map(rows: Seq<IncludeRow>) -> Map<Seq<char>, Include>
    decreases rows.len(),
{
    if rows.len() == 0 {
        Map::empty()
    } else {
        let last = rows.last();
        let m = rows_map(rows.drop_last());
        match decode_row(last) {
            Ok(s) => m.insert(last.path@, s),
            Err(_) => m,
        }
    }
}

/// The paths of the rows, in order.
pub open spec fn rows_paths(rows: Seq<IncludeRow>) -> Seq<Seq<char>> {
    rows.map_values(|r: IncludeRow| r.path@)
}

/// Every row decodes to a status.
pub open spec fn rows_decode(rows: Seq<IncludeRow>) -> bool {
    forall|i: int| 0 <= i < rows.len() ==> (#[trigger] decode_row(rows[i])) is Ok
}

/// `e` is the error of the first row that does not decode.
pub open spec fn first_row_error(rows: Seq<IncludeRow>, e: IncludeConvertError) -> bool {
    exists|i: int|
        0 <= i < rows.len() && decode_row(rows[i]) == Err::<Include, IncludeConvertError>(e)
            && forall|j: int| 0 <= j < i ==> (#[trigger] decode_row(rows[j])) is Ok
}

/// The include map and the ordered paths that rows of the `includes` table,
/// in the order of insertion, stand for; fails with the error of the first
/// row that does not decode.
pub fn includes_from_rows(rows: &Vec<IncludeRow>) -> (r: Result<
    (IncludeMap, Vec<String>),
    IncludeConvertError,
>)
    ensures
        match r {
            Ok((m, ordered)) => rows_decode(rows@) && m@ == rows_map(rows@) && path_seq(ordered@)
                == rows_paths(rows@),
            Err(e) => first_row_error(rows@, e),
        },
{
    let mut m = IncludeMap::new();
    let mut ordered: Vec<String> = Vec::new();
    let mut i: usize = 0;
    assert(rows@.subrange(0, 0) =~= Seq::<IncludeRow>::empty());
    assert(path_seq(ordered@) =~= rows_paths(rows@.subrange(0, 0)));
    while i < rows.len()
        invariant
            0 <= i <= rows@.len(),
            rows_decode(rows@.subrange(0, i as int)),
            m@ == rows_map(rows@.subrange(0, i as int)),
            path_seq(ordered@) == rows_paths(rows@.subrange(0, i as int)),
        decreases rows@.len() - i,
    {
        let row = &rows[i];
        let ghost pre = rows@.subrange(0, i as int);
        let ghost next = rows@.subrange(0, i + 1);
        assert(next.drop_last() =~= pre);
        assert(next.last() == rows@[i as int]);
        match include_from_row(row) {
            Ok(s) => {
                m = m.insert(row.path.clone(), s);
                let ghost old_ord = ordered@;
                assert(path_seq(old_ord).len() == rows_paths(pre).len());
                assert(old_ord.len() == i);
                let p = row.path.clone();
                ordered.push(p);
                assert(ordered@ == old_ord.push(p));
                assert(p@ == rows@[i as int].path@);
                assert forall|k: int| 0 <= k < next.len() implies #[trigger] path_seq(ordered@)[k]
                    == rows_paths(next)[k] by {
                    if k < i {
                        assert(ordered@[k] == old_ord[k]);
                        assert(path_seq(old_ord)[k] == rows_paths(pre)[k]);
                        assert(next[k] == pre[k]);
                    }
                }
                assert(path_seq(ordered@) =~= rows_paths(next));
                assert forall|j: int| 0 <= j < next.len() implies (#[trigger] decode_row(
                    next[j],
                )) is Ok by {
                    if j < i {
                        assert(next[j] == pre[j]);
                    }
                }
            },
            Err(e) => {
                assert forall|j: int| 0 <= j < i implies (#[trigger] decode_row(rows@[j])) is Ok by {
                    assert(rows@[j] == pre[j]);
                }
                return Err(e);
            },
        }
        i += 1;
    }
    assert(rows@.subrange(0, rows@.len() as int) =~= rows@);
    Ok((m, ordered))
}

/// The snapshot that a zone row and its include rows stand for: `None` when
/// a row does not decode or the serial does not fit in 32 bits.
pub open spec fn zone_view_of_rows(row: ZoneRow, rows: Seq<IncludeRow>) -> Option<ZoneView> {
    if rows_decode(rows) && 0 <= row.soa_serial <= u32::MAX {
        Option::Some(
            ZoneView {
                name: row.name@,
                dir: row.dir@,
                ttl: row.ttl@,
                includes: rows_map(rows),
                includes_ordered: rows_paths(rows),
                soa: SoaView {
                    ttl: row.soa_ttl@,
                    mname: row.soa_mname@,
                    rname: row.soa_rname@,
                    serial: row.soa_serial as u32,
                    refresh: row.soa_refresh@,
                    retry: row.soa_retry@,
                    expire: row.soa_expire@,
                    minimum: row.soa_minimum@,
                },
            },
        )
    } else {
        Option::None
    }
}

/// The SOA record that a zone row holds; fails when its serial does not fit
/// in 32 bits.
pub fn soa_from_row(db_zone: &ZoneRow) -> (r: Result<Soa, StoreError>)
    ensures
        match r {
            Ok(soa) => 0 <= db_zone.soa_serial <= u32::MAX && soa@ == (SoaView {
                ttl: db_zone.soa_ttl@,
                mname: db_zone.soa_mname@,
                rname: db_zone.soa_rname@,
                serial: db_zone.soa_serial as u32,
                refresh: db_zone.soa_refresh@,
                retry: db_zone.soa_retry@,
                expire: db_zone.soa_expire@,
                minimum: db_zone.soa_minimum@,
            }),
            Err(e) => !(0 <= db_zone.soa_serial <= u32::MAX) && e == StoreError::SerialOutOfRange,
        },
{
    if db_zone.soa_serial < 0 || db_zone.soa_serial > 0xffff_ffff {
        return Err(StoreError::SerialOutOfRange);
    }
    Ok(
        Soa {
            serial: db_zone.soa_serial as u32,
            ttl: db_zone.soa_ttl.clone(),
            mname: db_zone.soa_mname.clone(),
            rname: db_zone.soa_rname.clone(),
            refresh: db_zone.soa_refresh.clone(),
            retry: db_zone.soa_retry.clone(),
            expire: db_zone.soa_expire.clone(),
            minimum: db_zone.soa_minimum.clone(),
        },
    )
}

/// The snapshot made of a zone row and the include map and ordered paths
/// read from its include rows; fails when the serial does not fit in 32
/// bits.
pub fn db_to_zone(db_zone: ZoneRow, includes: (IncludeMap, Vec<String>)) -> (r: Result<
    Zone,
    StoreError,
>)
    ensures
        match r {
            Ok(z) => 0 <= db_zone.soa_serial <= u32::MAX && z@.name == db_zone.name@ && z@.dir
                == db_zone.dir@ && z@.ttl == db_zone.ttl@ && z@.includes == includes.0@
                && z@.includes_ordered == path_seq(includes.1@) && z@.soa == (SoaView {
                ttl: db_zone.soa_ttl@,
                mname: db_zone.soa_mname@,
                rname: db_zone.soa_rname@,
                serial: db_zone.soa_serial as u32,
                refresh: db_zone.soa_refresh@,
                retry: db_zone.soa_retry@,
                expire: db_zone.soa_expire@,
                minimum: db_zone.soa_minimum@,
            }),
            Err(e) => !(0 <= db_zone.soa_serial <= u32::MAX) && e == StoreError::SerialOutOfRange,
        },
{
    let soa = match soa_from_row(&db_zone) {
        Ok(soa) => soa,
        Err(e) => return Err(e),
    };
    let (map, ordered) = includes;
    Ok(
        Zone {
            name: db_zone.name,
            dir: db_zone.dir,
            ttl: db_zone.ttl,
            includes: map,
            includes_ordered: ordered,
            soa,
        },
    )
}

/// The snapshot that a zone row and its include rows stand for. The include
/// rows are decoded first: the error of the first one that does not decode
/// comes before an out-of-range serial.
pub fn zone_from_rows(db_zone: ZoneRow, rows: &Vec<IncludeRow>) -> (r: Result<Zone, StoreError>)
    ensures
        match r {
            Ok(z) => zone_view_of_rows(db_zone, rows@) == Option::Some(z@),
            Err(StoreError::IncludeConvert(e)) => zone_view_of_rows(db_zone, rows@) is None
                && first_row_error(rows@, e),
            Err(StoreError::SerialOutOfRange) => zone_view_of_rows(db_zone, rows@) is None
                && rows_decode(rows@) && !(0 <= db_zone.soa_serial <= u32::MAX),
        },
{
    let includes = match includes_from_rows(rows) {
        Ok(i) => i,
        Err(e) => {
            assert(!rows_decode(rows@)) by {
                let i = choose|i: int|
                    0 <= i < rows@.len() && decode_row(rows@[i]) == Err::<
                        Include,
                        IncludeConvertError,
                    >(e) && forall|j: int| 0 <= j < i ==> (#[trigger] decode_row(rows@[j])) is Ok;
                assert(!(decode_row(rows@[i]) is Ok));
            }
            return Err(StoreError::IncludeConvert(e));
        },
    };
    let r = db_to_zone(db_zone, includes);
    proof {
        if r is Ok {
            let z = r->Ok_0;
            assert(zone_view_of_rows(db_zone, rows@) == Option::Some(z@)) by {
                assert(z@.soa == zone_view_of_rows(db_zone, rows@)->Some_0.soa);
            }
        }
    }
    r
}

/// The zone row that stores a snapshot.
pub open spec fn zone_row_of_spec(z: Zone) -> ZoneRow {
    ZoneRow {
        name: z.name,
        dir: z.dir,
        ttl: z.ttl,
        soa_ttl: z.soa.ttl,
        soa_mname: z.soa.mname,
        soa_rname: z.soa.rname,
        soa_serial: z.soa.serial as i64,
        soa_refresh: z.soa.refresh,
        soa_retry: z.soa.retry,
        soa_expire: z.soa.expire,
        soa_minimum: z.soa.minimum,
    }
}

/// The zone row that stores a snapshot.
pub fn zone_row_of(zone: &Zone) -> (r: ZoneRow)
    ensures
        r == zone_row_of_spec(*zone),
{
    ZoneRow {
        name: zone.name.clone(),
        dir: zone.dir.clone(),
        ttl: zone.ttl.clone(),
        soa_ttl: zone.soa.ttl.clone(),
        soa_mname: zone.soa.mname.clone(),
        soa_rname: zone.soa.rname.clone(),
        soa_serial: zone.soa.serial as i64,
        soa_refresh: zone.soa.refresh.clone(),
        soa_retry: zone.soa.retry.clone(),
        soa_expire: zone.soa.expire.clone(),
        soa_minimum: zone.soa.minimum.clone(),
    }
}

/// `rows` store the includes of `z`: one row for each ordered path, in
/// order, holding that path's status.
pub open spec fn rows_store_includes(rows: Seq<IncludeRow>, z: ZoneView) -> bool {
    &&& rows.len() == z.includes_ordered.len()
    &&& forall|i: int|
        0 <= i < rows.len() ==> (#[trigger] rows[i]).path@ == z.includes_ordered[i] && decode_row(
            rows[i],
        ) == Ok::<Include, IncludeConvertError>(z.includes[z.includes_ordered[i]])
}

/// The rows of the `includes` table that store the includes of a snapshot,
/// in the order of `includes_ordered`. Every ordered path must be in the
/// map.
pub fn include_rows_of(zone: &Zone) -> (r: Vec<IncludeRow>)
    requires
        forall|i: int|
            0 <= i < zone.includes_ordered@.len() ==> zone.includes@.contains_key(
                (#[trigger] zone.includes_ordered@[i])@,
            ),
    ensures
        rows_store_includes(r@, zone@),
{
    let mut rows: Vec<IncludeRow> = Vec::new();
    let mut i: usize = 0;
    while i < zone.includes_ordered.len()
        invariant
            0 <= i <= zone.includes_ordered@.len(),
            forall|k: int|
                0 <= k < zone.includes_ordered@.len() ==> zone.includes@.contains_key(
                    (#[trigger] zone.includes_ordered@[k])@,
                ),
            rows@.len() == i,
            forall|k: int|
                0 <= k < i ==> (#[trigger] rows@[k]).path@ == zone.includes_ordered@[k]@
                    && decode_row(rows@[k]) == Ok::<Include, IncludeConvertError>(
                    zone.includes@[zone.includes_ordered@[k]@],
                ),
        decreases zone.includes_ordered@.len() - i,
    {
        let path = &zone.includes_ordered[i];
        let status = match zone.includes.get(path) {
            Option::Some(s) => s,
            Option::None => {
                assert(zone.includes@.contains_key(zone.includes_ordered@[i as int]@));
                Include::OtherError
            },
        };
        let partial = partial_include_from(&status);
        rows.push(IncludeRow { path: path.clone(), hash: partial.hash, error: partial.error });
        i += 1;
    }
    rows
}

/// Whether the includes of `zone` equal the include map and ordered paths
/// already stored, so that the include rows need no rewrite.
pub fn includes_unchanged(zone: &Zone, old_includes: &IncludeMap, old_ordered: &Vec<String>) -> (r:
    bool)
    ensures
        r == (zone@.includes == old_includes@ && zone@.includes_ordered == path_seq(old_ordered@)),
{
    zone.includes.same_as(old_includes) && crate::zone_file::same_paths(
        &zone.includes_ordered,
        old_ordered,
    )
}

proof fn lemma_rows_map_prefix(rows: Seq<IncludeRow>, z: ZoneView, i: int)
    requires
        rows_store_includes(rows, z),
        forall|j: int| 0 <= j < z.includes_ordered.len() ==> z.includes.contains_key(
            #[trigger] z.includes_ordered[j],
        ),
        0 <= i <= rows.len(),
    ensures
        rows_decode(rows.subrange(0, i)),
        rows_map(rows.subrange(0, i)) == z.includes.restrict(
            z.includes_ordered.subrange(0, i).to_set(),
        ),
    decreases i,
{
    let pre = rows.subrange(0, i);
    if i == 0 {
        assert(z.includes_ordered.subrange(0, 0).to_set() =~= Set::<Seq<char>>::empty());
        assert(z.includes.restrict(Set::<Seq<char>>::empty()) =~= Map::<Seq<char>, Include>::empty());
    } else {
        lemma_rows_map_prefix(rows, z, i - 1);
        assert(pre.drop_last() =~= rows.subrange(0, i - 1));
        assert(pre.last() == rows[i - 1]);
        assert forall|j: int| 0 <= j < pre.len() implies (#[trigger] decode_row(pre[j])) is Ok by {
            assert(pre[j] == rows[j]);
        }
        let k = z.includes_ordered[i - 1];
        assert(z.includes_ordered.subrange(0, i) =~= z.includes_ordered.subrange(0, i - 1).push(k));
        let s0 = z.includes_ordered.subrange(0, i - 1);
        let s1 = z.includes_ordered.subrange(0, i);
        assert forall|p: Seq<char>| s1.to_set().contains(p) == s0.to_set().insert(k).contains(p) by {
            if s1.to_set().contains(p) {
                let j = choose|j: int| 0 <= j < s1.len() && s1[j] == p;
                if j < i - 1 {
                    assert(s0[j] == p);
                }
            }
            if s0.to_set().contains(p) {
                let j = choose|j: int| 0 <= j < s0.len() && s0[j] == p;
                assert(s1[j] == p);
            }
            if p == k {
                assert(s1[i - 1] == p);
            }
        }
        assert(s1.to_set() =~= s0.to_set().insert(k));
        assert(z.includes.contains_key(k));
        assert(rows[i - 1].path@ == k);
        assert(rows_map(pre) =~= z.includes.restrict(z.includes_ordered.subrange(0, i).to_set()));
    }
}

/// Writing a snapshot whose map holds exactly its ordered paths, and reading
/// it back from the rows written, gives an equal snapshot, in the same order
/// of includes.
pub proof fn lemma_store_round_trip(z: Zone, rows: Seq<IncludeRow>)
    requires
        z.consistent(),
        rows_store_includes(rows, z@),
    ensures
        zone_view_of_rows(zone_row_of_spec(z), rows) == Option::Some(z@),
{
    let ord = z@.includes_ordered;
    assert forall|j: int| 0 <= j < ord.len() implies z@.includes.contains_key(#[trigger] ord[j]) by {
        assert(path_set(z.includes_ordered@).contains(z.includes_ordered@[j]@));
    }
    lemma_rows_map_prefix(rows, z@, rows.len() as int);
    assert(rows.subrange(0, rows.len() as int) =~= rows);
    assert(ord.subrange(0, ord.len() as int) =~= ord);
    assert(ord.to_set() =~= path_set(z.includes_ordered@)) by {
        assert forall|p: Seq<char>| ord.to_set().contains(p) implies path_set(
            z.includes_ordered@,
        ).contains(p) by {
            let i = choose|i: int| 0 <= i < ord.len() && ord[i] == p;
            assert(z.includes_ordered@[i]@ == p);
        }
        assert forall|p: Seq<char>| path_set(z.includes_ordered@).contains(p) implies ord.to_set().contains(p) by {
            let i = choose|i: int| 0 <= i < z.includes_ordered@.len() && (#[trigger] z.includes_ordered@[i])@ == p;
            assert(ord[i] == p);
        }
    }
    assert(z@.includes.restrict(ord.to_set()) =~= z@.includes);
    assert(rows_paths(rows) =~= ord);
    let v = zone_view_of_rows(zone_row_of_spec(z), rows)->Some_0;
    assert(v.soa == z@.soa);
}

} // verus!

use zonewatch::db::{
    db_to_zone, include_from_error_code, include_from_row, include_rows_of, includes_from_rows,
    includes_unchanged, partial_include_from, soa_from_row, zone_from_rows, zone_row_of,
    IncludeConvertError, IncludeRow, StoreError, ZoneRow,
};
use zonewatch::zone_file::{Include, IncludeMap, Soa, Zone};

fn s(p: &str) -> String {
    p.to_string()
}

fn zone() -> Zone {
    let includes = IncludeMap::new()
        .insert(s("/b"), Include::Readable([7u8; 32]))
        .insert(s("/a"), Include::NotFound)
        .insert(s("/c"), Include::PermissionDenied)
        .insert(s("/d"), Include::OtherError);
    Zone {
        name: s("example.org."),
        dir: s("/var/lib/zones"),
        ttl: s("1d"),
        includes,
        includes_ordered: vec![s("/a"), s("/b"), s("/c"), s("/d")],
        soa: Soa {
            ttl: s("1d"),
            mname: s("ns1.example.org."),
            rname: s("hostmaster.example.org."),
            serial: 4000000000,
            refresh: s("1d"),
            retry: s("2h"),
            expire: s("1000h"),
            minimum: s("1h"),
        },
    }
}

#[test]
fn snapshot_round_trips_through_rows() {
    let z = zone();
    let row = zone_row_of(&z);
    assert_eq!(row.soa_serial, 4000000000);
    let rows = include_rows_of(&z);
    let paths: Vec<&str> = rows.iter().map(|r| r.path.as_str()).collect();
    assert_eq!(paths, vec!["/a", "/b", "/c", "/d"]);
    assert_eq!(rows[0].error, Some(1));
    assert_eq!(rows[1].hash, Some(vec![7u8; 32]));
    assert_eq!(rows[2].error, Some(2));
    assert_eq!(rows[3].error, Some(0));
    let back = zone_from_rows(row, &rows).unwrap();
    assert!(back.same_as(&z));
    assert_eq!(back.includes_ordered, z.includes_ordered);
}

fn row(hash: Option<Vec<u8>>, error: Option<i64>) -> IncludeRow {
    IncludeRow { path: s("/p"), hash, error }
}

#[test]
fn corrupt_include_rows_are_refused() {
    assert_eq!(
        include_from_row(&row(Some(vec![1u8; 32]), Some(1))),
        Err(IncludeConvertError::HashAndErrorBothSet)
    );
    assert_eq!(include_from_row(&row(None, None)), Err(IncludeConvertError::HashAndErrorNotSet));
    assert_eq!(
        include_from_row(&row(Some(vec![1u8; 31]), None)),
        Err(IncludeConvertError::InvalidHashLength)
    );
    assert_eq!(include_from_row(&row(None, Some(3))), Err(IncludeConvertError::FileReadConvert));
    assert_eq!(include_from_row(&row(None, Some(-1))), Err(IncludeConvertError::FileReadConvert));
    assert_eq!(include_from_row(&row(Some(vec![9u8; 32]), None)), Ok(Include::Readable([9u8; 32])));
}

#[test]
fn error_codes() {
    assert_eq!(include_from_error_code(0), Ok(Include::OtherError));
    assert_eq!(include_from_error_code(1), Ok(Include::NotFound));
    assert_eq!(include_from_error_code(2), Ok(Include::PermissionDenied));
    assert_eq!(include_from_error_code(7), Err(IncludeConvertError::FileReadConvert));
    let p = partial_include_from(&Include::PermissionDenied);
    assert_eq!((p.hash, p.error), (None, Some(2)));
    let mut f = [0u8; 32];
    f[31] = 5;
    let p = partial_include_from(&Include::Readable(f));
    assert_eq!((p.hash, p.error), (Some(f.to_vec()), None));
}

#[test]
fn first_bad_row_decides_the_error() {
    let rows = vec![
        row(None, Some(1)),
        row(None, None),
        row(Some(vec![0u8; 3]), None),
    ];
    assert_eq!(includes_from_rows(&rows).err(), Some(IncludeConvertError::HashAndErrorNotSet));
    let z = zone();
    assert_eq!(
        zone_from_rows(zone_row_of(&z), &rows).err(),
        Some(StoreError::IncludeConvert(IncludeConvertError::HashAndErrorNotSet))
    );
}

#[test]
fn serial_out_of_range_is_refused() {
    let z = zone();
    let mut r = zone_row_of(&z);
    r.soa_serial = -1;
    assert_eq!(soa_from_row(&r).err(), Some(StoreError::SerialOutOfRange));
    r.soa_serial = 1 << 32;
    let rows = include_rows_of(&z);
    assert_eq!(zone_from_rows(r.clone(), &rows).err(), Some(StoreError::SerialOutOfRange));
    r.soa_serial = u32::MAX as i64;
    assert_eq!(soa_from_row(&r).unwrap().serial, u32::MAX);
    let includes = includes_from_rows(&rows).unwrap();
    assert_eq!(db_to_zone(r, includes).unwrap().soa.serial, u32::MAX);
}

#[test]
fn later_row_of_the_same_path_wins() {
    let rows = vec![
        IncludeRow { path: s("/p"), hash: None, error: Some(1) },
        IncludeRow { path: s("/p"), hash: None, error: Some(2) },
    ];
    let (m, ordered) = includes_from_rows(&rows).unwrap();
    assert_eq!(m.get(&s("/p")), Some(Include::PermissionDenied));
    assert_eq!(ordered, vec![s("/p"), s("/p")]);
}

#[test]
fn unchanged_includes_are_detected() {
    let z = zone();
    let rows = include_rows_of(&z);
    let (m, ordered) = includes_from_rows(&rows).unwrap();
    assert!(includes_unchanged(&z, &m, &ordered));
    let reordered = vec![s("/b"), s("/a"), s("/c"), s("/d")];
    assert!(!includes_unchanged(&z, &m, &reordered));
    let m2 = m.insert(s("/a"), Include::OtherError);
    assert!(!includes_unchanged(&z, &m2, &ordered));
}

#[test]
fn error_messages() {
    assert_eq!(IncludeConvertError::InvalidHashLength.message(), "hash is not 32 bytes long");
    assert_eq!(IncludeConvertError::HashAndErrorBothSet.message(), "both hash and error were set");
    assert_eq!(IncludeConvertError::HashAndErrorNotSet.message(), "neither hash nor error were set");
    assert_eq!(IncludeConvertError::FileReadConvert.message(), "failed to convert the file read error");
}

#[test]
fn zone_row_copies_the_fields() {
    let z = zone();
    let r: ZoneRow = zone_row_of(&z);
    assert_eq!(r.name, "example.org.");
    assert_eq!(r.soa_mname, "ns1.example.org.");
    assert_eq!(r.soa_minimum, "1h");
}

#[test]
fn include_maps_compare_as_maps() {
    let a = IncludeMap::new().insert(s("/x"), Include::NotFound).insert(s("/y"), Include::OtherError);
    let b = IncludeMap::new().insert(s("/y"), Include::OtherError).insert(s("/x"), Include::NotFound);
    assert_eq!(a, b);
    assert!(a.same_as(&b));
    let c = b.clone().insert(s("/x"), Include::PermissionDenied);
    assert_ne!(a, c);
    let d = a.clone().overlay(&IncludeMap::new().insert(s("/z"), Include::NotFound));
    assert_eq!(d.get(&s("/z")), Some(Include::NotFound));
    assert_eq!(d.get(&s("/x")), Some(Include::NotFound));
    assert_ne!(a, d);
    assert_eq!(a.duplicate(), a);
}

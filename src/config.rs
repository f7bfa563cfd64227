//! Configuration: the zones to maintain, as read, and their validation.

use vstd::prelude::*;

use crate::changes::{contains_path, lemma_path_set_prefix, lemma_path_set_push, path_set};

verus! {

/// The SOA fields that the configuration gives a zone, and the serial that
/// the zone starts with when it is first generated.
#[derive(Clone, Debug, PartialEq, Eq)]
pub struct Soa {
    pub ttl: String,
    pub mname: String,
    pub rname: String,
    pub refresh: String,
    pub retry: String,
    pub expire: String,
    pub minimum: String,
    pub initial_serial: u32,
}

/// A zone as the configuration file states it, before validation.
#[derive(Debug, PartialEq, Eq)]
pub struct ZoneRaw {
    pub dir: String,
    pub reload_program_args: Vec<String>,
    pub ttl: String,
    pub includes: Vec<String>,
    pub soa: Soa,
}

/// A validated zone: its includes are absolute and distinct, and its MNAME
/// and RNAME end in a dot.
#[derive(Debug, PartialEq, Eq)]
pub struct Zone {
    pub dir: String,
    pub reload_program_args: Vec<String>,
    pub ttl: String,
    pub includes: Vec<String>,
    pub soa: Soa,
}

#[derive(Debug, PartialEq, Eq)]
pub enum ZoneConvertError {
    RelativeIncludePath { path: String },
    DuplicateIncludePath { path: String },
    InvalidMname { mname: String },
    InvalidRname { rname: String },
}

/// The configuration file as read, before validation.
#[derive(Debug, PartialEq, Eq)]
pub struct Raw {
    pub db: String,
    pub nix_dir: Option<String>,
    pub reload_program_bin: String,
    pub zones: Vec<(String, ZoneRaw)>,
}

/// The validated configuration.
#[derive(Debug, PartialEq, Eq)]
pub struct Config {
    pub db: String,
    pub nix_dir: String,
    pub reload_program_bin: String,
    pub zones: Vec<(String, Zone)>,
}

#[derive(Debug, PartialEq, Eq)]
pub enum ConvertError {
    ZoneConvert { origin: String, source: ZoneConvertError },
}

/// A Unix path is absolute when it starts with the root separator.
pub open spec fn is_absolute(p: Seq<char>) -> bool {
    p.len() > 0 && p[0] == '/'
}

pub open spec fn ends_with_dot(s: Seq<char>) -> bool {
    s.len() > 0 && s.last() == '.'
}

/// The path at `i` is absolute and not already listed before it.
pub open spec fn include_ok(v: Seq<String>, i: int) -> bool {
    is_absolute(v[i]@) && !path_set(v.subrange(0, i)).contains(v[i]@)
}

/// `i` is the first path that is relative or listed twice.
pub open spec fn first_bad_include(v: Seq<String>, i: int) -> bool {
    &&& 0 <= i < v.len()
    &&& !include_ok(v, i)
    &&& forall|j: int| 0 <= j < i ==> include_ok(v, j)
}

/// What validating a raw zone gives: the error for the first bad path,
/// else an error for a bad MNAME, else for a bad RNAME, else the zone.
pub open spec fn zone_from_raw(raw: ZoneRaw) -> Result<Zone, ZoneConvertError> {
    let v = raw.includes@;
    if exists|i: int| first_bad_include(v, i) {
        let i = choose|i: int| first_bad_include(v, i);
        if !is_absolute(v[i]@) {
            Err(ZoneConvertError::RelativeIncludePath { path: v[i] })
        } else {
            Err(ZoneConvertError::DuplicateIncludePath { path: v[i] })
        }
    } else if !ends_with_dot(raw.soa.mname@) {
        Err(ZoneConvertError::InvalidMname { mname: raw.soa.mname })
    } else if !ends_with_dot(raw.soa.rname@) {
        Err(ZoneConvertError::InvalidRname { rname: raw.soa.rname })
    } else {
        Ok(
            Zone {
                dir: raw.dir,
                reload_program_args: raw.reload_program_args,
                ttl: raw.ttl,
                includes: raw.includes,
                soa: raw.soa,
            },
        )
    }
}

proof fn lemma_first_bad_unique(v: Seq<String>, i: int, j: int)
    requires
        first_bad_include(v, i),
        first_bad_include(v, j),
    ensures
        i == j,
{
    if i < j {
        assert(include_ok(v, i));
    } else if j < i {
        assert(include_ok(v, j));
    }
}

/// Whether `p` is an absolute Unix path, as `Path::is_absolute` decides on
/// Unix: it starts with `/`.
pub fn is_absolute_path(p: &String) -> (r: bool)
    ensures
        r == is_absolute(p@),
{
    let s = p.as_str();
    s.unicode_len() > 0 && s.get_char(0) == '/'
}

/// Whether the last character of `s` is a dot.
pub fn ends_with_dot_char(s: &String) -> (r: bool)
    ensures
        r == ends_with_dot(s@),
{
    let t = s.as_str();
    let n = t.unicode_len();
    n > 0 && t.get_char(n - 1) == '.'
}

impl Zone {
    /// Validates a raw zone: its includes must be absolute and distinct, and
    /// its MNAME and RNAME must end in a dot.
    pub fn from_raw(raw_zone: ZoneRaw) -> (r: Result<Zone, ZoneConvertError>)
        ensures
            r == zone_from_raw(raw_zone),
    {
        let ghost v = raw_zone.includes@;
        let mut seen: Vec<String> = Vec::new();
        let mut i: usize = 0;
        while i < raw_zone.includes.len()
            invariant
                v == raw_zone.includes@,
                0 <= i <= v.len(),
                path_set(seen@) == path_set(v.subrange(0, i as int)),
                forall|j: int| 0 <= j < i ==> include_ok(v, j),
            decreases v.len() - i,
        {
            let path = &raw_zone.includes[i];
            proof {
                lemma_path_set_prefix(v, i as int);
            }
            if !is_absolute_path(path) {
                assert(first_bad_include(v, i as int));
                proof {
                    let k = choose|k: int| first_bad_include(v, k);
                    lemma_first_bad_unique(v, i as int, k);
                }
                return Err(ZoneConvertError::RelativeIncludePath { path: path.clone() });
            }
            if contains_path(&seen, path) {
                assert(first_bad_include(v, i as int));
                proof {
                    let k = choose|k: int| first_bad_include(v, k);
                    lemma_first_bad_unique(v, i as int, k);
                }
                return Err(ZoneConvertError::DuplicateIncludePath { path: path.clone() });
            }
            proof {
                lemma_path_set_push(seen@, *path);
            }
            seen.push(path.clone());
            i += 1;
        }
        assert(!exists|k: int| first_bad_include(v, k));
        if !ends_with_dot_char(&raw_zone.soa.mname) {
            return Err(ZoneConvertError::InvalidMname { mname: raw_zone.soa.mname });
        }
        if !ends_with_dot_char(&raw_zone.soa.rname) {
            return Err(ZoneConvertError::InvalidRname { rname: raw_zone.soa.rname });
        }
        Ok(
            Zone {
                dir: raw_zone.dir,
                reload_program_args: raw_zone.reload_program_args,
                ttl: raw_zone.ttl,
                includes: raw_zone.includes,
                soa: raw_zone.soa,
            },
        )
    }
}

impl vstd::std_specs::convert::TryFromSpecImpl<ZoneRaw> for Zone {
    open spec fn obeys_try_from_spec() -> bool {
        true
    }

    open spec fn try_from_spec(v: ZoneRaw) -> Result<Zone, ZoneConvertError> {
        zone_from_raw(v)
    }
}

impl TryFrom<ZoneRaw> for Zone {
    type Error = ZoneConvertError;

    fn try_from(raw_zone: ZoneRaw) -> Result<Zone, ZoneConvertError> {
        Zone::from_raw(raw_zone)
    }
}

/// The directory whose files never change and are not watched, when the
/// configuration names none.
pub open spec fn default_nix_dir() -> Seq<char> {
    "/nix"@
}

impl Config {
    /// Validates every zone of a raw configuration, in order, and fails with
    /// the first zone that does not validate.
    pub fn from_raw(raw_config: Raw) -> (r: Result<Config, ConvertError>)
        ensures
            match r {
                Ok(c) => {
                    &&& c.db == raw_config.db
                    &&& c.reload_program_bin == raw_config.reload_program_bin
                    &&& c.nix_dir@ == match raw_config.nix_dir {
                        Option::Some(d) => d@,
                        Option::None => default_nix_dir(),
                    }
                    &&& c.zones@.len() == raw_config.zones@.len()
                    &&& forall|i: int|
                        0 <= i < c.zones@.len() ==> (#[trigger] c.zones@[i]).0 == raw_config.zones@[i].0
                            && zone_from_raw(raw_config.zones@[i].1) == Ok::<Zone, ZoneConvertError>(
                            c.zones@[i].1,
                        )
                },
                Err(ConvertError::ZoneConvert { origin, source }) => exists|i: int|
                    0 <= i < raw_config.zones@.len() && (forall|j: int|
                        0 <= j < i ==> (#[trigger] zone_from_raw(raw_config.zones@[j].1)) is Ok)
                        && origin == raw_config.zones@[i].0 && zone_from_raw(
                        raw_config.zones@[i].1,
                    ) == Err::<Zone, ZoneConvertError>(source),
            },
    {
        let ghost zs = raw_config.zones@;
        let n = raw_config.zones.len();
        let mut rest = raw_config.zones;
        let mut zones: Vec<(String, Zone)> = Vec::new();
        let mut i: usize = 0;
        while rest.len() > 0
            invariant
                0 <= i <= zs.len(),
                zs.len() == n,
                zs == raw_config.zones@,
                rest@ == zs.subrange(i as int, zs.len() as int),
                zones@.len() == i,
                forall|k: int|
                    0 <= k < i ==> (#[trigger] zones@[k]).0 == zs[k].0 && zone_from_raw(zs[k].1)
                        == Ok::<Zone, ZoneConvertError>(zones@[k].1),
            decreases rest@.len(),
        {
            assert(rest@[0] == zs[i as int]);
            let (origin, raw_zone) = rest.remove(0);
            assert(rest@ == zs.subrange(i + 1, zs.len() as int));
            match Zone::from_raw(raw_zone) {
                Ok(zone) => {
                    zones.push((origin, zone));
                },
                Err(source) => {
                    assert(forall|j: int| 0 <= j < i ==> (#[trigger] zone_from_raw(zs[j].1)) is Ok) by {
                        assert forall|j: int| 0 <= j < i implies (#[trigger] zone_from_raw(zs[j].1)) is Ok by {
                            assert(zones@[j].0 == zs[j].0);
                        }
                    }
                    assert(zone_from_raw(zs[i as int].1) == Err::<Zone, ZoneConvertError>(source));
                    assert(origin == zs[i as int].0);
                    assert(zs == raw_config.zones@);
                    return Err(ConvertError::ZoneConvert { origin, source });
                },
            }
            i += 1;
        }
        let nix_dir = match raw_config.nix_dir {
            Option::Some(d) => d,
            Option::None => String::from_str("/nix"),
        };
        Ok(
            Config {
                db: raw_config.db,
                nix_dir,
                reload_program_bin: raw_config.reload_program_bin,
                zones,
            },
        )
    }
}

} // verus!

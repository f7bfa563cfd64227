//! Zone snapshots: what the generated zone file and the store hold for a
//! zone, with the status of each included file.

use vstd::prelude::*;

use crate::changes::path_set;

verus! {

broadcast use vstd::array::group_array_axioms;

/// The BLAKE3 digest of a byte string.
pub uninterp spec fn blake3_digest(content: Seq<u8>) -> Seq<u8>;

/// Relies on blake3::hash: the 32-byte BLAKE3 digest of the input, which
/// depends on the input alone.
#[verifier::external_body]
fn digest(content: &[u8]) -> (r: [u8; 32])
    ensures
        r@ == blake3_digest(content@),
{
    *blake3::hash(content).as_bytes()
}

/// The status of an included file: the fingerprint of its content when it
/// was last read, or why it could not be read.
#[derive(Clone, Copy, Debug, PartialEq, Eq)]
pub enum Include {
    Readable([u8; 32]),
    NotFound,
    PermissionDenied,
    OtherError,
}

/// The outcome of reading an included file.
#[derive(Clone, Debug, PartialEq, Eq)]
pub enum FileRead {
    Content(Vec<u8>),
    NotFound,
    PermissionDenied,
    OtherError,
}

/// `status` is what a read with outcome `read` gives: the digest of the
/// content, or the same reason for failure.
pub open spec fn status_of_read(read: FileRead, status: Include) -> bool {
    match (read, status) {
        (FileRead::Content(b), Include::Readable(h)) => h@ == blake3_digest(b@),
        (FileRead::NotFound, Include::NotFound) => true,
        (FileRead::PermissionDenied, Include::PermissionDenied) => true,
        (FileRead::OtherError, Include::OtherError) => true,
        _ => false,
    }
}

/// Whether two fingerprints are equal.
pub fn same_fingerprint(a: &[u8; 32], b: &[u8; 32]) -> (r: bool)
    ensures
        r == (*a == *b),
{
    let mut i: usize = 0;
    while i < 32
        invariant
            0 <= i <= 32,
            forall|k: int| 0 <= k < i ==> a@[k] == b@[k],
        decreases 32 - i,
    {
        if a[i] != b[i] {
            return false;
        }
        i += 1;
    }
    assert(*a =~= *b);
    true
}

impl Include {
    /// The status that a read with outcome `read` gives an included file.
    pub fn from_read(read: &FileRead) -> (r: Include)
        ensures
            status_of_read(*read, r),
    {
        match read {
            FileRead::Content(b) => Include::Readable(digest(b.as_slice())),
            FileRead::NotFound => Include::NotFound,
            FileRead::PermissionDenied => Include::PermissionDenied,
            FileRead::OtherError => Include::OtherError,
        }
    }

    /// Whether two statuses are equal.
    pub fn same_as(&self, other: &Include) -> (r: bool)
        ensures
            r == (*self == *other),
    {
        match (self, other) {
            (Include::Readable(a), Include::Readable(b)) => same_fingerprint(a, b),
            (Include::NotFound, Include::NotFound) => true,
            (Include::PermissionDenied, Include::PermissionDenied) => true,
            (Include::OtherError, Include::OtherError) => true,
            _ => false,
        }
    }
}

/// No key occurs twice among the entries.
pub open spec fn keys_distinct(s: Seq<(String, Include)>) -> bool {
    forall|i: int, j: int|
        0 <= i < s.len() && 0 <= j < s.len() && i != j ==> (#[trigger] s[i]).0@ != (
        #[trigger] s[j]).0@
}

/// Some entry has key `k`.
pub open spec fn has_key(s: Seq<(String, Include)>, k: Seq<char>) -> bool {
    exists|i: int| 0 <= i < s.len() && (#[trigger] s[i]).0@ == k
}

/// The map that the entries stand for.
pub open spec fn entries_map(s: Seq<(String, Include)>) -> Map<Seq<char>, Include> {
    Map::new(
        |k: Seq<char>| has_key(s, k),
        |k: Seq<char>| s[choose|i: int| 0 <= i < s.len() && (#[trigger] s[i]).0@ == k].1,
    )
}

proof fn lemma_entries_map_at(s: Seq<(String, Include)>, i: int)
    requires
        keys_distinct(s),
        0 <= i < s.len(),
    ensures
        entries_map(s).contains_key(s[i].0@),
        entries_map(s)[s[i].0@] == s[i].1,
{
    let k = s[i].0@;
    assert(has_key(s, k));
    let j = choose|j: int| 0 <= j < s.len() && (#[trigger] s[j]).0@ == k;
    assert(j == i);
}

proof fn lemma_entries_map_push(s: Seq<(String, Include)>, k: String, v: Include)
    requires
        keys_distinct(s),
        !has_key(s, k@),
    ensures
        keys_distinct(s.push((k, v))),
        entries_map(s.push((k, v))) == entries_map(s).insert(k@, v),
{
    let t = s.push((k, v));
    assert forall|i: int, j: int|
        0 <= i < t.len() && 0 <= j < t.len() && i != j implies (#[trigger] t[i]).0@ != (
        #[trigger] t[j]).0@ by {
        if i < s.len() && j < s.len() {
            assert(t[i] == s[i] && t[j] == s[j]);
        } else if i < s.len() {
            assert(t[i] == s[i]);
        } else if j < s.len() {
            assert(t[j] == s[j]);
        }
    }
    assert forall|key: Seq<char>| #[trigger] has_key(t, key) == (has_key(s, key) || key == k@) by {
        if has_key(s, key) {
            let i = choose|i: int| 0 <= i < s.len() && (#[trigger] s[i]).0@ == key;
            assert(t[i] == s[i]);
        }
        if key == k@ {
            assert(t[s.len() as int].0@ == key);
        }
        if has_key(t, key) {
            let i = choose|i: int| 0 <= i < t.len() && (#[trigger] t[i]).0@ == key;
            if i < s.len() {
                assert(t[i] == s[i]);
            }
        }
    }
    assert forall|key: Seq<char>| #[trigger] entries_map(t).contains_key(key) implies entries_map(
        t,
    )[key] == entries_map(s).insert(k@, v)[key] by {
        let i = choose|i: int| 0 <= i < t.len() && (#[trigger] t[i]).0@ == key;
        lemma_entries_map_at(t, i);
        if i < s.len() {
            assert(t[i] == s[i]);
            lemma_entries_map_at(s, i);
        }
    }
    assert(entries_map(t) =~= entries_map(s).insert(k@, v));
}

proof fn lemma_entries_map_update(s: Seq<(String, Include)>, i: int, k: String, v: Include)
    requires
        keys_distinct(s),
        0 <= i < s.len(),
        s[i].0@ == k@,
    ensures
        keys_distinct(s.update(i, (k, v))),
        entries_map(s.update(i, (k, v))) == entries_map(s).insert(k@, v),
{
    let t = s.update(i, (k, v));
    assert forall|a: int, b: int|
        0 <= a < t.len() && 0 <= b < t.len() && a != b implies (#[trigger] t[a]).0@ != (
        #[trigger] t[b]).0@ by {
        assert(t[a].0@ == s[a].0@ && t[b].0@ == s[b].0@);
    }
    assert forall|key: Seq<char>| #[trigger] has_key(t, key) == has_key(s, key) by {
        if has_key(s, key) {
            let j = choose|j: int| 0 <= j < s.len() && (#[trigger] s[j]).0@ == key;
            assert(t[j].0@ == key);
        }
        if has_key(t, key) {
            let j = choose|j: int| 0 <= j < t.len() && (#[trigger] t[j]).0@ == key;
            assert(s[j].0@ == key);
        }
    }
    lemma_entries_map_at(s, i);
    assert forall|key: Seq<char>| #[trigger] entries_map(t).contains_key(key) implies entries_map(
        t,
    )[key] == entries_map(s).insert(k@, v)[key] by {
        let j = choose|j: int| 0 <= j < t.len() && (#[trigger] t[j]).0@ == key;
        lemma_entries_map_at(t, j);
        if j != i {
            lemma_entries_map_at(s, j);
        }
    }
    assert(entries_map(t) =~= entries_map(s).insert(k@, v));
}

/// The statuses of included files, keyed by path.
#[derive(Debug)]
pub struct IncludeMap {
    entries: Vec<(String, Include)>,
}

impl View for IncludeMap {
    type V = Map<Seq<char>, Include>;

    closed spec fn view(&self) -> Map<Seq<char>, Include> {
        entries_map(self.entries@)
    }
}

impl IncludeMap {
    #[verifier::type_invariant]
    spec fn keys_unique(&self) -> bool {
        keys_distinct(self.entries@)
    }

    /// The map with no entry.
    pub fn new() -> (r: IncludeMap)
        ensures
            r@ == Map::<Seq<char>, Include>::empty(),
    {
        let r = IncludeMap { entries: Vec::new() };
        assert(r@ =~= Map::<Seq<char>, Include>::empty());
        r
    }

    fn index_of(&self, k: &String) -> (r: Option<usize>)
        ensures
            match r {
                Option::Some(i) => i < self.entries@.len() && self.entries@[i as int].0@ == k@,
                Option::None => !has_key(self.entries@, k@),
            },
    {
        let mut i: usize = 0;
        while i < self.entries.len()
            invariant
                0 <= i <= self.entries@.len(),
                forall|j: int| 0 <= j < i ==> (#[trigger] self.entries@[j]).0@ != k@,
            decreases self.entries@.len() - i,
        {
            if self.entries[i].0 == *k {
                return Option::Some(i);
            }
            i += 1;
        }
        Option::None
    }

    /// The status stored for `k`, if any.
    pub fn get(&self, k: &String) -> (r: Option<Include>)
        ensures
            r == (if self@.contains_key(k@) {
                Option::Some(self@[k@])
            } else {
                Option::None
            }),
    {
        proof {
            use_type_invariant(self);
        }
        match self.index_of(k) {
            Option::Some(i) => {
                proof {
                    lemma_entries_map_at(self.entries@, i as int);
                }
                Option::Some(self.entries[i].1)
            },
            Option::None => Option::None,
        }
    }

    /// This map with `k` mapped to `v`.
    pub fn insert(self, k: String, v: Include) -> (r: IncludeMap)
        ensures
            r@ == self@.insert(k@, v),
    {
        proof {
            use_type_invariant(&self);
        }
        let idx = self.index_of(&k);
        let mut entries = self.entries;
        match idx {
            Option::Some(i) => {
                proof {
                    lemma_entries_map_update(entries@, i as int, k, v);
                }
                entries.set(i, (k, v));
            },
            Option::None => {
                proof {
                    lemma_entries_map_push(entries@, k, v);
                }
                entries.push((k, v));
            },
        }
        IncludeMap { entries }
    }

    /// This map with every entry of `other` put in, replacing the entry of
    /// the same key.
    pub fn overlay(self, other: &IncludeMap) -> (r: IncludeMap)
        ensures
            r@ == self@.union_prefer_right(other@),
    {
        proof {
            use_type_invariant(other);
        }
        let ghost m0 = self@;
        let mut r = self;
        let mut i: usize = 0;
        assert(m0 =~= m0.union_prefer_right(entries_map(other.entries@.subrange(0, 0))));
        while i < other.entries.len()
            invariant
                0 <= i <= other.entries@.len(),
                keys_distinct(other.entries@),
                r@ == m0.union_prefer_right(entries_map(other.entries@.subrange(0, i as int))),
            decreases other.entries@.len() - i,
        {
            let k = other.entries[i].0.clone();
            let v = other.entries[i].1;
            r = r.insert(k, v);
            proof {
                let s = other.entries@;
                let pre = s.subrange(0, i as int);
                assert(keys_distinct(pre));
                assert(!has_key(pre, s[i as int].0@)) by {
                    if has_key(pre, s[i as int].0@) {
                        let j = choose|j: int| 0 <= j < pre.len() && (#[trigger] pre[j]).0@ == s[i as int].0@;
                        assert(pre[j] == s[j]);
                    }
                }
                assert(s.subrange(0, i + 1) =~= pre.push(s[i as int]));
                lemma_entries_map_push(pre, s[i as int].0, s[i as int].1);
                assert(r@ =~= m0.union_prefer_right(entries_map(s.subrange(0, i + 1))));
            }
            i += 1;
        }
        assert(other.entries@.subrange(0, other.entries@.len() as int) =~= other.entries@);
        r
    }

    /// Whether the two maps are equal.
    pub fn same_as(&self, other: &IncludeMap) -> (r: bool)
        ensures
            r == (self@ == other@),
    {
        proof {
            use_type_invariant(self);
            use_type_invariant(other);
        }
        let mut i: usize = 0;
        while i < self.entries.len()
            invariant
                0 <= i <= self.entries@.len(),
                keys_distinct(self.entries@),
                forall|j: int|
                    0 <= j < i ==> other@.contains_key((#[trigger] self.entries@[j]).0@)
                        && other@[self.entries@[j].0@] == self.entries@[j].1,
            decreases self.entries@.len() - i,
        {
            proof {
                lemma_entries_map_at(self.entries@, i as int);
            }
            match other.get(&self.entries[i].0) {
                Option::Some(v) => {
                    if !v.same_as(&self.entries[i].1) {
                        return false;
                    }
                },
                Option::None => {
                    return false;
                },
            }
            i += 1;
        }
        let mut j: usize = 0;
        while j < other.entries.len()
            invariant
                0 <= j <= other.entries@.len(),
                keys_distinct(other.entries@),
                forall|k: int| 0 <= k < j ==> self@.contains_key((#[trigger] other.entries@[k]).0@),
            decreases other.entries@.len() - j,
        {
            proof {
                lemma_entries_map_at(other.entries@, j as int);
            }
            if self.index_of(&other.entries[j].0).is_none() {
                assert(!self@.contains_key(other.entries@[j as int].0@));
                return false;
            }
            j += 1;
        }
        assert forall|k: Seq<char>| self@.contains_key(k) implies other@.contains_key(k)
            && other@[k] == self@[k] by {
            let a = choose|a: int| 0 <= a < self.entries@.len() && (#[trigger] self.entries@[a]).0@ == k;
            lemma_entries_map_at(self.entries@, a);
        }
        assert forall|k: Seq<char>| other@.contains_key(k) implies self@.contains_key(k) by {
            let a = choose|a: int| 0 <= a < other.entries@.len() && (#[trigger] other.entries@[a]).0@ == k;
        }
        assert(self@ =~= other@);
        true
    }

    /// A copy of this map.
    pub fn duplicate(&self) -> (r: IncludeMap)
        ensures
            r@ == self@,
    {
        proof {
            use_type_invariant(self);
        }
        let mut r = IncludeMap::new();
        let mut i: usize = 0;
        assert(entries_map(self.entries@.subrange(0, 0)) =~= Map::<Seq<char>, Include>::empty());
        while i < self.entries.len()
            invariant
                0 <= i <= self.entries@.len(),
                keys_distinct(self.entries@),
                r@ == entries_map(self.entries@.subrange(0, i as int)),
            decreases self.entries@.len() - i,
        {
            let k = self.entries[i].0.clone();
            let v = self.entries[i].1;
            r = r.insert(k, v);
            proof {
                let s = self.entries@;
                let pre = s.subrange(0, i as int);
                assert(!has_key(pre, s[i as int].0@)) by {
                    if has_key(pre, s[i as int].0@) {
                        let j = choose|j: int| 0 <= j < pre.len() && (#[trigger] pre[j]).0@ == s[i as int].0@;
                        assert(pre[j] == s[j]);
                    }
                }
                assert(s.subrange(0, i + 1) =~= pre.push(s[i as int]));
                lemma_entries_map_push(pre, s[i as int].0, s[i as int].1);
            }
            i += 1;
        }
        assert(self.entries@.subrange(0, self.entries@.len() as int) =~= self.entries@);
        r
    }
}

/// The paths of a vector, in order.
pub open spec fn path_seq(v: Seq<String>) -> Seq<Seq<char>> {
    v.map_values(|s: String| s@)
}

/// Whether the two vectors hold the same paths in the same order.
pub fn same_paths(a: &Vec<String>, b: &Vec<String>) -> (r: bool)
    ensures
        r == (path_seq(a@) == path_seq(b@)),
{
    if a.len() != b.len() {
        assert(path_seq(a@).len() != path_seq(b@).len());
        return false;
    }
    let mut i: usize = 0;
    while i < a.len()
        invariant
            0 <= i <= a@.len(),
            a@.len() == b@.len(),
            forall|k: int| 0 <= k < i ==> (#[trigger] a@[k])@ == b@[k]@,
        decreases a@.len() - i,
    {
        if a[i] != b[i] {
            assert(path_seq(a@)[i as int] != path_seq(b@)[i as int]);
            return false;
        }
        i += 1;
    }
    assert(path_seq(a@) =~= path_seq(b@));
    true
}

/// A copy of a vector of paths.
pub fn copy_paths(a: &Vec<String>) -> (r: Vec<String>)
    ensures
        r@ == a@,
{
    let r = a.clone();
    assert(r@ =~= a@);
    r
}

/// The SOA record of a snapshot, with its text fields as character
/// sequences.
pub struct SoaView {
    pub ttl: Seq<char>,
    pub mname: Seq<char>,
    pub rname: Seq<char>,
    pub serial: u32,
    pub refresh: Seq<char>,
    pub retry: Seq<char>,
    pub expire: Seq<char>,
    pub minimum: Seq<char>,
}

/// The SOA record of a zone snapshot.
#[derive(Clone, Debug, PartialEq, Eq)]
pub struct Soa {
    pub ttl: String,
    pub mname: String,
    pub rname: String,
    pub serial: u32,
    pub refresh: String,
    pub retry: String,
    pub expire: String,
    pub minimum: String,
}

impl View for Soa {
    type V = SoaView;

    open spec fn view(&self) -> SoaView {
        SoaView {
            ttl: self.ttl@,
            mname: self.mname@,
            rname: self.rname@,
            serial: self.serial,
            refresh: self.refresh@,
            retry: self.retry@,
            expire: self.expire@,
            minimum: self.minimum@,
        }
    }
}

impl Soa {
    /// Whether the two records are equal, serial included.
    pub fn same_as(&self, other: &Soa) -> (r: bool)
        ensures
            r == (self@ == other@),
    {
        self.ttl == other.ttl && self.mname == other.mname && self.rname == other.rname
            && self.serial == other.serial && self.refresh == other.refresh && self.retry
            == other.retry && self.expire == other.expire && self.minimum == other.minimum
    }

    /// A copy of this record.
    pub fn duplicate(&self) -> (r: Soa)
        ensures
            r@ == self@,
    {
        Soa {
            ttl: self.ttl.clone(),
            mname: self.mname.clone(),
            rname: self.rname.clone(),
            serial: self.serial,
            refresh: self.refresh.clone(),
            retry: self.retry.clone(),
            expire: self.expire.clone(),
            minimum: self.minimum.clone(),
        }
    }
}

/// A zone snapshot, with its text fields as character sequences and its
/// includes as a map.
pub struct ZoneView {
    pub name: Seq<char>,
    pub dir: Seq<char>,
    pub ttl: Seq<char>,
    pub includes: Map<Seq<char>, Include>,
    pub includes_ordered: Seq<Seq<char>>,
    pub soa: SoaView,
}

/// A zone snapshot: everything the zone file is generated from.
/// `includes_ordered` keeps the includes in the order of the configuration,
/// which is the order of the zone file.
#[derive(Clone, Debug, PartialEq, Eq)]
pub struct Zone {
    pub name: String,
    pub dir: String,
    pub ttl: String,
    pub includes: IncludeMap,
    pub includes_ordered: Vec<String>,
    pub soa: Soa,
}

impl View for Zone {
    type V = ZoneView;

    open spec fn view(&self) -> ZoneView {
        ZoneView {
            name: self.name@,
            dir: self.dir@,
            ttl: self.ttl@,
            includes: self.includes@,
            includes_ordered: path_seq(self.includes_ordered@),
            soa: self.soa@,
        }
    }
}

impl Zone {
    /// The map holds exactly the paths of `includes_ordered`, as every
    /// committed snapshot does.
    pub open spec fn consistent(&self) -> bool {
        self.includes@.dom() == path_set(self.includes_ordered@)
    }

    /// Whether the two snapshots are equal in every field.
    pub fn same_as(&self, other: &Zone) -> (r: bool)
        ensures
            r == (self@ == other@),
    {
        self.name == other.name && self.dir == other.dir && self.ttl == other.ttl
            && self.includes.same_as(&other.includes) && same_paths(
            &self.includes_ordered,
            &other.includes_ordered,
        ) && self.soa.same_as(&other.soa)
    }
}

impl PartialEq for IncludeMap {
    fn eq(&self, other: &IncludeMap) -> (r: bool) {
        self.same_as(other)
    }
}

impl vstd::std_specs::cmp::PartialEqSpecImpl for IncludeMap {
    open spec fn obeys_eq_spec() -> bool {
        true
    }

    open spec fn eq_spec(&self, other: &IncludeMap) -> bool {
        self@ == other@
    }
}

impl Eq for IncludeMap {

}

impl Clone for IncludeMap {
    fn clone(&self) -> (r: IncludeMap)
        ensures
            r@ == self@,
    {
        self.duplicate()
    }
}

} // verus!

//! Change sets (which watched paths may have changed content) and the
//! classification of file-system notifications into change sets.

use vstd::prelude::*;

verus! {

/// What a run of notifications says about the watched paths, as a value of
/// the lattice `Unchanged ⊑ Changed(s) ⊑ Rescan`.
pub enum ChangeSet {
    Unchanged,
    Changed(Set<Seq<char>>),
    Rescan,
}

/// Join of two change sets in that lattice.
pub open spec fn join(a: ChangeSet, b: ChangeSet) -> ChangeSet {
    match (a, b) {
        (ChangeSet::Rescan, _) => ChangeSet::Rescan,
        (_, ChangeSet::Rescan) => ChangeSet::Rescan,
        (ChangeSet::Unchanged, x) => x,
        (x, ChangeSet::Unchanged) => x,
        (ChangeSet::Changed(s), ChangeSet::Changed(t)) => ChangeSet::Changed(s.union(t)),
    }
}

/// The change set for the paths in both `watched` and `reported`: nothing
/// when no path is in both.
pub open spec fn intersect_changes(watched: Set<Seq<char>>, reported: Set<Seq<char>>) -> ChangeSet {
    let s = watched.intersect(reported);
    if s == Set::<Seq<char>>::empty() {
        ChangeSet::Unchanged
    } else {
        ChangeSet::Changed(s)
    }
}

/// The paths of a vector, as a set.
pub open spec fn path_set(v: Seq<String>) -> Set<Seq<char>> {
    Set::new(|p: Seq<char>| exists|i: int| 0 <= i < v.len() && (#[trigger] v[i])@ == p)
}

/// No path occurs twice in `v`.
pub open spec fn distinct_paths(v: Seq<String>) -> bool {
    forall|i: int, j: int|
        0 <= i < v.len() && 0 <= j < v.len() && i != j ==> (#[trigger] v[i])@ != (#[trigger] v[j])@
}

pub proof fn lemma_path_set_push(v: Seq<String>, s: String)
    ensures
        path_set(v.push(s)) == path_set(v).insert(s@),
{
    let w = v.push(s);
    assert forall|p: Seq<char>| path_set(w).contains(p) <==> path_set(v).insert(s@).contains(p) by {
        if path_set(v).contains(p) {
            let i = choose|i: int| 0 <= i < v.len() && (#[trigger] v[i])@ == p;
            assert(w[i] == v[i]);
        }
        if p == s@ {
            assert(w[v.len() as int] == s);
        }
        if path_set(w).contains(p) {
            let i = choose|i: int| 0 <= i < w.len() && (#[trigger] w[i])@ == p;
            if i < v.len() {
                assert(w[i] == v[i]);
            }
        }
    }
    assert(path_set(w) =~= path_set(v).insert(s@));
}

pub proof fn lemma_path_set_prefix(v: Seq<String>, i: int)
    requires
        0 <= i < v.len(),
    ensures
        path_set(v.subrange(0, i + 1)) == path_set(v.subrange(0, i)).insert(v[i]@),
{
    assert(v.subrange(0, i + 1) =~= v.subrange(0, i).push(v[i]));
    lemma_path_set_push(v.subrange(0, i), v[i]);
}

pub proof fn lemma_path_set_empty(v: Seq<String>)
    ensures
        (path_set(v) == Set::<Seq<char>>::empty()) <==> v.len() == 0,
{
    if v.len() == 0 {
        assert(path_set(v) =~= Set::<Seq<char>>::empty());
    } else {
        assert(path_set(v).contains(v[0]@));
    }
}

/// Whether `p` is one of the paths of `v`.
pub fn contains_path(v: &Vec<String>, p: &String) -> (r: bool)
    ensures
        r == path_set(v@).contains(p@),
{
    let mut i: usize = 0;
    while i < v.len()
        invariant
            0 <= i <= v.len(),
            forall|k: int| 0 <= k < i ==> (#[trigger] v@[k])@ != p@,
        decreases v.len() - i,
    {
        if v[i] == *p {
            assert(v@[i as int]@ == p@);
            return true;
        }
        i += 1;
    }
    false
}

/// Appends to `v` each path of `extra` that it does not hold yet.
fn extend_paths(v: &mut Vec<String>, extra: &Vec<String>)
    requires
        distinct_paths(old(v)@),
    ensures
        distinct_paths(final(v)@),
        path_set(final(v)@) == path_set(old(v)@).union(path_set(extra@)),
{
    let ghost v0 = v@;
    let mut i: usize = 0;
    assert(path_set(extra@.subrange(0, 0)) =~= Set::<Seq<char>>::empty());
    assert(path_set(v@) =~= path_set(v0).union(Set::<Seq<char>>::empty()));
    while i < extra.len()
        invariant
            0 <= i <= extra.len(),
            distinct_paths(v@),
            path_set(v@) == path_set(v0).union(path_set(extra@.subrange(0, i as int))),
        decreases extra.len() - i,
    {
        let p = &extra[i];
        proof {
            lemma_path_set_prefix(extra@, i as int);
        }
        if !contains_path(v, p) {
            let ghost before = v@;
            proof {
                lemma_path_set_push(before, *p);
            }
            v.push(p.clone());
            assert forall|a: int, b: int|
                0 <= a < v@.len() && 0 <= b < v@.len() && a != b implies (#[trigger] v@[a])@ != (
                #[trigger] v@[b])@ by {
                if a < before.len() && b < before.len() {
                    assert(v@[a] == before[a] && v@[b] == before[b]);
                } else if a < before.len() {
                    assert(v@[a] == before[a]);
                    assert(path_set(before).contains(before[a]@));
                } else if b < before.len() {
                    assert(v@[b] == before[b]);
                    assert(path_set(before).contains(before[b]@));
                }
            }
        }
        assert(path_set(v@) =~= path_set(v0).union(path_set(extra@.subrange(0, i + 1))));
        i += 1;
    }
    assert(extra@.subrange(0, extra.len() as int) =~= extra@);
}

/// A change set: nothing changed, these paths may have changed, or every
/// path must be treated as changed.
#[derive(Debug, PartialEq, Eq)]
pub enum Changes {
    Nothing,
    Paths(Vec<String>),
    All,
}

impl View for Changes {
    type V = ChangeSet;

    open spec fn view(&self) -> ChangeSet {
        match self {
            Changes::Nothing => ChangeSet::Unchanged,
            Changes::Paths(v) => ChangeSet::Changed(path_set(v@)),
            Changes::All => ChangeSet::Rescan,
        }
    }
}

impl Changes {
    /// The paths of a `Paths` change set occur once each.
    pub open spec fn wf(&self) -> bool {
        self matches Changes::Paths(v) ==> distinct_paths(v@)
    }

    /// Adds the paths of `iter` to this change set.
    pub fn add(self, iter: Vec<String>) -> (r: Changes)
        requires
            self.wf(),
        ensures
            r.wf(),
            r@ == join(self@, ChangeSet::Changed(path_set(iter@))),
    {
        match self {
            Changes::All => Changes::All,
            Changes::Paths(v) => {
                let mut v = v;
                extend_paths(&mut v, &iter);
                Changes::Paths(v)
            },
            Changes::Nothing => {
                let mut v: Vec<String> = Vec::new();
                extend_paths(&mut v, &iter);
                assert(path_set(Seq::<String>::empty()) =~= Set::<Seq<char>>::empty());
                assert(path_set(v@) =~= path_set(iter@));
                Changes::Paths(v)
            },
        }
    }

    /// The join of this change set and `new_changes`.
    pub fn union(self, new_changes: Changes) -> (r: Changes)
        requires
            self.wf(),
            new_changes.wf(),
        ensures
            r.wf(),
            r@ == join(self@, new_changes@),
    {
        match new_changes {
            Changes::All => Changes::All,
            Changes::Paths(v) => self.add(v),
            Changes::Nothing => {
                assert(join(self@, ChangeSet::Unchanged) == self@);
                self
            },
        }
    }
}

/// Union of change sets is associative.
pub proof fn lemma_join_associative(a: ChangeSet, b: ChangeSet, c: ChangeSet)
    ensures
        join(join(a, b), c) == join(a, join(b, c)),
{
    if let (ChangeSet::Changed(s), ChangeSet::Changed(t), ChangeSet::Changed(u)) = (a, b, c) {
        assert(s.union(t).union(u) =~= s.union(t.union(u)));
    }
}

/// Union of change sets is commutative.
pub proof fn lemma_join_commutative(a: ChangeSet, b: ChangeSet)
    ensures
        join(a, b) == join(b, a),
{
    if let (ChangeSet::Changed(s), ChangeSet::Changed(t)) = (a, b) {
        assert(s.union(t) =~= t.union(s));
    }
}

/// A full rescan absorbs any change set, and "nothing changed" is the
/// identity of union.
pub proof fn lemma_join_rescan_absorbs_unchanged_identity(x: ChangeSet)
    ensures
        join(ChangeSet::Rescan, x) == ChangeSet::Rescan,
        join(x, ChangeSet::Rescan) == ChangeSet::Rescan,
        join(ChangeSet::Unchanged, x) == x,
        join(x, ChangeSet::Unchanged) == x,
{
}

} // verus!

//! The pointer table: a map from JSON Pointer strings to the locations
//! recorded for that pointer, stored as an association list with pairwise
//! distinct keys and viewed as a mathematical map.

use vstd::prelude::*;

use vstd::string::StringExecFns;

use crate::model::{tbl_lm, tbl_set, SpecTable};
use crate::text::str_eq;
use crate::types::{Location, LocationMap, Prop};

verus! {

/// The map an association list denotes (later entries would win, but the
/// table keeps its keys distinct).
pub open spec fn map_of(es: Seq<(String, LocationMap)>) -> SpecTable
    decreases es.len(),
{
    if es.len() == 0 {
        Map::empty()
    } else {
        map_of(es.drop_last()).insert(es.last().0@, es.last().1)
    }
}

/// All keys of the association list are pairwise distinct.
pub open spec fn keys_unique(es: Seq<(String, LocationMap)>) -> bool {
    forall|i: int, j: int| 0 <= i < j < es.len() ==> es[i].0@ != es[j].0@
}

proof fn lemma_map_of_contains(es: Seq<(String, LocationMap)>, k: Seq<char>)
    ensures
        map_of(es).contains_key(k) <==> exists|i: int| 0 <= i < es.len() && es[i].0@ == k,
    decreases es.len(),
{
    if es.len() > 0 {
        let dl = es.drop_last();
        lemma_map_of_contains(dl, k);
        if es.last().0@ == k {
            assert(es[es.len() - 1].0@ == k);
        } else if map_of(es).contains_key(k) {
            let i = choose|i: int| 0 <= i < dl.len() && dl[i].0@ == k;
            assert(es[i].0@ == k);
        } else {
            assert forall|i: int| 0 <= i < es.len() implies es[i].0@ != k by {
                if i < es.len() - 1 {
                    assert(dl[i] == es[i]);
                }
            }
        }
    }
}

proof fn lemma_map_of_index(es: Seq<(String, LocationMap)>, k: Seq<char>, i: int)
    requires
        keys_unique(es),
        0 <= i < es.len(),
        es[i].0@ == k,
    ensures
        map_of(es).contains_key(k),
        map_of(es)[k] == es[i].1,
    decreases es.len(),
{
    let dl = es.drop_last();
    if i == es.len() - 1 {
    } else {
        assert(dl[i] == es[i]);
        lemma_map_of_index(dl, k, i);
        assert(es.last().0@ != k);
    }
}

proof fn lemma_map_of_update(es: Seq<(String, LocationMap)>, i: int, p: (String, LocationMap))
    requires
        keys_unique(es),
        0 <= i < es.len(),
        p.0@ == es[i].0@,
    ensures
        map_of(es.update(i, p)) == map_of(es).insert(p.0@, p.1),
        keys_unique(es.update(i, p)),
    decreases es.len(),
{
    let k = p.0@;
    let upd = es.update(i, p);
    assert(keys_unique(upd));
    if i == es.len() - 1 {
        assert(upd.drop_last() =~= es.drop_last());
        assert(upd.last() == p);
        assert(map_of(upd) =~= map_of(es).insert(k, p.1));
    } else {
        let dl = es.drop_last();
        assert(upd.drop_last() =~= dl.update(i, p));
        assert(upd.last() == es.last());
        assert(dl[i] == es[i]);
        lemma_map_of_update(dl, i, p);
        assert(es[i].0@ != es[es.len() - 1].0@);
        assert(map_of(upd) == map_of(dl).insert(k, p.1).insert(es.last().0@, es.last().1));
        assert(map_of(upd) =~= map_of(es).insert(k, p.1));
    }
}

proof fn lemma_map_of_push(es: Seq<(String, LocationMap)>, p: (String, LocationMap))
    ensures
        map_of(es.push(p)) == map_of(es).insert(p.0@, p.1),
    decreases es.len(),
{
    assert(es.push(p).drop_last() =~= es);
    assert(es.push(p).last() == p);
}

/// A map from JSON Pointer (RFC 6901) strings to the source locations
/// recorded for that pointer. Keys are unique per parse; insertion order
/// carries no meaning.
#[derive(Debug, Clone, PartialEq)]
pub struct PointerTable {
    entries: Vec<(String, LocationMap)>,
}

impl View for PointerTable {
    type V = SpecTable;

    closed spec fn view(&self) -> SpecTable {
        map_of(self.entries@)
    }
}

impl PointerTable {
    /// The association list's keys are pairwise distinct.
    pub closed spec fn wf(&self) -> bool {
        keys_unique(self.entries@)
    }

    pub(crate) fn new() -> (t: PointerTable)
        ensures
            t@ == Map::<Seq<char>, LocationMap>::empty(),
            t.wf(),
    {
        PointerTable { entries: Vec::new() }
    }

    /// The locations recorded for the pointer `ptr`, if that pointer names
    /// a node of the parsed document.
    pub fn get(&self, ptr: &str) -> (r: Option<&LocationMap>)
        requires
            self.wf(),
        ensures
            match r {
                Some(lm) => self@.contains_key(ptr@) && *lm == self@[ptr@],
                None => !self@.contains_key(ptr@),
            },
    {
        let n = self.entries.len();
        let mut i: usize = 0;
        while i < n
            invariant
                self.wf(),
                n == self.entries@.len(),
                i <= n,
                forall|j: int| 0 <= j < i ==> self.entries@[j].0@ != ptr@,
            decreases n - i,
        {
            if str_eq(self.entries[i].0.as_str(), ptr) {
                proof {
                    lemma_map_of_index(self.entries@, ptr@, i as int);
                }
                return Some(&self.entries[i].1);
            }
            i += 1;
        }
        proof {
            lemma_map_of_contains(self.entries@, ptr@);
        }
        None
    }

    /// Record `loc` in role `prop` for pointer `ptr`.
    pub(crate) fn set(&mut self, ptr: &str, prop: Prop, loc: Location)
        requires
            old(self).wf(),
        ensures
            final(self).wf(),
            final(self)@ == tbl_set(old(self)@, ptr@, prop, loc),
    {
        let n = self.entries.len();
        let mut i: usize = 0;
        while i < n
            invariant
                self.wf(),
                *self == *old(self),
                n == self.entries@.len(),
                i <= n,
                forall|j: int| 0 <= j < i ==> self.entries@[j].0@ != ptr@,
            decreases n - i,
        {
            if str_eq(self.entries[i].0.as_str(), ptr) {
                let k = self.entries[i].0.clone();
                let mut lm = self.entries[i].1;
                proof {
                    lemma_map_of_index(self.entries@, ptr@, i as int);
                }
                lm.insert(prop, loc);
                let ghost pre = self.entries@;
                let ghost gp = (k, lm);
                self.entries[i] = (k, lm);
                proof {
                    lemma_map_of_update(pre, i as int, gp);
                }
                return;
            }
            i += 1;
        }
        proof {
            lemma_map_of_contains(self.entries@, ptr@);
        }
        let mut lm = LocationMap::empty();
        lm.insert(prop, loc);
        let key = String::from_str(ptr);
        let ghost pre = self.entries@;
        let ghost gp = (key, lm);
        self.entries.push((key, lm));
        proof {
            lemma_map_of_push(pre, gp);
            assert(keys_unique(self.entries@));
        }
    }
}

} // verus!

//! A map from byte strings to byte strings, held in memory.
use crate::data::bytes::{bytes_eq, push_all};
use vstd::prelude::*;

verus! {

/// The map that a list of records without repeated keys stands for.
pub open spec fn map_of(s: Seq<(Seq<u8>, Seq<u8>)>) -> Map<Seq<u8>, Seq<u8>>
    decreases s.len(),
{
    if s.len() == 0 {
        Map::empty()
    } else {
        map_of(s.drop_last()).insert(s.last().0, s.last().1)
    }
}

/// No key occurs twice in `s`.
pub open spec fn distinct_keys(s: Seq<(Seq<u8>, Seq<u8>)>) -> bool {
    forall|i: int, j: int| 0 <= i < j < s.len() ==> s[i].0 != s[j].0
}

/// The keys of the map are the keys in the list, and a key maps to the value
/// listed with it.
pub proof fn lemma_map_of(s: Seq<(Seq<u8>, Seq<u8>)>)
    requires
        distinct_keys(s),
    ensures
        forall|k: Seq<u8>|
            map_of(s).contains_key(k) <==> exists|i: int| 0 <= i < s.len() && #[trigger] s[i].0 == k,
        forall|i: int|
            0 <= i < s.len() ==> map_of(s).contains_key(#[trigger] s[i].0) && map_of(s)[s[i].0]
                == s[i].1,
        map_of(s).dom().finite(),
        map_of(s).dom().len() == s.len(),
    decreases s.len(),
{
    if s.len() > 0 {
        let t = s.drop_last();
        let last = s.last();
        assert(distinct_keys(t)) by {
            assert forall|i: int, j: int| 0 <= i < j < t.len() implies t[i].0 != t[j].0 by {
                assert(t[i] == s[i] && t[j] == s[j]);
            }
        }
        lemma_map_of(t);
        assert(!map_of(t).contains_key(last.0)) by {
            if map_of(t).contains_key(last.0) {
                let i = choose|i: int| 0 <= i < t.len() && #[trigger] t[i].0 == last.0;
                assert(s[i] == t[i]);
                assert(s[s.len() - 1] == last);
            }
        }
        assert forall|k: Seq<u8>|
            map_of(s).contains_key(k) <==> exists|i: int|
                0 <= i < s.len() && #[trigger] s[i].0 == k by {
            if map_of(s).contains_key(k) {
                if k == last.0 {
                    assert(s[s.len() - 1].0 == k);
                } else {
                    let i = choose|i: int| 0 <= i < t.len() && #[trigger] t[i].0 == k;
                    assert(s[i].0 == k);
                }
            }
            if exists|i: int| 0 <= i < s.len() && #[trigger] s[i].0 == k {
                let i = choose|i: int| 0 <= i < s.len() && #[trigger] s[i].0 == k;
                if i < t.len() {
                    assert(t[i].0 == k);
                }
            }
        }
        assert forall|i: int| 0 <= i < s.len() implies map_of(s).contains_key(#[trigger] s[i].0)
            && map_of(s)[s[i].0] == s[i].1 by {
            if i < t.len() {
                assert(t[i] == s[i]);
                assert(s[i].0 != last.0);
            }
        }
        assert(map_of(s).dom() =~= map_of(t).dom().insert(last.0));
    } else {
        assert(map_of(s).dom() =~= Set::empty());
    }
}

/// Taking a record out of the list takes its key out of the map.
pub proof fn lemma_map_of_remove(s: Seq<(Seq<u8>, Seq<u8>)>, at: int)
    requires
        distinct_keys(s),
        0 <= at < s.len(),
    ensures
        distinct_keys(s.remove(at)),
        map_of(s.remove(at)) == map_of(s).remove(s[at].0),
{
    let r = s.remove(at);
    assert(distinct_keys(r)) by {
        assert forall|i: int, j: int| 0 <= i < j < r.len() implies r[i].0 != r[j].0 by {
            let si = if i < at { i } else { i + 1 };
            let sj = if j < at { j } else { j + 1 };
            assert(r[i] == s[si] && r[j] == s[sj]);
        }
    }
    lemma_map_of(s);
    lemma_map_of(r);
    assert forall|k: Seq<u8>| map_of(r).contains_key(k) <==> map_of(s).remove(
        s[at].0,
    ).contains_key(k) by {
        if map_of(r).contains_key(k) {
            let i = choose|i: int| 0 <= i < r.len() && #[trigger] r[i].0 == k;
            let si = if i < at { i } else { i + 1 };
            assert(r[i] == s[si]);
            assert(s[si].0 == k);
        }
        if map_of(s).remove(s[at].0).contains_key(k) {
            let i = choose|i: int| 0 <= i < s.len() && #[trigger] s[i].0 == k;
            let ri = if i < at { i } else { i - 1 };
            assert(r[ri] == s[i]);
            assert(r[ri].0 == k);
        }
    }
    assert forall|k: Seq<u8>| map_of(r).contains_key(k) implies map_of(r)[k] == map_of(s).remove(
        s[at].0,
    )[k] by {
        let i = choose|i: int| 0 <= i < r.len() && #[trigger] r[i].0 == k;
        let si = if i < at { i } else { i + 1 };
        assert(r[i] == s[si]);
        assert(s[si].0 == k);
    }
    assert(map_of(r) =~= map_of(s).remove(s[at].0));
}

/// Adding a record with a new key to the list adds it to the map.
pub proof fn lemma_map_of_push(s: Seq<(Seq<u8>, Seq<u8>)>, k: Seq<u8>, v: Seq<u8>)
    requires
        distinct_keys(s),
        !map_of(s).contains_key(k),
    ensures
        distinct_keys(s.push((k, v))),
        map_of(s.push((k, v))) == map_of(s).insert(k, v),
{
    let p = s.push((k, v));
    lemma_map_of(s);
    assert(p.drop_last() =~= s);
    assert forall|i: int, j: int| 0 <= i < j < p.len() implies p[i].0 != p[j].0 by {
        if j == s.len() {
            assert(p[i] == s[i]);
            assert(s[i].0 != k);
        } else {
            assert(p[i] == s[i] && p[j] == s[j]);
        }
    }
}

/// The records of a list, as the byte strings they hold.
pub open spec fn records(entries: Seq<(Vec<u8>, Vec<u8>)>) -> Seq<(Seq<u8>, Seq<u8>)> {
    entries.map_values(|e: (Vec<u8>, Vec<u8>)| (e.0@, e.1@))
}

/// Position of the record with the key `key`, if there is one.
fn position(entries: &Vec<(Vec<u8>, Vec<u8>)>, key: &[u8]) -> (r: Option<usize>)
    ensures
        match r {
            Some(i) => i < entries@.len() && records(entries@)[i as int].0 == key@,
            None => forall|i: int|
                0 <= i < entries@.len() ==> (#[trigger] records(entries@)[i]).0 != key@,
        },
{
    let mut i: usize = 0;
    while i < entries.len()
        invariant
            i <= entries@.len(),
            forall|j: int| 0 <= j < i ==> (#[trigger] records(entries@)[j]).0 != key@,
        decreases entries@.len() - i,
    {
        if bytes_eq(entries[i].0.as_slice(), key) {
            return Some(i);
        }
        i += 1;
    }
    None
}

/// A map from byte strings to byte strings. It holds each key once.
pub struct ByteMap {
    entries: Vec<(Vec<u8>, Vec<u8>)>,
}

impl ByteMap {
    #[verifier::type_invariant]
    spec fn well_formed(&self) -> bool {
        distinct_keys(records(self.entries@))
    }

    /// The map this value stands for.
    pub closed spec fn view(&self) -> Map<Seq<u8>, Seq<u8>> {
        map_of(records(self.entries@))
    }

    /// The empty map.
    pub fn new() -> (m: ByteMap)
        ensures
            m@ == Map::<Seq<u8>, Seq<u8>>::empty(),
    {
        let m = ByteMap { entries: Vec::new() };
        assert(records(m.entries@) =~= Seq::empty());
        m
    }

    /// Number of records.
    pub fn len(&self) -> (n: usize)
        ensures
            self@.dom().finite(),
            n == self@.dom().len(),
    {
        proof {
            use_type_invariant(self);
            lemma_map_of(records(self.entries@));
        }
        self.entries.len()
    }

    /// A copy of the value stored under `key`, if there is one.
    pub fn get(&self, key: &[u8]) -> (r: Option<Vec<u8>>)
        ensures
            match r {
                Some(v) => self@.contains_key(key@) && self@[key@] == v@,
                None => !self@.contains_key(key@),
            },
    {
        proof {
            use_type_invariant(self);
            lemma_map_of(records(self.entries@));
        }
        match position(&self.entries, key) {
            Some(i) => {
                let mut out: Vec<u8> = Vec::new();
                push_all(&mut out, self.entries[i].1.as_slice());
                assert(out@ =~= records(self.entries@)[i as int].1);
                Some(out)
            },
            None => None,
        }
    }

    /// Whether a value is stored under `key`.
    pub fn contains_key(&self, key: &[u8]) -> (r: bool)
        ensures
            r == self@.contains_key(key@),
    {
        proof {
            use_type_invariant(self);
            lemma_map_of(records(self.entries@));
        }
        position(&self.entries, key).is_some()
    }

    /// Stores `val` under `key`, in place of what was there.
    pub fn insert(&mut self, key: &[u8], val: &[u8])
        ensures
            final(self)@ == old(self)@.insert(key@, val@),
    {
        proof {
            use_type_invariant(&*self);
        }
        let mut entries: Vec<(Vec<u8>, Vec<u8>)> = Vec::new();
        assert(records(entries@) =~= Seq::empty());
        std::mem::swap(&mut entries, &mut self.entries);
        let ghost before = records(entries@);
        match position(&entries, key) {
            Some(i) => {
                entries.remove(i);
                proof {
                    assert(records(entries@) =~= before.remove(i as int));
                    lemma_map_of_remove(before, i as int);
                }
            },
            None => {
                proof {
                    lemma_map_of(before);
                }
            },
        }
        let ghost middle = records(entries@);
        let mut k: Vec<u8> = Vec::new();
        push_all(&mut k, key);
        let mut v: Vec<u8> = Vec::new();
        push_all(&mut v, val);
        entries.push((k, v));
        proof {
            assert(k@ =~= key@ && v@ =~= val@);
            assert(records(entries@) =~= middle.push((key@, val@)));
            lemma_map_of_push(middle, key@, val@);
            assert(map_of(before).remove(key@).insert(key@, val@) =~= map_of(before).insert(
                key@,
                val@,
            ));
        }
        self.entries = entries;
    }

    /// Removes the record under `key`. Says whether there was one.
    pub fn remove(&mut self, key: &[u8]) -> (found: bool)
        ensures
            found == old(self)@.contains_key(key@),
            final(self)@ == old(self)@.remove(key@),
    {
        proof {
            use_type_invariant(&*self);
        }
        let mut entries: Vec<(Vec<u8>, Vec<u8>)> = Vec::new();
        assert(records(entries@) =~= Seq::empty());
        std::mem::swap(&mut entries, &mut self.entries);
        let ghost before = records(entries@);
        proof {
            lemma_map_of(before);
        }
        let found = match position(&entries, key) {
            Some(i) => {
                entries.remove(i);
                proof {
                    assert(records(entries@) =~= before.remove(i as int));
                    lemma_map_of_remove(before, i as int);
                }
                true
            },
            None => {
                proof {
                    assert(map_of(before).remove(key@) =~= map_of(before));
                }
                false
            },
        };
        self.entries = entries;
        found
    }
}

} // verus!

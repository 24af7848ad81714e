//! The device entries of the daemon, keyed by serial number.
use vstd::prelude::*;

use crate::device::{DeviceEntry, DeviceEntryView};
use crate::text::str_eq;

verus! {

/// The map that a list of (serial, entry) pairs stands for: a later pair
/// overrides an earlier one with the same serial.
pub open spec fn pairs_map(s: Seq<(Seq<char>, DeviceEntryView)>) -> Map<
    Seq<char>,
    DeviceEntryView,
>
    decreases s.len(),
{
    if s.len() == 0 {
        Map::empty()
    } else {
        pairs_map(s.drop_last()).insert(s.last().0, s.last().1)
    }
}

/// No serial occurs twice.
pub open spec fn keys_distinct(s: Seq<(Seq<char>, DeviceEntryView)>) -> bool {
    forall|i: int, j: int| 0 <= i < j < s.len() ==> s[i].0 != s[j].0
}

/// A serial is in the map exactly when some pair carries it.
pub proof fn lemma_pairs_map_dom(s: Seq<(Seq<char>, DeviceEntryView)>, k: Seq<char>)
    ensures
        pairs_map(s).dom().contains(k) <==> exists|i: int| 0 <= i < s.len() && #[trigger] s[i].0
            == k,
    decreases s.len(),
{
    if s.len() > 0 {
        let t = s.drop_last();
        lemma_pairs_map_dom(t, k);
        if exists|i: int| 0 <= i < t.len() && #[trigger] t[i].0 == k {
            let i = choose|i: int| 0 <= i < t.len() && #[trigger] t[i].0 == k;
            assert(s[i].0 == k);
        }
        if exists|i: int| 0 <= i < s.len() && #[trigger] s[i].0 == k {
            let i = choose|i: int| 0 <= i < s.len() && #[trigger] s[i].0 == k;
            if i < t.len() {
                assert(t[i].0 == k);
            }
        }
    }
}

/// With distinct serials, each pair gives the map's value for its serial.
pub proof fn lemma_pairs_map_value(s: Seq<(Seq<char>, DeviceEntryView)>, i: int)
    requires
        keys_distinct(s),
        0 <= i < s.len(),
    ensures
        pairs_map(s).dom().contains(s[i].0),
        pairs_map(s)[s[i].0] == s[i].1,
    decreases s.len(),
{
    let t = s.drop_last();
    if i < s.len() - 1 {
        assert(t[i] == s[i]);
        assert(keys_distinct(t));
        lemma_pairs_map_value(t, i);
        assert(s.last().0 != s[i].0);
    }
}

/// With distinct serials, replacing the entry of pair `i` sets the map's
/// value for its serial.
pub proof fn lemma_pairs_map_update(
    s: Seq<(Seq<char>, DeviceEntryView)>,
    i: int,
    v: DeviceEntryView,
)
    requires
        keys_distinct(s),
        0 <= i < s.len(),
    ensures
        pairs_map(s.update(i, (s[i].0, v))) == pairs_map(s).insert(s[i].0, v),
    decreases s.len(),
{
    let u = s.update(i, (s[i].0, v));
    let t = s.drop_last();
    if i == s.len() - 1 {
        assert(u.drop_last() =~= t);
        assert(pairs_map(u) =~= pairs_map(s).insert(s[i].0, v));
    } else {
        assert(keys_distinct(t));
        assert(t[i] == s[i]);
        lemma_pairs_map_update(t, i, v);
        assert(u.drop_last() =~= t.update(i, (s[i].0, v)));
        assert(s.last().0 != s[i].0);
        assert(pairs_map(u) =~= pairs_map(s).insert(s[i].0, v));
    }
}

/// With distinct serials, the map has as many serials as there are pairs.
pub proof fn lemma_pairs_map_len(s: Seq<(Seq<char>, DeviceEntryView)>)
    requires
        keys_distinct(s),
    ensures
        pairs_map(s).dom().finite(),
        pairs_map(s).len() == s.len(),
    decreases s.len(),
{
    if s.len() > 0 {
        let t = s.drop_last();
        assert(keys_distinct(t));
        lemma_pairs_map_len(t);
        lemma_pairs_map_dom(t, s.last().0);
        if pairs_map(t).dom().contains(s.last().0) {
            let i = choose|i: int| 0 <= i < t.len() && #[trigger] t[i].0 == s.last().0;
            assert(s[i].0 == s[s.len() - 1].0);
        }
    }
}

/// The entries of the daemon, keyed by serial number, with no serial twice.
pub struct DeviceStats {
    entries: Vec<(String, DeviceEntry)>,
}

/// The pairs of a list of entries, texts taken as characters.
pub open spec fn pairs_of(v: Seq<(String, DeviceEntry)>) -> Seq<(Seq<char>, DeviceEntryView)> {
    v.map_values(|p: (String, DeviceEntry)| (p.0@, p.1@))
}

impl DeviceStats {
    /// The (serial, entry) pairs, in the order they are kept.
    pub closed spec fn pairs(&self) -> Seq<(Seq<char>, DeviceEntryView)> {
        pairs_of(self.entries@)
    }

    #[verifier::type_invariant]
    spec fn serials_distinct(&self) -> bool {
        keys_distinct(self.pairs())
    }
}

impl View for DeviceStats {
    type V = Map<Seq<char>, DeviceEntryView>;

    open spec fn view(&self) -> Map<Seq<char>, DeviceEntryView> {
        pairs_map(self.pairs())
    }
}

impl DeviceStats {
    /// No entries.
    pub fn new() -> (r: Self)
        ensures
            r@ == Map::<Seq<char>, DeviceEntryView>::empty(),
            r.pairs().len() == 0,
    {
        let r = DeviceStats { entries: Vec::new() };
        assert(r.pairs() =~= Seq::empty());
        r
    }

    /// The number of entries; also states that the pairs have distinct
    /// serials and that they make up the map.
    pub fn len(&self) -> (r: usize)
        ensures
            r == self.pairs().len(),
            r == self@.len(),
            self@.dom().finite(),
            keys_distinct(self.pairs()),
    {
        proof {
            use_type_invariant(self);
            lemma_pairs_map_len(self.pairs());
        }
        self.entries.len()
    }

    /// The position of the pair for `serial`, if there is one.
    pub fn find(&self, serial: &str) -> (r: Option<usize>)
        ensures
            match r {
                Some(i) => i < self.pairs().len() && self.pairs()[i as int].0 == serial@
                    && self@.dom().contains(serial@) && self@[serial@] == self.pairs()[i as int].1,
                None => !self@.dom().contains(serial@),
            },
    {
        proof {
            use_type_invariant(self);
        }
        let n = self.entries.len();
        let mut i: usize = 0;
        while i < n
            invariant
                i <= n == self.entries@.len(),
                keys_distinct(self.pairs()),
                forall|j: int| 0 <= j < i ==> self.pairs()[j].0 != serial@,
            decreases n - i,
        {
            if str_eq(self.entries[i].0.as_str(), serial) {
                proof {
                    lemma_pairs_map_value(self.pairs(), i as int);
                }
                return Some(i);
            }
            i = i + 1;
        }
        proof {
            lemma_pairs_map_dom(self.pairs(), serial@);
        }
        None
    }

    /// Whether there is an entry for `serial`.
    pub fn contains_key(&self, serial: &str) -> (r: bool)
        ensures
            r == self@.dom().contains(serial@),
    {
        self.find(serial).is_some()
    }

    /// The entry for `serial`, if there is one.
    pub fn get(&self, serial: &str) -> (r: Option<&DeviceEntry>)
        ensures
            match r {
                Some(e) => self@.dom().contains(serial@) && e@ == self@[serial@],
                None => !self@.dom().contains(serial@),
            },
    {
        match self.find(serial) {
            Some(i) => Some(&self.entries[i].1),
            None => None,
        }
    }

    /// The serial of pair `i`.
    pub fn key_at(&self, i: usize) -> (r: &String)
        requires
            i < self.pairs().len(),
        ensures
            r@ == self.pairs()[i as int].0,
    {
        &self.entries[i].0
    }

    /// The entry of pair `i`, which is the map's value for its serial.
    pub fn entry_at(&self, i: usize) -> (r: &DeviceEntry)
        requires
            i < self.pairs().len(),
        ensures
            r@ == self.pairs()[i as int].1,
            self@.dom().contains(self.pairs()[i as int].0),
            self@[self.pairs()[i as int].0] == r@,
    {
        proof {
            use_type_invariant(self);
            lemma_pairs_map_value(self.pairs(), i as int);
        }
        &self.entries[i].1
    }

    /// The pairs, in the order they are kept.
    pub fn entries(&self) -> (r: &[(String, DeviceEntry)])
        ensures
            pairs_of(r@) == self.pairs(),
    {
        self.entries.as_slice()
    }

    /// Sets the entry for `serial` to `entry`, adding it where there is none.
    pub fn insert(&mut self, serial: String, entry: DeviceEntry)
        ensures
            final(self)@ == old(self)@.insert(serial@, entry@),
    {
        proof {
            use_type_invariant(&*self);
        }
        let found = self.find(serial.as_str());
        let mut entries: Vec<(String, DeviceEntry)> = Vec::new();
        std::mem::swap(&mut entries, &mut self.entries);
        let ghost before = pairs_of(entries@);
        assert(before == old(self).pairs());
        match found {
            Some(i) => {
                entries.set(i, (serial, entry));
                proof {
                    assert(pairs_of(entries@) =~= before.update(i as int, (before[i as int].0, entry@)));
                    lemma_pairs_map_update(before, i as int, entry@);
                }
            },
            None => {
                entries.push((serial, entry));
                proof {
                    assert(pairs_of(entries@).drop_last() =~= before);
                    lemma_pairs_map_dom(before, serial@);
                    assert forall|a: int, b: int|
                        0 <= a < b < pairs_of(entries@).len() implies pairs_of(entries@)[a].0
                        != pairs_of(entries@)[b].0 by {
                        if b == before.len() {
                            assert(pairs_of(entries@)[a] == before[a]);
                        } else {
                            assert(pairs_of(entries@)[a] == before[a]);
                            assert(pairs_of(entries@)[b] == before[b]);
                        }
                    }
                }
            },
        }
        self.entries = entries;
    }

    /// The entries of `pairs`, taken in order, a later pair overriding an
    /// earlier one with the same serial.
    pub fn from_entries(pairs: Vec<(String, DeviceEntry)>) -> (r: Self)
        ensures
            r@ == pairs_map(pairs_of(pairs@)),
    {
        let mut r = DeviceStats::new();
        let n = pairs.len();
        let mut i: usize = 0;
        assert(pairs_of(pairs@).take(0) =~= Seq::empty());
        for (serial, entry) in it: pairs
            invariant
                it.seq() == pairs@,
                r@ == pairs_map(pairs_of(pairs@).take(it.index() as int)),
        {
            let ghost k = it.index() as int;
            assert(pairs_of(pairs@).take(k + 1).drop_last() =~= pairs_of(pairs@).take(k));
            r.insert(serial, entry);
        }
        assert(pairs_of(pairs@).take(pairs@.len() as int) =~= pairs_of(pairs@));
        r
    }

    /// A copy of the entries.
    pub fn duplicate(&self) -> (r: Self)
        ensures
            r@ == self@,
            r.pairs() == self.pairs(),
    {
        proof {
            use_type_invariant(self);
        }
        let mut entries: Vec<(String, DeviceEntry)> = Vec::new();
        let n = self.entries.len();
        let mut i: usize = 0;
        while i < n
            invariant
                i <= n == self.entries@.len(),
                entries@ == self.entries@.take(i as int),
            decreases n - i,
        {
            let p = &self.entries[i];
            let copy = (p.0.clone(), p.1.clone());
            assert(copy == self.entries@[i as int]);
            entries.push(copy);
            assert(entries@ =~= self.entries@.take(i + 1));
            i = i + 1;
        }
        assert(entries@ =~= self.entries@);
        DeviceStats { entries }
    }
}

} // verus!

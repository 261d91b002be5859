//! Durable store of instance records keyed by id. This type holds the
//! records themselves; the surrounding application mirrors every change
//! to one metadata file per record, using the storage actions the
//! lifecycle manager hands out.
use vstd::prelude::*;
use crate::codec::{parse_vm_info, spec_parse_record};
use crate::record::{VmInfo, VmRecord};

verus! {

/// The map a sequence of rows stands for: later rows win on equal ids,
/// though a well-formed registry never holds two rows with one id.
pub open spec fn seq_to_map(s: Seq<VmRecord>) -> Map<Seq<char>, VmRecord>
    decreases s.len(),
{
    if s.len() == 0 {
        Map::empty()
    } else {
        seq_to_map(s.drop_last()).insert(s.last().id, s.last())
    }
}

/// All rows carry pairwise distinct ids.
pub open spec fn distinct_ids(s: Seq<VmRecord>) -> bool {
    forall|i: int, j: int| 0 <= i < j < s.len() ==> (#[trigger] s[i]).id != (#[trigger] s[j]).id
}

pub proof fn lemma_seq_to_map_finite(s: Seq<VmRecord>)
    ensures
        seq_to_map(s).dom().finite(),
    decreases s.len(),
{
    if s.len() > 0 {
        lemma_seq_to_map_finite(s.drop_last());
    }
}

/// Some record of `m` has `p` as its SSH port.
pub open spec fn port_of_some_record(m: Map<Seq<char>, VmRecord>, p: u16) -> bool {
    exists|k: Seq<char>| (#[trigger] m.contains_key(k)) && m[k].ssh_port == p
}

/// Some row of `s` carries `k` as its id.
pub open spec fn has_id(s: Seq<VmRecord>, k: Seq<char>) -> bool {
    exists|i: int| 0 <= i < s.len() && (#[trigger] s[i]).id == k
}

/// A key is in the map exactly when some row carries it as its id.
pub proof fn lemma_seq_to_map_dom(s: Seq<VmRecord>)
    ensures
        forall|k: Seq<char>| #[trigger] seq_to_map(s).contains_key(k) <==> has_id(s, k),
    decreases s.len(),
{
    if s.len() > 0 {
        lemma_seq_to_map_dom(s.drop_last());
        assert forall|k: Seq<char>| #[trigger] seq_to_map(s).contains_key(k) implies has_id(s, k) by {
            if k == s.last().id {
                assert(s[s.len() - 1].id == k);
            } else {
                assert(seq_to_map(s.drop_last()).contains_key(k));
                let i = choose|i: int|
                    0 <= i < s.drop_last().len() && (#[trigger] s.drop_last()[i]).id == k;
                assert(s[i] == s.drop_last()[i]);
                assert(s[i].id == k);
            }
        }
        assert forall|k: Seq<char>| has_id(s, k) implies #[trigger] seq_to_map(s).contains_key(k) by {
            let i = choose|i: int| 0 <= i < s.len() && (#[trigger] s[i]).id == k;
            if i < s.len() - 1 {
                assert(s.drop_last()[i] == s[i]);
                assert(s.drop_last()[i].id == k);
                assert(has_id(s.drop_last(), k));
                assert(seq_to_map(s.drop_last()).contains_key(k));
            }
        }
    }
}

/// Under distinct ids, each row is found in the map under its id.
pub proof fn lemma_seq_to_map_index(s: Seq<VmRecord>, i: int)
    requires
        distinct_ids(s),
        0 <= i < s.len(),
    ensures
        seq_to_map(s).contains_key(s[i].id),
        seq_to_map(s)[s[i].id] == s[i],
    decreases s.len(),
{
    if i == s.len() - 1 {
    } else {
        assert(distinct_ids(s.drop_last()));
        assert(s.drop_last()[i] == s[i]);
        lemma_seq_to_map_index(s.drop_last(), i);
        assert(s[i].id != s.last().id);
    }
}

/// Under distinct ids, the map has one entry per row.
pub proof fn lemma_seq_to_map_len(s: Seq<VmRecord>)
    requires
        distinct_ids(s),
    ensures
        seq_to_map(s).len() == s.len(),
    decreases s.len(),
{
    broadcast use vstd::set::axiom_set_empty_len, vstd::set::axiom_set_insert_len;

    if s.len() > 0 {
        assert(distinct_ids(s.drop_last()));
        lemma_seq_to_map_len(s.drop_last());
        lemma_seq_to_map_finite(s.drop_last());
        lemma_seq_to_map_dom(s.drop_last());
        assert(!has_id(s.drop_last(), s.last().id)) by {
            if has_id(s.drop_last(), s.last().id) {
                let j = choose|j: int|
                    0 <= j < s.drop_last().len() && (#[trigger] s.drop_last()[j]).id == s.last().id;
                assert(s[j] == s.drop_last()[j]);
                assert(s[j].id != s[s.len() - 1].id);
            }
        }
        assert(!seq_to_map(s.drop_last()).contains_key(s.last().id));
    }
}

/// Updating row `i` with a row of the same id is an insert on the map.
pub proof fn lemma_seq_to_map_update(s: Seq<VmRecord>, i: int, r: VmRecord)
    requires
        distinct_ids(s),
        0 <= i < s.len(),
        s[i].id == r.id,
    ensures
        seq_to_map(s.update(i, r)) == seq_to_map(s).insert(r.id, r),
    decreases s.len(),
{
    let t = s.update(i, r);
    if i == s.len() - 1 {
        assert(t.drop_last() =~= s.drop_last());
        assert(t.last() == r);
        assert(seq_to_map(t) =~= seq_to_map(s).insert(r.id, r));
    } else {
        assert(distinct_ids(s.drop_last()));
        assert(s.drop_last()[i] == s[i]);
        lemma_seq_to_map_update(s.drop_last(), i, r);
        assert(t.drop_last() =~= s.drop_last().update(i, r));
        assert(t.last() == s.last());
        assert(s[i].id != s.last().id);
        assert(seq_to_map(t) == seq_to_map(s.drop_last()).insert(r.id, r).insert(s.last().id, s.last()));
        assert(seq_to_map(s.drop_last()).insert(r.id, r).insert(s.last().id, s.last()) =~= seq_to_map(
            s,
        ).insert(r.id, r));
    }
}

/// Removing row `i` is a remove on the map, when ids are distinct.
pub proof fn lemma_seq_to_map_remove(s: Seq<VmRecord>, i: int)
    requires
        distinct_ids(s),
        0 <= i < s.len(),
    ensures
        seq_to_map(s.remove(i)) == seq_to_map(s).remove(s[i].id),
    decreases s.len(),
{
    let t = s.remove(i);
    if i == s.len() - 1 {
        assert(t =~= s.drop_last());
        lemma_seq_to_map_dom(s.drop_last());
        assert(!has_id(s.drop_last(), s.last().id)) by {
            if has_id(s.drop_last(), s.last().id) {
                let j = choose|j: int|
                    0 <= j < s.drop_last().len() && (#[trigger] s.drop_last()[j]).id == s.last().id;
                assert(s[j] == s.drop_last()[j]);
                assert(s[j].id != s[s.len() - 1].id);
            }
        }
        assert(!seq_to_map(s.drop_last()).contains_key(s.last().id));
        assert(seq_to_map(s).remove(s.last().id) =~= seq_to_map(s.drop_last()));
    } else {
        assert(distinct_ids(s.drop_last()));
        assert(s.drop_last()[i] == s[i]);
        lemma_seq_to_map_remove(s.drop_last(), i);
        assert(t.drop_last() =~= s.drop_last().remove(i));
        assert(t.last() == s.last());
        assert(s[i].id != s.last().id);
        assert(seq_to_map(t) == seq_to_map(s.drop_last()).remove(s[i].id).insert(s.last().id, s.last()));
        assert(seq_to_map(s.drop_last()).remove(s[i].id).insert(s.last().id, s.last()) =~= seq_to_map(
            s,
        ).remove(s[i].id));
    }
}

/// Durable key-value store of instance records keyed by id.
pub struct Registry {
    records: Vec<VmInfo>,
}

impl View for Registry {
    type V = Map<Seq<char>, VmRecord>;

    closed spec fn view(&self) -> Map<Seq<char>, VmRecord> {
        seq_to_map(self.rows())
    }
}

impl Registry {
    /// The rows in storage order. The order is unspecified to callers.
    pub closed spec fn rows(&self) -> Seq<VmRecord> {
        self.records@.map_values(|r: VmInfo| r@)
    }

    /// Ids are pairwise distinct: the registry's invariant.
    pub open spec fn wf(&self) -> bool {
        distinct_ids(self.rows())
    }

    pub fn new() -> (r: Self)
        ensures
            r.wf(),
            r@ == Map::<Seq<char>, VmRecord>::empty(),
    {
        let r = Registry { records: Vec::new() };
        proof {
            assert(r.rows() =~= Seq::<VmRecord>::empty());
        }
        r
    }

    /// Index of the row whose id is `id`, if any.
    fn find_index(&self, id: &str) -> (r: Option<usize>)
        ensures
            match r {
                Some(i) => i < self.rows().len() && self.rows()[i as int].id == id@,
                None => forall|j: int|
                    0 <= j < self.rows().len() ==> (#[trigger] self.rows()[j]).id != id@,
            },
    {
        let key: String = id.to_owned();
        let n = self.records.len();
        let mut i: usize = 0;
        while i < n
            invariant
                i <= n,
                n == self.records@.len(),
                key@ == id@,
                forall|j: int| 0 <= j < i ==> (#[trigger] self.rows()[j]).id != id@,
            decreases n - i,
        {
            if self.records[i].id == key {
                assert(self.rows()[i as int].id == id@);
                return Some(i);
            }
            i = i + 1;
        }
        None
    }

    /// The number of records stored.
    pub fn len(&self) -> (n: usize)
        requires
            self.wf(),
        ensures
            n == self@.len(),
    {
        proof {
            lemma_seq_to_map_len(self.rows());
        }
        self.records.len()
    }

    /// Writes or overwrites the record under its id.
    pub fn put(&mut self, record: VmInfo)
        requires
            old(self).wf(),
        ensures
            final(self).wf(),
            final(self)@ == old(self)@.insert(record@.id, record@),
    {
        let ghost s0 = self.rows();
        match self.find_index(record.id.as_str()) {
            Some(i) => {
                self.records.set(i, record);
                proof {
                    assert(self.rows() =~= s0.update(i as int, record@));
                    lemma_seq_to_map_update(s0, i as int, record@);
                    assert(distinct_ids(self.rows()));
                }
            },
            None => {
                self.records.push(record);
                proof {
                    assert(self.rows() =~= s0.push(record@));
                    assert(s0.push(record@).drop_last() =~= s0);
                    assert(seq_to_map(self.rows()) =~= seq_to_map(s0).insert(record@.id, record@));
                    assert(distinct_ids(self.rows()));
                }
            },
        }
    }

    /// The record stored under `id`, if any.
    pub fn get(&self, id: &str) -> (r: Option<&VmInfo>)
        requires
            self.wf(),
        ensures
            match r {
                Some(v) => self@.contains_key(id@) && v@ == self@[id@] && v@.id == id@,
                None => !self@.contains_key(id@),
            },
    {
        match self.find_index(id) {
            Some(i) => {
                proof {
                    lemma_seq_to_map_index(self.rows(), i as int);
                }
                Some(&self.records[i])
            },
            None => {
                proof {
                    lemma_seq_to_map_dom(self.rows());
                    assert(!has_id(self.rows(), id@)) by {
                        if has_id(self.rows(), id@) {
                            let j = choose|j: int|
                                0 <= j < self.rows().len() && (#[trigger] self.rows()[j]).id == id@;
                        }
                    }
                }
                None
            },
        }
    }

    /// All records found, in unspecified order: exactly the entries of
    /// the registry, one per id.
    pub fn list(&self) -> (r: Vec<VmInfo>)
        requires
            self.wf(),
        ensures
            r@.len() == self@.len(),
            forall|i: int|
                0 <= i < r@.len() ==> self@.contains_key((#[trigger] r@[i])@.id) && self@[r@[i]@.id]
                    == r@[i]@,
            forall|k: Seq<char>|
                #[trigger] self@.contains_key(k) ==> exists|i: int|
                    0 <= i < r@.len() && (#[trigger] r@[i])@.id == k,
            forall|i: int, j: int|
                0 <= i < j < r@.len() ==> (#[trigger] r@[i])@.id != (#[trigger] r@[j])@.id,
    {
        let n = self.records.len();
        let mut r: Vec<VmInfo> = Vec::new();
        let mut i: usize = 0;
        while i < n
            invariant
                i <= n,
                n == self.records@.len(),
                r@.len() == i,
                forall|j: int| 0 <= j < i ==> (#[trigger] r@[j])@ == self.rows()[j],
            decreases n - i,
        {
            r.push(self.records[i].clone());
            i = i + 1;
        }
        proof {
            lemma_seq_to_map_len(self.rows());
            lemma_seq_to_map_dom(self.rows());
            assert forall|i: int| 0 <= i < r@.len() implies self@.contains_key(
                (#[trigger] r@[i])@.id,
            ) && self@[r@[i]@.id] == r@[i]@ by {
                lemma_seq_to_map_index(self.rows(), i);
            }
            assert forall|k: Seq<char>| #[trigger] self@.contains_key(k) implies exists|i: int|
                0 <= i < r@.len() && (#[trigger] r@[i])@.id == k by {
                assert(has_id(self.rows(), k));
                let i = choose|i: int| 0 <= i < self.rows().len() && (#[trigger] self.rows()[i]).id == k;
                assert(r@[i]@ == self.rows()[i]);
                assert(r@[i]@.id == k);
            }
        }
        r
    }

    /// Removes the record under `id`, returning what was removed; absence
    /// is not an error and leaves the registry unchanged.
    pub fn delete(&mut self, id: &str) -> (r: Option<VmInfo>)
        requires
            old(self).wf(),
        ensures
            final(self).wf(),
            match r {
                Some(v) => old(self)@.contains_key(id@) && v@ == old(self)@[id@] && v@.id == id@
                    && final(self)@ == old(self)@.remove(id@),
                None => !old(self)@.contains_key(id@) && final(self)@ == old(self)@,
            },
    {
        let ghost s0 = self.rows();
        match self.find_index(id) {
            Some(i) => {
                proof {
                    lemma_seq_to_map_index(s0, i as int);
                }
                let v = self.records.remove(i);
                proof {
                    assert(self.rows() =~= s0.remove(i as int));
                    lemma_seq_to_map_remove(s0, i as int);
                    assert(distinct_ids(self.rows())) by {
                        assert forall|a: int, b: int|
                            0 <= a < b < self.rows().len() implies (#[trigger] self.rows()[a]).id != (
                        #[trigger] self.rows()[b]).id by {
                            let a0 = if a < i as int { a } else { a + 1 };
                            let b0 = if b < i as int { b } else { b + 1 };
                            assert(s0[a0] == self.rows()[a]);
                            assert(s0[b0] == self.rows()[b]);
                        }
                    }
                }
                Some(v)
            },
            None => {
                proof {
                    lemma_seq_to_map_dom(s0);
                    assert(!has_id(s0, id@)) by {
                        if has_id(s0, id@) {
                            let j = choose|j: int|
                                0 <= j < s0.len() && (#[trigger] s0[j]).id == id@;
                        }
                    }
                }
                None
            },
        }
    }

    /// The SSH port of every record, and nothing else: any port a live
    /// registry entry records is in the result, and every element of
    /// the result is some record's port.
    pub fn ssh_ports(&self) -> (r: Vec<u16>)
        requires
            self.wf(),
        ensures
            forall|k: Seq<char>|
                #[trigger] self@.contains_key(k) ==> r@.contains(self@[k].ssh_port),
            forall|j: int| 0 <= j < r@.len() ==> port_of_some_record(self@, #[trigger] r@[j]),
    {
        let n = self.records.len();
        let mut r: Vec<u16> = Vec::new();
        let mut i: usize = 0;
        while i < n
            invariant
                i <= n,
                n == self.records@.len(),
                r@.len() == i,
                forall|j: int| 0 <= j < i ==> r@[j] == (#[trigger] self.rows()[j]).ssh_port,
            decreases n - i,
        {
            r.push(self.records[i].ssh_port);
            i = i + 1;
        }
        proof {
            lemma_seq_to_map_dom(self.rows());
            assert forall|k: Seq<char>| #[trigger] self@.contains_key(k) implies r@.contains(
                self@[k].ssh_port,
            ) by {
                assert(has_id(self.rows(), k));
                let idx = choose|idx: int|
                    0 <= idx < self.rows().len() && (#[trigger] self.rows()[idx]).id == k;
                lemma_seq_to_map_index(self.rows(), idx);
                assert(r@[idx] == self@[k].ssh_port);
            }
            assert forall|j: int| 0 <= j < r@.len() implies port_of_some_record(
                self@,
                #[trigger] r@[j],
            ) by {
                lemma_seq_to_map_index(self.rows(), j);
                assert(self@.contains_key(self.rows()[j].id) && self@[self.rows()[j].id].ssh_port
                    == r@[j]);
            }
        }
        r
    }
}

/// The registry a sequence of persisted file contents stands for: each
/// entry that decodes, keyed by its id; an entry whose id repeats an
/// earlier one is left out.
pub open spec fn load_map(entries: Seq<Seq<char>>) -> Map<Seq<char>, VmRecord>
    decreases entries.len(),
{
    if entries.len() == 0 {
        Map::empty()
    } else {
        let m = load_map(entries.drop_last());
        match spec_parse_record(entries.last()) {
            Some(v) => if m.contains_key(v.id) {
                m
            } else {
                m.insert(v.id, v)
            },
            None => m,
        }
    }
}

/// Entry `i` is corrupt: it does not decode, or its id repeats an
/// earlier entry's.
pub open spec fn entry_corrupt(entries: Seq<Seq<char>>, i: int) -> bool {
    match spec_parse_record(entries[i]) {
        None => true,
        Some(v) => load_map(entries.take(i)).contains_key(v.id),
    }
}

impl Registry {
    /// Rebuilds a registry from the contents of every metadata file
    /// found in storage. Entries that do not decode, and entries whose
    /// id repeats an earlier one, are reported by index rather than
    /// silently dropped.
    pub fn from_entries(entries: &Vec<String>) -> (r: (Registry, Vec<usize>))
        ensures
            r.0.wf(),
            r.0@ == load_map(entries.deep_view()),
            forall|j: int|
                0 <= j < r.1@.len() ==> r.1@[j] < entries@.len() && entry_corrupt(
                    entries.deep_view(),
                    #[trigger] r.1@[j] as int,
                ),
            forall|t: int|
                0 <= t < entries@.len() && entry_corrupt(entries.deep_view(), t) ==> r.1@.contains(
                    t as usize,
                ),
    {
        let ghost dv = entries.deep_view();
        proof {
            assert(dv.take(0) =~= Seq::<Seq<char>>::empty());
        }
        let mut reg = Registry::new();
        let mut corrupt: Vec<usize> = Vec::new();
        let n = entries.len();
        let mut i: usize = 0;
        while i < n
            invariant
                i <= n,
                n == entries@.len(),
                dv == entries.deep_view(),
                dv.len() == entries@.len(),
                reg.wf(),
                reg@ == load_map(dv.take(i as int)),
                forall|j: int|
                    0 <= j < corrupt@.len() ==> corrupt@[j] < i && entry_corrupt(
                        dv,
                        #[trigger] corrupt@[j] as int,
                    ),
                forall|t: int| 0 <= t < i && entry_corrupt(dv, t) ==> corrupt@.contains(t as usize),
            decreases n - i,
        {
            let ghost pre = dv.take(i as int);
            let ghost corrupt0 = corrupt@;
            proof {
                assert(dv.take(i + 1).drop_last() =~= pre);
                assert(dv.take(i + 1).last() == dv[i as int]);
                assert(entries@[i as int]@ == dv[i as int]);
            }
            match parse_vm_info(entries[i].as_str()) {
                Some(rec) => {
                    let ghost rv = rec@;
                    let dup = reg.get(rec.id.as_str()).is_some();
                    if dup {
                        corrupt.push(i);
                        proof {
                            assert(entry_corrupt(dv, i as int));
                            assert(load_map(dv.take(i + 1)) == reg@);
                        }
                    } else {
                        reg.put(rec);
                        proof {
                            assert(reg@ == load_map(dv.take(i + 1)));
                            assert(!entry_corrupt(dv, i as int));
                        }
                    }
                },
                None => {
                    corrupt.push(i);
                    proof {
                        assert(entry_corrupt(dv, i as int));
                        assert(load_map(dv.take(i + 1)) == reg@);
                    }
                },
            }
            proof {
                if corrupt@.len() > corrupt0.len() {
                    assert(corrupt@ == corrupt0.push(i as usize));
                }
                assert forall|t: int| 0 <= t < i + 1 && entry_corrupt(dv, t) implies corrupt@.contains(
                    t as usize,
                ) by {
                    if t < i {
                        let j = choose|j: int| 0 <= j < corrupt0.len() && corrupt0[j] == t as usize;
                        assert(corrupt@[j] == t as usize);
                    } else {
                        assert(corrupt@[corrupt@.len() - 1] == t as usize);
                    }
                }
            }
            i = i + 1;
        }
        proof {
            assert(dv.take(n as int) =~= dv);
        }
        (reg, corrupt)
    }
}

} // verus!

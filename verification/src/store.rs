//! The transactional store model: a key–value map with the mutation
//! engine (insert, update, delete, drop, count) and the query engine
//! (single, compound, by identifier) of the document store on top of it.
//!
//! The map stands for the backend's committed state; one call of a
//! mutation is one committed transaction.

use vstd::prelude::*;
use crate::keys::{
    spec_valid_name, spec_data_key, spec_acl_key, spec_nonce_key, spec_usecase_key, spec_keys_key,
    data_key, acl_key, nonce_key, usecase_key, keys_key, is_valid_name, string_eq,
    lemma_data_key_distinct, lemma_usecase_key_injective, lemma_key_counts,
};

verus! {

/// The committed contents of the backing key–value store.
pub struct KvStore {
    pub entries: Vec<(String, Vec<u8>)>,
}

/// The map a list of entries denotes; a later entry wins over an
/// earlier one with the same key.
pub open spec fn map_of(s: Seq<(Seq<char>, Seq<u8>)>) -> Map<Seq<char>, Seq<u8>>
    decreases s.len(),
{
    if s.len() == 0 {
        Map::empty()
    } else {
        map_of(s.drop_last()).insert(s.last().0, s.last().1)
    }
}

impl View for KvStore {
    type V = Map<Seq<char>, Seq<u8>>;

    open spec fn view(&self) -> Map<Seq<char>, Seq<u8>> {
        map_of(self.entries.deep_view())
    }
}

/// No two entries share a key.
pub open spec fn unique_keys(s: Seq<(Seq<char>, Seq<u8>)>) -> bool {
    forall|i: int, j: int| 0 <= i < j < s.len() ==> (#[trigger] s[i]).0 != (#[trigger] s[j]).0
}

/// A key is in the map exactly when some entry holds it.
pub proof fn lemma_map_of_contains(s: Seq<(Seq<char>, Seq<u8>)>, k: Seq<char>)
    ensures
        map_of(s).contains_key(k) <==> exists|i: int| 0 <= i < s.len() && (#[trigger] s[i]).0 == k,
    decreases s.len(),
{
    if s.len() > 0 {
        lemma_map_of_contains(s.drop_last(), k);
        if s.last().0 == k {
            assert(s[s.len() - 1].0 == k);
        } else {
            if map_of(s).contains_key(k) {
                let i = choose|i: int| 0 <= i < s.drop_last().len() && (#[trigger] s.drop_last()[i]).0 == k;
                assert(s[i].0 == k);
            }
            if exists|i: int| 0 <= i < s.len() && (#[trigger] s[i]).0 == k {
                let i = choose|i: int| 0 <= i < s.len() && (#[trigger] s[i]).0 == k;
                assert(i < s.len() - 1);
                assert(s.drop_last()[i].0 == k);
            }
        }
    }
}

/// With unique keys, the map's value at an entry's key is that entry's
/// value.
pub proof fn lemma_map_of_get(s: Seq<(Seq<char>, Seq<u8>)>, i: int)
    requires
        unique_keys(s),
        0 <= i < s.len(),
    ensures
        map_of(s).contains_key(s[i].0),
        map_of(s)[s[i].0] == s[i].1,
    decreases s.len(),
{
    if i == s.len() - 1 {
    } else {
        assert(unique_keys(s.drop_last()));
        assert(s.drop_last()[i] == s[i]);
        lemma_map_of_get(s.drop_last(), i);
        assert(s[i].0 != s[s.len() - 1].0);
    }
}

/// Updating the entry that holds a key updates the map at that key.
pub proof fn lemma_map_of_update(s: Seq<(Seq<char>, Seq<u8>)>, i: int, v: Seq<u8>)
    requires
        unique_keys(s),
        0 <= i < s.len(),
    ensures
        map_of(s.update(i, (s[i].0, v))) == map_of(s).insert(s[i].0, v),
    decreases s.len(),
{
    let s2 = s.update(i, (s[i].0, v));
    if i == s.len() - 1 {
        assert(s2.drop_last() =~= s.drop_last());
        assert(s2.last() == (s[i].0, v));
        assert(map_of(s2) =~= map_of(s).insert(s[i].0, v));
    } else {
        assert(unique_keys(s.drop_last()));
        assert(s.drop_last()[i] == s[i]);
        lemma_map_of_update(s.drop_last(), i, v);
        assert(s2.drop_last() =~= s.drop_last().update(i, (s[i].0, v)));
        assert(s2.last() == s.last());
        assert(s[i].0 != s.last().0);
        assert(map_of(s2) == map_of(s.drop_last()).insert(s[i].0, v).insert(s.last().0, s.last().1));
        assert(map_of(s.drop_last()).insert(s[i].0, v).insert(s.last().0, s.last().1)
            =~= map_of(s.drop_last()).insert(s.last().0, s.last().1).insert(s[i].0, v));
    }
}

/// Removing the entry that holds a key removes the key from the map.
pub proof fn lemma_map_of_remove(s: Seq<(Seq<char>, Seq<u8>)>, i: int)
    requires
        unique_keys(s),
        0 <= i < s.len(),
    ensures
        map_of(s.remove(i)) == map_of(s).remove(s[i].0),
    decreases s.len(),
{
    let s2 = s.remove(i);
    if i == s.len() - 1 {
        assert(s2 =~= s.drop_last());
        lemma_map_of_contains(s.drop_last(), s[i].0);
        assert(forall|j: int|
            0 <= j < s.drop_last().len() ==> (#[trigger] s.drop_last()[j]).0 != s[i].0);
        assert(!map_of(s.drop_last()).contains_key(s[i].0));
        assert(map_of(s.drop_last()).insert(s[i].0, s[i].1).remove(s[i].0) =~= map_of(
            s.drop_last(),
        ));
    } else {
        assert(unique_keys(s.drop_last()));
        assert(s.drop_last()[i] == s[i]);
        lemma_map_of_remove(s.drop_last(), i);
        assert(s2.drop_last() =~= s.drop_last().remove(i));
        assert(s2.last() == s.last());
        assert(s[i].0 != s.last().0);
        assert(map_of(s2) == map_of(s.drop_last()).remove(s[i].0).insert(s.last().0, s.last().1));
        assert(map_of(s.drop_last()).remove(s[i].0).insert(s.last().0, s.last().1) =~= map_of(
            s.drop_last(),
        ).insert(s.last().0, s.last().1).remove(s[i].0));
    }
}

impl KvStore {
    /// No two entries share a key.
    pub open spec fn wf(&self) -> bool {
        unique_keys(self.entries.deep_view())
    }

    /// An empty store.
    pub fn new() -> (r: Self)
        ensures
            r@ == Map::<Seq<char>, Seq<u8>>::empty(),
            r.wf(),
    {
        let r = KvStore { entries: Vec::new() };
        proof {
            assert(r.entries.deep_view() =~= Seq::<(Seq<char>, Seq<u8>)>::empty());
        }
        r
    }

    /// Looks a key up, handing back a copy of the value.
    pub fn get(&self, key: &String) -> (r: Option<Vec<u8>>)
        requires
            self.wf(),
        ensures
            match r {
                Some(v) => self@.contains_key(key@) && self@[key@] == v@,
                None => !self@.contains_key(key@),
            },
    {
        let ghost s = self.entries.deep_view();
        let mut i: usize = 0;
        while i < self.entries.len()
            invariant
                self.wf(),
                s == self.entries.deep_view(),
                i <= s.len(),
                forall|j: int| 0 <= j < i ==> (#[trigger] s[j]).0 != key@,
            decreases s.len() - i,
        {
            if string_eq(&self.entries[i].0, key) {
                let v = vstd::slice::slice_to_vec(self.entries[i].1.as_slice());
                proof {
                    lemma_map_of_get(s, i as int);
                }
                return Some(v);
            }
            i = i + 1;
        }
        proof {
            lemma_map_of_contains(s, key@);
        }
        None
    }

    /// Whether a key is present.
    pub fn contains(&self, key: &String) -> (r: bool)
        requires
            self.wf(),
        ensures
            r == self@.contains_key(key@),
    {
        match self.get(key) {
            Some(_) => true,
            None => false,
        }
    }

    /// Writes a value under a key, replacing any prior value.
    pub fn put(&mut self, key: String, value: Vec<u8>)
        requires
            old(self).wf(),
        ensures
            final(self)@ == old(self)@.insert(key@, value@),
            final(self).wf(),
    {
        let ghost s = self.entries.deep_view();
        let mut i: usize = 0;
        while i < self.entries.len()
            invariant
                self.wf(),
                old(self)@ == map_of(s),
                old(self).wf(),
                s == self.entries.deep_view(),
                i <= s.len(),
                forall|j: int| 0 <= j < i ==> (#[trigger] s[j]).0 != key@,
            decreases s.len() - i,
        {
            if string_eq(&self.entries[i].0, &key) {
                proof {
                    lemma_map_of_update(s, i as int, value@);
                }
                self.entries.set(i, (key, value));
                proof {
                    assert(self.entries.deep_view() =~~= s.update(i as int, (s[i as int].0, value@)));
                    assert(unique_keys(self.entries.deep_view()));
                }
                return ;
            }
            i = i + 1;
        }
        self.entries.push((key, value));
        proof {
            let s2 = self.entries.deep_view();
            assert(s2.drop_last() =~~= s);
            assert(s2.last().0 =~= key@);
            assert(s2.last().1 =~= value@);
            assert(s2.last() == (key@, value@));
            assert(map_of(s2) == map_of(s2.drop_last()).insert(s2.last().0, s2.last().1));
            assert(map_of(s2) == map_of(s).insert(s2.last().0, s2.last().1));
            assert(forall|j: int| 0 <= j < s.len() ==> (#[trigger] s2[j]) == s[j]);
            assert(unique_keys(s2));
        }
    }

    /// Removes a key; removing an absent key changes nothing.
    pub fn remove(&mut self, key: &String)
        requires
            old(self).wf(),
        ensures
            final(self)@ == old(self)@.remove(key@),
            final(self).wf(),
    {
        let ghost s = self.entries.deep_view();
        let mut i: usize = 0;
        while i < self.entries.len()
            invariant
                self.wf(),
                old(self)@ == map_of(s),
                old(self).wf(),
                s == self.entries.deep_view(),
                i <= s.len(),
                forall|j: int| 0 <= j < i ==> (#[trigger] s[j]).0 != key@,
            decreases s.len() - i,
        {
            if string_eq(&self.entries[i].0, key) {
                proof {
                    lemma_map_of_remove(s, i as int);
                }
                self.entries.remove(i);
                proof {
                    assert(self.entries.deep_view() =~~= s.remove(i as int));
                    assert(forall|a: int|
                        0 <= a < s.remove(i as int).len() ==> #[trigger] s.remove(i as int)[a] == (
                        if a < i {
                            s[a]
                        } else {
                            s[a + 1]
                        }));
                    assert(unique_keys(s.remove(i as int)));
                }
                return ;
            }
            i = i + 1;
        }
        proof {
            lemma_map_of_contains(s, key@);
            assert(!self@.contains_key(key@));
            assert(self@.remove(key@) =~= self@);
        }
    }
}

// ---------------------------------------------------------------------
// the document store
// ---------------------------------------------------------------------

/// A whole payload that is one list of byte strings.
pub open spec fn spec_dec_bytes_list_full(b: Seq<u8>) -> Option<Seq<Seq<u8>>> {
    match crate::codec::spec_dec_bytes_list(b, 0) {
        Some((vs, end)) => if end == b.len() {
            Some(vs)
        } else {
            None
        },
        None => None,
    }
}

/// The list stored under an index key: decoded when present and well
/// formed, empty otherwise. This is a deliberate choice: readers
/// tolerate garbage, so an undecodable index value reads as an empty
/// list, and a count over it answers zero rather than surfacing a
/// decode error.
pub open spec fn spec_list_at(m: Map<Seq<char>, Seq<u8>>, k: Seq<char>) -> Seq<Seq<u8>> {
    if m.contains_key(k) {
        match spec_dec_bytes_list_full(m[k]) {
            Some(vs) => vs,
            None => Seq::empty(),
        }
    } else {
        Seq::empty()
    }
}

/// The use-case index of `(collection, usecase)`: the data keys of the
/// rows inserted under that pair, as byte strings.
pub open spec fn spec_index_list(m: Map<Seq<char>, Seq<u8>>, c: Seq<char>, u: Seq<char>) -> Seq<
    Seq<u8>,
> {
    spec_list_at(m, spec_usecase_key(c, u))
}

/// The store after appending one data key to each use-case index in
/// turn.
pub open spec fn spec_insert_indexes(
    m: Map<Seq<char>, Seq<u8>>,
    c: Seq<char>,
    dk_bytes: Seq<u8>,
    usecases: Seq<Seq<char>>,
) -> Map<Seq<char>, Seq<u8>>
    decreases usecases.len(),
{
    if usecases.len() == 0 {
        m
    } else {
        let m1 = spec_insert_indexes(m, c, dk_bytes, usecases.drop_last());
        let k = spec_usecase_key(c, usecases.last());
        m1.insert(k, crate::codec::spec_enc_bytes_list(spec_list_at(m1, k).push(dk_bytes)))
    }
}

/// The store after one insertion: the data row, the access-control row,
/// and one appended index entry per use case.
pub open spec fn spec_insert_map(
    m: Map<Seq<char>, Seq<u8>>,
    ins: crate::message::InsertionV,
    id: Seq<char>,
) -> Map<Seq<char>, Seq<u8>> {
    let dk = spec_data_key(ins.collection, id);
    let m1 = m.insert(dk, ins.data).insert(
        spec_acl_key(ins.collection, id),
        crate::codec::spec_enc_text_list(ins.acl),
    );
    spec_insert_indexes(m1, ins.collection, vstd::utf8::encode_utf8(dk), ins.usecases)
}

/// All names of a list are fit for keys.
pub open spec fn spec_valid_names(us: Seq<Seq<char>>) -> bool {
    forall|i: int| 0 <= i < us.len() ==> spec_valid_name(#[trigger] us[i])
}

/// The document store: the mutation and query engines over the
/// committed map. The map is held in process and stands for the
/// distributed backend's committed state; commits therefore never
/// conflict here, and the conflict outcome of an update cannot arise.
pub struct Datastore {
    pub kv: KvStore,
}

impl View for Datastore {
    type V = Map<Seq<char>, Seq<u8>>;

    open spec fn view(&self) -> Map<Seq<char>, Seq<u8>> {
        self.kv@
    }
}

impl Datastore {
    pub open spec fn wf(&self) -> bool {
        self.kv.wf()
    }

    /// An empty store.
    pub fn new() -> (r: Self)
        ensures
            r@ == Map::<Seq<char>, Seq<u8>>::empty(),
            r.wf(),
    {
        Datastore { kv: KvStore::new() }
    }

    /// Reads the list stored under a key.
    fn list_at(&self, key: &String) -> (r: Vec<Vec<u8>>)
        requires
            self.wf(),
        ensures
            r.deep_view() == spec_list_at(self@, key@),
    {
        match self.kv.get(key) {
            Some(bytes) => {
                match crate::codec::read_bytes_list(bytes.as_slice(), 0) {
                    Some((vs, end)) => {
                        if end == bytes.len() {
                            vs
                        } else {
                            let r: Vec<Vec<u8>> = Vec::new();
                            proof {
                                assert(r.deep_view() =~= Seq::<Seq<u8>>::empty());
                            }
                            r
                        }
                    }
                    None => {
                        let r: Vec<Vec<u8>> = Vec::new();
                        proof {
                            assert(r.deep_view() =~= Seq::<Seq<u8>>::empty());
                        }
                        r
                    }
                }
            }
            None => {
                let r: Vec<Vec<u8>> = Vec::new();
                proof {
                    assert(r.deep_view() =~= Seq::<Seq<u8>>::empty());
                }
                r
            }
        }
    }

    /// Every name of the list is fit for a key.
    fn all_valid(us: &Vec<String>) -> (r: bool)
        ensures
            r == spec_valid_names(us.deep_view()),
    {
        let mut k: usize = 0;
        while k < us.len()
            invariant
                k <= us.deep_view().len(),
                forall|j: int| 0 <= j < k ==> spec_valid_name(#[trigger] us.deep_view()[j]),
            decreases us.deep_view().len() - k,
        {
            if !is_valid_name(&us[k]) {
                proof {
                    assert(us.deep_view()[k as int] == us@[k as int]@);
                    assert(!spec_valid_name(us.deep_view()[k as int]));
                }
                return false;
            }
            k = k + 1;
        }
        true
    }

    /// Inserts a row under a fresh identifier: the data row, its
    /// access-control list, and one index entry per use case, all in one
    /// transaction. Nothing changes when a name is unfit for a key or
    /// the identifier is taken.
    pub fn insert(&mut self, ins: &crate::message::Insertion, id: &String) -> (r: bool)
        requires
            old(self).wf(),
        ensures
            final(self).wf(),
            r == (spec_valid_name(ins.collection@) && spec_valid_names(ins.usecases.deep_view())
                && !old(self)@.contains_key(spec_data_key(ins.collection@, id@))),
            r ==> final(self)@ == spec_insert_map(old(self)@, ins@, id@),
            !r ==> final(self)@ == old(self)@,
    {
        if !is_valid_name(&ins.collection) {
            return false;
        }
        if !Self::all_valid(&ins.usecases) {
            return false;
        }
        let dk = data_key(&ins.collection, id);
        if self.kv.contains(&dk) {
            return false;
        }
        let data_copy = vstd::slice::slice_to_vec(ins.data.as_slice());
        self.kv.put(dk, data_copy);
        let ak = acl_key(&ins.collection, id);
        let mut acl_bytes: Vec<u8> = Vec::new();
        crate::codec::push_text_list(&mut acl_bytes, &ins.acl);
        proof {
            assert(acl_bytes@ =~= crate::codec::spec_enc_text_list(ins.acl.deep_view()));
        }
        self.kv.put(ak, acl_bytes);
        let ghost m1 = self@;
        let dk2 = data_key(&ins.collection, id);
        let dk_bytes = vstd::string::StrSliceExecFns::as_bytes_vec(dk2.as_str());
        let mut i: usize = 0;
        proof {
            assert(spec_insert_indexes(m1, ins.collection@, dk_bytes@, ins.usecases.deep_view().take(0))
                == m1);
        }
        while i < ins.usecases.len()
            invariant
                self.wf(),
                i <= ins.usecases.deep_view().len(),
                dk_bytes@ == vstd::utf8::encode_utf8(spec_data_key(ins.collection@, id@)),
                spec_valid_name(ins.collection@),
                spec_valid_names(ins.usecases.deep_view()),
                !old(self)@.contains_key(spec_data_key(ins.collection@, id@)),
                m1 == old(self)@.insert(spec_data_key(ins.collection@, id@), ins.data@).insert(
                    spec_acl_key(ins.collection@, id@),
                    crate::codec::spec_enc_text_list(ins.acl.deep_view()),
                ),
                self@ == spec_insert_indexes(
                    m1,
                    ins.collection@,
                    dk_bytes@,
                    ins.usecases.deep_view().take(i as int),
                ),
            decreases ins.usecases.deep_view().len() - i,
        {
            let uk = usecase_key(&ins.collection, &ins.usecases[i]);
            let mut lst = self.list_at(&uk);
            let ghost lst0 = lst.deep_view();
            let entry = vstd::slice::slice_to_vec(dk_bytes.as_slice());
            lst.push(entry);
            proof {
                assert(lst.deep_view() =~~= lst0.push(dk_bytes@));
            }
            let mut enc: Vec<u8> = Vec::new();
            crate::codec::push_bytes_list(&mut enc, &lst);
            proof {
                assert(enc@ =~= crate::codec::spec_enc_bytes_list(lst.deep_view()));
            }
            self.kv.put(uk, enc);
            proof {
                let us = ins.usecases.deep_view();
                assert(us.take(i + 1).drop_last() =~= us.take(i as int));
                assert(us.take(i + 1).last() == us[i as int]);
            }
            i = i + 1;
        }
        proof {
            let us = ins.usecases.deep_view();
            assert(us.take(us.len() as int) =~= us);
        }
        true
    }

    /// Replaces the payload under a key; an absent key is reported and
    /// nothing is written.
    pub fn update(&mut self, upd: &crate::message::Update) -> (r: crate::message::UpdateStatus)
        requires
            old(self).wf(),
        ensures
            final(self).wf(),
            old(self)@.contains_key(spec_data_key(upd.collection@, upd.id@)) ==> (r
                == crate::message::UpdateStatus::Success && final(self)@ == old(self)@.insert(
                spec_data_key(upd.collection@, upd.id@),
                upd.new_value@,
            )),
            !old(self)@.contains_key(spec_data_key(upd.collection@, upd.id@)) ==> (r
                == crate::message::UpdateStatus::KeyNotFound && final(self)@ == old(self)@),
    {
        let dk = data_key(&upd.collection, &upd.id);
        if !self.kv.contains(&dk) {
            return crate::message::UpdateStatus::KeyNotFound;
        }
        let value = vstd::slice::slice_to_vec(upd.new_value.as_slice());
        self.kv.put(dk, value);
        crate::message::UpdateStatus::Success
    }

    /// Removes the data row of a key; ancillary rows and index entries
    /// stay behind as tolerated garbage.
    pub fn delete(&mut self, del: &crate::message::Delete) -> (r: bool)
        requires
            old(self).wf(),
        ensures
            final(self).wf(),
            final(self)@ == old(self)@.remove(spec_data_key(del.collection@, del.id@)),
            r == true,
    {
        let dk = data_key(&del.collection, &del.id);
        self.kv.remove(&dk);
        true
    }

    /// Removes a whole use-case index. Dropping a collection is an
    /// unfinished extension point and reports failure.
    pub fn drop_subject(&mut self, subject: &crate::message::DropSubject) -> (r: bool)
        requires
            old(self).wf(),
        ensures
            final(self).wf(),
            (subject@ matches crate::message::DropSubjectV::Usecase { collection, usecase }
                ==> r == true && final(self)@ == old(self)@.remove(
                spec_usecase_key(collection, usecase),
            )),
            (subject@ matches crate::message::DropSubjectV::Collection(_) ==> r == false
                && final(self)@ == old(self)@),
    {
        match subject {
            crate::message::DropSubject::Usecase { collection, usecase } => {
                let uk = usecase_key(collection, usecase);
                self.kv.remove(&uk);
                true
            }
            crate::message::DropSubject::Collection(_) => false,
        }
    }

    /// Counts the entries of the index a subject names. An absent or
    /// undecodable index counts zero: the tolerant reading of
    /// [`spec_list_at`].
    pub fn count(&self, subject: &crate::message::CountSubject) -> (r: u32)
        requires
            self.wf(),
        ensures
            match subject@ {
                crate::message::CountSubjectV::Collection(c) => r == spec_list_at(
                    self@,
                    spec_keys_key(c),
                ).len() as u32,
                crate::message::CountSubjectV::Usecase { collection, usecase } => r
                    == spec_index_list(self@, collection, usecase).len() as u32,
            },
    {
        let key = match subject {
            crate::message::CountSubject::Collection(c) => keys_key(c),
            crate::message::CountSubject::Usecase { collection, usecase } => usecase_key(
                collection,
                usecase,
            ),
        };
        let lst = self.list_at(&key);
        lst.len() as u32
    }

    /// Reads one row and its nonce.
    pub fn get_by_id(&self, collection: &String, id: &String) -> (r: (Option<Vec<u8>>, Option<
        Vec<u8>,
    >))
        requires
            self.wf(),
        ensures
            r.0.deep_view() == spec_lookup(self@, spec_data_key(collection@, id@)),
            r.1.deep_view() == spec_lookup(self@, spec_nonce_key(collection@, id@)),
    {
        let dk = data_key(collection, id);
        let nk = nonce_key(collection, id);
        (self.kv.get(&dk), self.kv.get(&nk))
    }
}

/// The value under a key, when present.
pub open spec fn spec_lookup(m: Map<Seq<char>, Seq<u8>>, k: Seq<char>) -> Option<Seq<u8>> {
    if m.contains_key(k) {
        Some(m[k])
    } else {
        None
    }
}

// ---------------------------------------------------------------------
// the query engine
// ---------------------------------------------------------------------

/// The number a stored cell denotes: a whole payload that is one signed
/// integer item, and zero for anything else.
pub open spec fn spec_cell_value(v: Seq<u8>) -> i64 {
    match crate::codec::spec_dec_i64(v, 0) {
        Some((x, end)) => if end == v.len() {
            x
        } else {
            0
        },
        None => 0,
    }
}

/// Whether a cell lies within the optional inclusive bounds; a tie
/// satisfies both.
pub open spec fn spec_in_range(v: Seq<u8>, lower: Option<i64>, upper: Option<i64>) -> bool {
    (match upper {
        Some(u) => spec_cell_value(v) <= u,
        None => true,
    }) && (match lower {
        Some(l) => l <= spec_cell_value(v),
        None => true,
    })
}

/// The values stored under a list of data keys, in order, skipping
/// entries that are not UTF-8 or name no row: dangling index entries
/// read as absent and are passed over.
pub open spec fn spec_batch(m: Map<Seq<char>, Seq<u8>>, keys: Seq<Seq<u8>>, nonce: bool) -> Seq<
    Seq<u8>,
>
    decreases keys.len(),
{
    if keys.len() == 0 {
        Seq::empty()
    } else {
        let head = spec_batch_one(m, keys[0], nonce);
        head + spec_batch(m, keys.drop_first(), nonce)
    }
}

/// The reading of one index entry: the row's value, or its nonce row's
/// value.
pub open spec fn spec_batch_one(m: Map<Seq<char>, Seq<u8>>, kb: Seq<u8>, nonce: bool) -> Seq<
    Seq<u8>,
> {
    if vstd::utf8::valid_utf8(kb) {
        let k0 = vstd::utf8::decode_utf8(kb);
        let k = if nonce {
            k0 + ":nonce"@
        } else {
            k0
        };
        if m.contains_key(k) {
            seq![m[k]]
        } else {
            Seq::empty()
        }
    } else {
        Seq::empty()
    }
}

/// The values within the bounds, in order.
pub open spec fn spec_filter_range(vals: Seq<Seq<u8>>, lower: Option<i64>, upper: Option<i64>) -> Seq<
    Seq<u8>,
>
    decreases vals.len(),
{
    if vals.len() == 0 {
        Seq::empty()
    } else {
        let rest = spec_filter_range(vals.drop_first(), lower, upper);
        if spec_in_range(vals[0], lower, upper) {
            seq![vals[0]] + rest
        } else {
            rest
        }
    }
}

/// The answer to a single query: the indexed rows, filtered when a range
/// bound makes it an order-preserving query, with the nonces otherwise.
pub open spec fn spec_single_response(
    m: Map<Seq<char>, Seq<u8>>,
    q: crate::query::SingleQueryV,
) -> crate::message::MessageV {
    if !m.contains_key(spec_usecase_key(q.collection, q.usecase)) {
        crate::message::MessageV::QueryResponse { data: Seq::empty(), nonces: None }
    } else {
        let keys = spec_index_list(m, q.collection, q.usecase);
        let data = spec_batch(m, keys, false);
        if q.upper_limit is Some || q.lower_limit is Some {
            crate::message::MessageV::QueryResponse {
                data: spec_filter_range(data, q.lower_limit, q.upper_limit),
                nonces: None,
            }
        } else {
            crate::message::MessageV::QueryResponse {
                data,
                nonces: Some(spec_batch(m, keys, true)),
            }
        }
    }
}

/// The `(collection, usecase)` pairs of the single branches of a
/// compound query; other branches are passed over at this layer.
pub open spec fn spec_single_children(qs: Seq<crate::query::QueryV>) -> Seq<
    (Seq<char>, Seq<char>),
>
    decreases qs.len(),
{
    if qs.len() == 0 {
        Seq::empty()
    } else {
        let rest = spec_single_children(qs.drop_first());
        match qs[0] {
            crate::query::QueryV::Single(s) => seq![(s.collection, s.usecase)] + rest,
            _ => rest,
        }
    }
}

/// Whether any single branch carries no range bound, so that nonces are
/// owed in the reply.
pub open spec fn spec_any_non_ope(qs: Seq<crate::query::QueryV>) -> bool
    decreases qs.len(),
{
    if qs.len() == 0 {
        false
    } else {
        (match qs[0] {
            crate::query::QueryV::Single(s) => s.upper_limit is None && s.lower_limit is None,
            _ => false,
        }) || spec_any_non_ope(qs.drop_first())
    }
}

/// Whether a byte string occurs in a list.
pub open spec fn spec_mem(s: Seq<Seq<u8>>, x: Seq<u8>) -> bool {
    exists|i: int| 0 <= i < s.len() && s[i] == x
}

/// The keys of `a` that also occur in `b`, in the order of `a`.
pub open spec fn spec_intersect(a: Seq<Seq<u8>>, b: Seq<Seq<u8>>) -> Seq<Seq<u8>>
    decreases a.len(),
{
    if a.len() == 0 {
        Seq::empty()
    } else {
        let rest = spec_intersect(a.drop_first(), b);
        if spec_mem(b, a[0]) {
            seq![a[0]] + rest
        } else {
            rest
        }
    }
}

/// `a` with the keys of `b` appended, except those already present:
/// a union without duplicates from `b`.
pub open spec fn spec_union(a: Seq<Seq<u8>>, b: Seq<Seq<u8>>) -> Seq<Seq<u8>>
    decreases b.len(),
{
    if b.len() == 0 {
        a
    } else {
        let a2 = if spec_mem(a, b[0]) {
            a
        } else {
            a.push(b[0])
        };
        spec_union(a2, b.drop_first())
    }
}

/// The combined key set of a compound query: the intersection or the
/// union of its single branches' index lists.
pub open spec fn spec_compound_keys(
    m: Map<Seq<char>, Seq<u8>>,
    t: crate::query::QueryType,
    children: Seq<(Seq<char>, Seq<char>)>,
) -> Seq<Seq<u8>>
    decreases children.len(),
{
    if children.len() == 0 {
        Seq::empty()
    } else {
        let first = spec_index_list(m, children[0].0, children[0].1);
        spec_compound_keys_rest(m, t, first, children.drop_first())
    }
}

/// Folds the remaining branches into the key set.
pub open spec fn spec_compound_keys_rest(
    m: Map<Seq<char>, Seq<u8>>,
    t: crate::query::QueryType,
    acc: Seq<Seq<u8>>,
    children: Seq<(Seq<char>, Seq<char>)>,
) -> Seq<Seq<u8>>
    decreases children.len(),
{
    if children.len() == 0 {
        acc
    } else {
        let lst = spec_index_list(m, children[0].0, children[0].1);
        let acc2 = match t {
            crate::query::QueryType::And => spec_intersect(acc, lst),
            crate::query::QueryType::Or => spec_union(acc, lst),
        };
        spec_compound_keys_rest(m, t, acc2, children.drop_first())
    }
}

/// The answer to a compound query.
pub open spec fn spec_compound_response(
    m: Map<Seq<char>, Seq<u8>>,
    c: crate::query::CompoundQueryV,
) -> crate::message::MessageV {
    let keys = spec_compound_keys(m, c.query_type, spec_single_children(c.queries));
    let data = spec_batch(m, keys, false);
    let nonces = if spec_any_non_ope(c.queries) {
        Some(spec_batch(m, keys, true))
    } else {
        None
    };
    crate::message::MessageV::QueryResponse { data, nonces }
}

/// The values stored under a list of row identifiers of one collection,
/// in order, skipping absent rows.
pub open spec fn spec_batch_ids(
    m: Map<Seq<char>, Seq<u8>>,
    c: Seq<char>,
    ids: Seq<Seq<char>>,
    nonce: bool,
) -> Seq<Seq<u8>>
    decreases ids.len(),
{
    if ids.len() == 0 {
        Seq::empty()
    } else {
        let k = if nonce {
            spec_nonce_key(c, ids[0])
        } else {
            spec_data_key(c, ids[0])
        };
        let head: Seq<Seq<u8>> = if m.contains_key(k) {
            seq![m[k]]
        } else {
            Seq::empty()
        };
        head + spec_batch_ids(m, c, ids.drop_first(), nonce)
    }
}

/// The answer to any query, over the committed map.
pub open spec fn spec_query_response(
    m: Map<Seq<char>, Seq<u8>>,
    q: crate::query::QueryV,
) -> crate::message::MessageV {
    match q {
        crate::query::QueryV::Single(s) => spec_single_response(m, s),
        crate::query::QueryV::Compound(c) => spec_compound_response(m, c),
        crate::query::QueryV::GetById { id, collection } => crate::message::MessageV::SingleValueResponse {
            data: spec_lookup(m, spec_data_key(collection, id)),
            nonce: spec_lookup(m, spec_nonce_key(collection, id)),
        },
        crate::query::QueryV::GetByIds { ids, collection } => crate::message::MessageV::QueryResponse {
            data: spec_batch_ids(m, collection, ids, false),
            nonces: Some(spec_batch_ids(m, collection, ids, true)),
        },
    }
}

impl Datastore {
    /// Reads the rows (or their nonces) named by index entries, in
    /// order, passing over dangling entries.
    fn batch(&self, keys: &Vec<Vec<u8>>, nonce: bool) -> (r: Vec<Vec<u8>>)
        requires
            self.wf(),
        ensures
            r.deep_view() == spec_batch(self@, keys.deep_view(), nonce),
    {
        let ghost ks = keys.deep_view();
        let mut acc: Vec<Vec<u8>> = Vec::new();
        let mut i: usize = 0;
        proof {
            assert(acc.deep_view() =~= Seq::<Seq<u8>>::empty());
            assert(ks.skip(0) =~= ks);
            assert(acc.deep_view() + spec_batch(self@, ks, nonce) =~= spec_batch(
                self@,
                ks,
                nonce,
            ));
        }
        while i < keys.len()
            invariant
                self.wf(),
                ks == keys.deep_view(),
                i <= ks.len(),
                spec_batch(self@, ks, nonce) == acc.deep_view() + spec_batch(
                    self@,
                    ks.skip(i as int),
                    nonce,
                ),
            decreases ks.len() - i,
        {
            proof {
                assert(ks.skip(i as int)[0] == ks[i as int]);
                assert(ks.skip(i as int).drop_first() =~= ks.skip(i + 1));
            }
            let kb = vstd::slice::slice_to_vec(keys[i].as_slice());
            proof {
                assert(ks[i as int] == keys@[i as int]@);
                assert(kb@ == ks[i as int]);
            }
            let ghost acc0 = acc.deep_view();
            match crate::codec::bytes_to_string(kb) {
                Some(s) => {
                    proof {
                        vstd::utf8::encode_utf8_valid_utf8(s@);
                        vstd::utf8::encode_utf8_decode_utf8(s@);
                        assert(vstd::utf8::valid_utf8(ks[i as int]));
                        assert(vstd::utf8::decode_utf8(ks[i as int]) == s@);
                    }
                    let key = if nonce {
                        let mut k2 = s;
                        vstd::string::StringExecFns::append(&mut k2, ":nonce");
                        k2
                    } else {
                        s
                    };
                    match self.kv.get(&key) {
                        Some(v) => {
                            acc.push(v);
                            proof {
                                assert(acc.deep_view() =~~= acc0.push(self@[key@]));
                                assert(spec_batch_one(self@, ks[i as int], nonce) =~= seq![
                                    self@[key@],
                                ]);
                                assert(acc0 + (seq![self@[key@]] + spec_batch(
                                    self@,
                                    ks.skip(i + 1),
                                    nonce,
                                )) =~= acc0.push(self@[key@]) + spec_batch(
                                    self@,
                                    ks.skip(i + 1),
                                    nonce,
                                ));
                            }
                        }
                        None => {
                            proof {
                                assert(spec_batch_one(self@, ks[i as int], nonce) =~= Seq::<
                                    Seq<u8>,
                                >::empty());
                                assert(Seq::<Seq<u8>>::empty() + spec_batch(
                                    self@,
                                    ks.skip(i + 1),
                                    nonce,
                                ) =~= spec_batch(self@, ks.skip(i + 1), nonce));
                            }
                        }
                    }
                }
                None => {
                    proof {
                        if vstd::utf8::valid_utf8(ks[i as int]) {
                            assert(false);
                        }
                        assert(!vstd::utf8::valid_utf8(ks[i as int]));
                        assert(spec_batch_one(self@, ks[i as int], nonce) =~= Seq::<
                            Seq<u8>,
                        >::empty());
                        assert(Seq::<Seq<u8>>::empty() + spec_batch(self@, ks.skip(i + 1), nonce)
                            =~= spec_batch(self@, ks.skip(i + 1), nonce));
                    }
                }
            }
            i = i + 1;
        }
        proof {
            assert(ks.skip(ks.len() as int) =~= Seq::<Seq<u8>>::empty());
            assert(acc.deep_view() + Seq::<Seq<u8>>::empty() =~= acc.deep_view());
        }
        acc
    }

    /// The number a stored cell denotes.
    fn cell_value(v: &Vec<u8>) -> (r: i64)
        ensures
            r == spec_cell_value(v@),
    {
        match crate::codec::read_i64(v.as_slice(), 0) {
            Some((x, end)) => {
                if end == v.len() {
                    x
                } else {
                    0
                }
            }
            None => 0,
        }
    }

    /// Keeps the values within the optional inclusive bounds, in order.
    fn filter_range(vals: Vec<Vec<u8>>, lower: &Option<i64>, upper: &Option<i64>) -> (r: Vec<
        Vec<u8>,
    >)
        ensures
            r.deep_view() == spec_filter_range(vals.deep_view(), *lower, *upper),
    {
        let ghost vs = vals.deep_view();
        let mut acc: Vec<Vec<u8>> = Vec::new();
        let mut i: usize = 0;
        proof {
            assert(acc.deep_view() =~= Seq::<Seq<u8>>::empty());
            assert(vs.skip(0) =~= vs);
            assert(acc.deep_view() + spec_filter_range(vs, *lower, *upper) =~= spec_filter_range(
                vs,
                *lower,
                *upper,
            ));
        }
        while i < vals.len()
            invariant
                vs == vals.deep_view(),
                i <= vs.len(),
                spec_filter_range(vs, *lower, *upper) == acc.deep_view() + spec_filter_range(
                    vs.skip(i as int),
                    *lower,
                    *upper,
                ),
            decreases vs.len() - i,
        {
            proof {
                assert(vs.skip(i as int)[0] == vs[i as int]);
                assert(vs.skip(i as int).drop_first() =~= vs.skip(i + 1));
            }
            proof {
                assert(vs[i as int] == vals@[i as int]@);
            }
            let v = Self::cell_value(&vals[i]);
            proof {
                assert(v == spec_cell_value(vs[i as int]));
                assert(spec_filter_range(vs.skip(i as int), *lower, *upper) == (
                if spec_in_range(vs[i as int], *lower, *upper) {
                    seq![vs[i as int]] + spec_filter_range(vs.skip(i + 1), *lower, *upper)
                } else {
                    spec_filter_range(vs.skip(i + 1), *lower, *upper)
                }));
            }
            let keep = (match upper {
                Some(u) => v <= *u,
                None => true,
            }) && (match lower {
                Some(l) => *l <= v,
                None => true,
            });
            let ghost acc0 = acc.deep_view();
            if keep {
                let copy = vstd::slice::slice_to_vec(vals[i].as_slice());
                acc.push(copy);
                proof {
                    assert(acc.deep_view() =~~= acc0.push(vs[i as int]));
                    assert(acc0 + (seq![vs[i as int]] + spec_filter_range(
                        vs.skip(i + 1),
                        *lower,
                        *upper,
                    )) =~= acc0.push(vs[i as int]) + spec_filter_range(
                        vs.skip(i + 1),
                        *lower,
                        *upper,
                    ));
                }
            } else {
                proof {
                    assert(!spec_in_range(vs[i as int], *lower, *upper));
                }
            }
            i = i + 1;
        }
        proof {
            assert(vs.skip(vs.len() as int) =~= Seq::<Seq<u8>>::empty());
            assert(spec_filter_range(Seq::<Seq<u8>>::empty(), *lower, *upper) =~= Seq::<
                Seq<u8>,
            >::empty());
            assert(acc.deep_view() + Seq::<Seq<u8>>::empty() =~= acc.deep_view());
        }
        acc
    }

    /// Answers a single query.
    fn single_response(&self, q: &crate::query::SingleQuery) -> (r: crate::message::Message)
        requires
            self.wf(),
        ensures
            r@ == spec_single_response(self@, q@),
    {
        let uk = usecase_key(&q.collection, &q.usecase);
        if !self.kv.contains(&uk) {
            let r = crate::message::Message::QueryResponse { data: Vec::new(), nonces: None };
            proof {
                assert(r@ matches crate::message::MessageV::QueryResponse { data, nonces } && data
                    =~= Seq::<Seq<u8>>::empty() && nonces is None);
            }
            return r;
        }
        let keys = self.list_at(&uk);
        let data = self.batch(&keys, false);
        if q.upper_limit.is_some() || q.lower_limit.is_some() {
            crate::message::Message::QueryResponse {
                data: Self::filter_range(data, &q.lower_limit, &q.upper_limit),
                nonces: None,
            }
        } else {
            let nonces = self.batch(&keys, true);
            crate::message::Message::QueryResponse { data, nonces: Some(nonces) }
        }
    }

    /// Whether a byte string occurs in a list.
    fn mem(s: &Vec<Vec<u8>>, x: &Vec<u8>) -> (r: bool)
        ensures
            r == spec_mem(s.deep_view(), x@),
    {
        let mut i: usize = 0;
        while i < s.len()
            invariant
                i <= s.deep_view().len(),
                forall|j: int| 0 <= j < i ==> s.deep_view()[j] != x@,
            decreases s.deep_view().len() - i,
        {
            proof {
                assert(s.deep_view()[i as int] == s@[i as int]@);
            }
            if crate::keys::bytes_eq(s[i].as_slice(), x.as_slice()) {
                proof {
                    assert(s.deep_view()[i as int] == x@);
                }
                return true;
            }
            i = i + 1;
        }
        false
    }

    /// The keys of `a` that also occur in `b`, in the order of `a`.
    fn intersect(a: &Vec<Vec<u8>>, b: &Vec<Vec<u8>>) -> (r: Vec<Vec<u8>>)
        ensures
            r.deep_view() == spec_intersect(a.deep_view(), b.deep_view()),
    {
        let ghost av = a.deep_view();
        let mut acc: Vec<Vec<u8>> = Vec::new();
        let mut i: usize = 0;
        proof {
            assert(acc.deep_view() =~= Seq::<Seq<u8>>::empty());
            assert(av.skip(0) =~= av);
            assert(acc.deep_view() + spec_intersect(av, b.deep_view()) =~= spec_intersect(
                av,
                b.deep_view(),
            ));
        }
        while i < a.len()
            invariant
                av == a.deep_view(),
                i <= av.len(),
                spec_intersect(av, b.deep_view()) == acc.deep_view() + spec_intersect(
                    av.skip(i as int),
                    b.deep_view(),
                ),
            decreases av.len() - i,
        {
            proof {
                assert(av.skip(i as int)[0] == av[i as int]);
                assert(av.skip(i as int).drop_first() =~= av.skip(i + 1));
            }
            proof {
                assert(av[i as int] == a@[i as int]@);
            }
            let ghost acc0 = acc.deep_view();
            if Self::mem(b, &a[i]) {
                let copy = vstd::slice::slice_to_vec(a[i].as_slice());
                acc.push(copy);
                proof {
                    assert(acc.deep_view() =~~= acc0.push(av[i as int]));
                    assert(acc0 + (seq![av[i as int]] + spec_intersect(
                        av.skip(i + 1),
                        b.deep_view(),
                    )) =~= acc0.push(av[i as int]) + spec_intersect(av.skip(i + 1), b.deep_view()));
                }
            } else {
                proof {
                    assert(!spec_mem(b.deep_view(), av[i as int]));
                }
            }
            i = i + 1;
        }
        proof {
            assert(av.skip(av.len() as int) =~= Seq::<Seq<u8>>::empty());
            assert(acc.deep_view() + Seq::<Seq<u8>>::empty() =~= acc.deep_view());
        }
        acc
    }

    /// Appends the keys of `b` not already present in `a`.
    fn union(a: Vec<Vec<u8>>, b: &Vec<Vec<u8>>) -> (r: Vec<Vec<u8>>)
        ensures
            r.deep_view() == spec_union(a.deep_view(), b.deep_view()),
    {
        let ghost a0 = a.deep_view();
        let ghost bv = b.deep_view();
        let mut acc = a;
        let mut i: usize = 0;
        proof {
            assert(bv.skip(0) =~= bv);
        }
        while i < b.len()
            invariant
                bv == b.deep_view(),
                i <= bv.len(),
                spec_union(a0, bv) == spec_union(acc.deep_view(), bv.skip(i as int)),
            decreases bv.len() - i,
        {
            proof {
                assert(bv.skip(i as int)[0] == bv[i as int]);
                assert(bv.skip(i as int).drop_first() =~= bv.skip(i + 1));
            }
            proof {
                assert(bv[i as int] == b@[i as int]@);
            }
            let ghost acc0 = acc.deep_view();
            if !Self::mem(&acc, &b[i]) {
                let copy = vstd::slice::slice_to_vec(b[i].as_slice());
                acc.push(copy);
                proof {
                    assert(acc.deep_view() =~~= acc0.push(bv[i as int]));
                }
            }
            i = i + 1;
        }
        proof {
            assert(bv.skip(bv.len() as int) =~= Seq::<Seq<u8>>::empty());
        }
        acc
    }
}

impl Datastore {
    /// Collects the `(collection, usecase)` pairs of the single
    /// branches.
    fn single_children(qs: &Vec<crate::query::Query>) -> (r: Vec<(String, String)>)
        ensures
            r.deep_view() == spec_single_children(crate::query::spec_queries_view(qs@)),
    {
        let ghost qv = crate::query::spec_queries_view(qs@);
        proof {
            crate::query::lemma_queries_view_index(qs@);
        }
        let mut acc: Vec<(String, String)> = Vec::new();
        let mut i: usize = 0;
        proof {
            assert(acc.deep_view() =~= Seq::<(Seq<char>, Seq<char>)>::empty());
            assert(qv.skip(0) =~= qv);
            assert(acc.deep_view() + spec_single_children(qv) =~= spec_single_children(qv));
        }
        while i < qs.len()
            invariant
                qv == crate::query::spec_queries_view(qs@),
                qv.len() == qs@.len(),
                forall|k: int|
                    0 <= k < qv.len() ==> #[trigger] qv[k] == crate::query::spec_query_view(
                        qs@[k],
                    ),
                i <= qv.len(),
                spec_single_children(qv) == acc.deep_view() + spec_single_children(
                    qv.skip(i as int),
                ),
            decreases qv.len() - i,
        {
            proof {
                assert(qv.skip(i as int)[0] == qv[i as int]);
                assert(qv.skip(i as int).drop_first() =~= qv.skip(i + 1));
            }
            let ghost acc0 = acc.deep_view();
            match &qs[i] {
                crate::query::Query::Single(sq) => {
                    let c = <String as vstd::string::StringExecFns>::from_str(
                        sq.collection.as_str(),
                    );
                    let u = <String as vstd::string::StringExecFns>::from_str(sq.usecase.as_str());
                    acc.push((c, u));
                    proof {
                        assert(acc.deep_view() =~~= acc0.push((sq.collection@, sq.usecase@)));
                        assert(qv[i as int] == crate::query::spec_query_view(qs@[i as int]));
                        assert(acc0 + (seq![(sq.collection@, sq.usecase@)] + spec_single_children(
                            qv.skip(i + 1),
                        )) =~= acc0.push((sq.collection@, sq.usecase@)) + spec_single_children(
                            qv.skip(i + 1),
                        ));
                    }
                }
                _ => {
                    proof {
                        assert(qv[i as int] == crate::query::spec_query_view(qs@[i as int]));
                        assert(!(qv[i as int] is Single));
                    }
                }
            }
            i = i + 1;
        }
        proof {
            assert(qv.skip(qv.len() as int) =~= Seq::<crate::query::QueryV>::empty());
            assert(acc.deep_view() + Seq::<(Seq<char>, Seq<char>)>::empty() =~= acc.deep_view());
        }
        acc
    }

    /// Whether any single branch carries no range bound.
    fn any_non_ope(qs: &Vec<crate::query::Query>) -> (r: bool)
        ensures
            r == spec_any_non_ope(crate::query::spec_queries_view(qs@)),
    {
        let ghost qv = crate::query::spec_queries_view(qs@);
        proof {
            crate::query::lemma_queries_view_index(qs@);
        }
        let mut i: usize = 0;
        proof {
            assert(qv.skip(0) =~= qv);
        }
        while i < qs.len()
            invariant
                qv == crate::query::spec_queries_view(qs@),
                qv.len() == qs@.len(),
                forall|k: int|
                    0 <= k < qv.len() ==> #[trigger] qv[k] == crate::query::spec_query_view(
                        qs@[k],
                    ),
                i <= qv.len(),
                spec_any_non_ope(qv) == spec_any_non_ope(qv.skip(i as int)),
            decreases qv.len() - i,
        {
            proof {
                assert(qv.skip(i as int)[0] == qv[i as int]);
                assert(qv.skip(i as int).drop_first() =~= qv.skip(i + 1));
                assert(qv[i as int] == crate::query::spec_query_view(qs@[i as int]));
            }
            match &qs[i] {
                crate::query::Query::Single(sq) => {
                    if sq.upper_limit.is_none() && sq.lower_limit.is_none() {
                        return true;
                    }
                }
                _ => {}
            }
            i = i + 1;
        }
        proof {
            assert(qv.skip(qv.len() as int) =~= Seq::<crate::query::QueryV>::empty());
        }
        false
    }

    /// The combined key set of a compound query's single branches.
    fn compound_keys(&self, t: crate::query::QueryType, children: &Vec<(String, String)>) -> (r:
        Vec<Vec<u8>>)
        requires
            self.wf(),
        ensures
            r.deep_view() == spec_compound_keys(self@, t, children.deep_view()),
    {
        let ghost cs = children.deep_view();
        if children.len() == 0 {
            let r: Vec<Vec<u8>> = Vec::new();
            proof {
                assert(r.deep_view() =~= Seq::<Seq<u8>>::empty());
            }
            return r;
        }
        proof {
            assert(cs[0] == (children@[0].0@, children@[0].1@));
        }
        let uk0 = usecase_key(&children[0].0, &children[0].1);
        let mut acc = self.list_at(&uk0);
        let mut i: usize = 1;
        proof {
            assert(cs.len() == children@.len());
            assert(uk0@ == spec_usecase_key(cs[0].0, cs[0].1));
            assert(acc.deep_view() == spec_index_list(self@, cs[0].0, cs[0].1));
            assert(spec_compound_keys(self@, t, cs) == spec_compound_keys_rest(
                self@,
                t,
                acc.deep_view(),
                cs.drop_first(),
            ));
            assert(cs.drop_first() =~= cs.skip(1));
        }
        while i < children.len()
            invariant
                self.wf(),
                cs == children.deep_view(),
                1 <= i <= cs.len(),
                spec_compound_keys(self@, t, cs) == spec_compound_keys_rest(
                    self@,
                    t,
                    acc.deep_view(),
                    cs.skip(i as int),
                ),
            decreases cs.len() - i,
        {
            proof {
                assert(cs.skip(i as int)[0] == cs[i as int]);
                assert(cs.skip(i as int).drop_first() =~= cs.skip(i + 1));
                assert(cs[i as int] == (children@[i as int].0@, children@[i as int].1@));
            }
            let uk = usecase_key(&children[i].0, &children[i].1);
            let lst = self.list_at(&uk);
            acc = match t {
                crate::query::QueryType::And => Self::intersect(&acc, &lst),
                crate::query::QueryType::Or => Self::union(acc, &lst),
            };
            i = i + 1;
        }
        proof {
            assert(cs.skip(cs.len() as int) =~= Seq::<(Seq<char>, Seq<char>)>::empty());
        }
        acc
    }

    /// Answers a compound query.
    fn compound_response(&self, c: &crate::query::CompoundQuery) -> (r: crate::message::Message)
        requires
            self.wf(),
        ensures
            r@ == spec_compound_response(self@, c@),
    {
        let children = Self::single_children(&c.queries);
        let keys = self.compound_keys(c.query_type, &children);
        let data = self.batch(&keys, false);
        if Self::any_non_ope(&c.queries) {
            let nonces = self.batch(&keys, true);
            crate::message::Message::QueryResponse { data, nonces: Some(nonces) }
        } else {
            crate::message::Message::QueryResponse { data, nonces: None }
        }
    }

    /// The values stored under row identifiers of one collection.
    fn batch_ids(&self, collection: &String, ids: &Vec<String>, nonce: bool) -> (r: Vec<Vec<u8>>)
        requires
            self.wf(),
        ensures
            r.deep_view() == spec_batch_ids(self@, collection@, ids.deep_view(), nonce),
    {
        let ghost isv = ids.deep_view();
        let mut acc: Vec<Vec<u8>> = Vec::new();
        let mut i: usize = 0;
        proof {
            assert(acc.deep_view() =~= Seq::<Seq<u8>>::empty());
            assert(isv.skip(0) =~= isv);
            assert(acc.deep_view() + spec_batch_ids(self@, collection@, isv, nonce)
                =~= spec_batch_ids(self@, collection@, isv, nonce));
        }
        while i < ids.len()
            invariant
                self.wf(),
                isv == ids.deep_view(),
                i <= isv.len(),
                spec_batch_ids(self@, collection@, isv, nonce) == acc.deep_view() + spec_batch_ids(
                    self@,
                    collection@,
                    isv.skip(i as int),
                    nonce,
                ),
            decreases isv.len() - i,
        {
            proof {
                assert(isv.skip(i as int)[0] == isv[i as int]);
                assert(isv.skip(i as int).drop_first() =~= isv.skip(i + 1));
                assert(isv[i as int] == ids@[i as int]@);
            }
            let key = if nonce {
                nonce_key(collection, &ids[i])
            } else {
                data_key(collection, &ids[i])
            };
            let ghost acc0 = acc.deep_view();
            match self.kv.get(&key) {
                Some(v) => {
                    acc.push(v);
                    proof {
                        assert(acc.deep_view() =~~= acc0.push(self@[key@]));
                        assert(acc0 + (seq![self@[key@]] + spec_batch_ids(
                            self@,
                            collection@,
                            isv.skip(i + 1),
                            nonce,
                        )) =~= acc0.push(self@[key@]) + spec_batch_ids(
                            self@,
                            collection@,
                            isv.skip(i + 1),
                            nonce,
                        ));
                    }
                }
                None => {
                    proof {
                        assert(Seq::<Seq<u8>>::empty() + spec_batch_ids(
                            self@,
                            collection@,
                            isv.skip(i + 1),
                            nonce,
                        ) =~= spec_batch_ids(self@, collection@, isv.skip(i + 1), nonce));
                    }
                }
            }
            i = i + 1;
        }
        proof {
            assert(isv.skip(isv.len() as int) =~= Seq::<Seq<char>>::empty());
            assert(acc.deep_view() + Seq::<Seq<u8>>::empty() =~= acc.deep_view());
        }
        acc
    }

    /// Answers any query against the committed map: the whole query
    /// engine in one read-only transaction.
    pub fn handle_query(&self, q: &crate::query::Query) -> (r: crate::message::Message)
        requires
            self.wf(),
        ensures
            r@ == spec_query_response(self@, q@),
    {
        match q {
            crate::query::Query::Single(sq) => self.single_response(sq),
            crate::query::Query::Compound(c) => self.compound_response(c),
            crate::query::Query::GetById { id, collection } => {
                let (data, nonce) = self.get_by_id(collection, id);
                crate::message::Message::SingleValueResponse { data, nonce }
            }
            crate::query::Query::GetByIds { ids, collection } => {
                let data = self.batch_ids(collection, ids, false);
                let nonces = self.batch_ids(collection, ids, true);
                crate::message::Message::QueryResponse { data, nonces: Some(nonces) }
            }
        }
    }
}

// ---------------------------------------------------------------------
// laws of the engines
// ---------------------------------------------------------------------


/// An access-control key never collides with a use-case index key:
/// their last characters differ.
proof fn lemma_acl_not_usecase(c1: Seq<char>, id: Seq<char>, c2: Seq<char>, u: Seq<char>)
    ensures
        spec_acl_key(c1, id) != spec_usecase_key(c2, u),
{
    reveal_strlit(":acl");
    reveal_strlit(":usecase");
    let a = spec_acl_key(c1, id);
    let k = spec_usecase_key(c2, u);
    assert(a[a.len() - 1] == 'l');
    assert(k[k.len() - 1] == 'e');
    if a == k {
        assert(a.len() == k.len());
        assert(false);
    }
}

/// Appending index entries touches only the use-case keys of the listed
/// use cases.
pub proof fn lemma_insert_indexes_frame(
    m: Map<Seq<char>, Seq<u8>>,
    c: Seq<char>,
    dkb: Seq<u8>,
    us: Seq<Seq<char>>,
    k: Seq<char>,
)
    requires
        forall|j: int| 0 <= j < us.len() ==> k != spec_usecase_key(c, #[trigger] us[j]),
    ensures
        spec_insert_indexes(m, c, dkb, us).contains_key(k) == m.contains_key(k),
        m.contains_key(k) ==> spec_insert_indexes(m, c, dkb, us)[k] == m[k],
    decreases us.len(),
{
    if us.len() > 0 {
        assert(forall|j: int|
            0 <= j < us.drop_last().len() ==> #[trigger] us.drop_last()[j] == us[j]);
        lemma_insert_indexes_frame(m, c, dkb, us.drop_last(), k);
        assert(us.last() == us[us.len() - 1]);
        assert(k != spec_usecase_key(c, us.last()));
    }
}

/// After an insertion, reading the row by its identifier yields exactly
/// the bytes inserted.
pub proof fn lemma_insert_then_get(
    m: Map<Seq<char>, Seq<u8>>,
    ins: crate::message::InsertionV,
    id: Seq<char>,
)
    requires
        spec_valid_name(ins.collection),
        spec_valid_name(id),
        spec_valid_names(ins.usecases),
    ensures
        spec_lookup(spec_insert_map(m, ins, id), spec_data_key(ins.collection, id)) == Some(
            ins.data,
        ),
        spec_lookup(spec_insert_map(m, ins, id), spec_acl_key(ins.collection, id)) == Some(
            crate::codec::spec_enc_text_list(ins.acl),
        ),
{
    let dk = spec_data_key(ins.collection, id);
    let ak = spec_acl_key(ins.collection, id);
    let m1 = m.insert(dk, ins.data).insert(ak, crate::codec::spec_enc_text_list(ins.acl));
    assert forall|j: int| 0 <= j < ins.usecases.len() implies dk != spec_usecase_key(
        ins.collection,
        #[trigger] ins.usecases[j],
    ) by {
        lemma_data_key_distinct(ins.collection, id, ins.collection, ins.usecases[j]);
    }
    lemma_insert_indexes_frame(
        m1,
        ins.collection,
        vstd::utf8::encode_utf8(dk),
        ins.usecases,
        dk,
    );
    lemma_data_key_distinct(ins.collection, id, ins.collection, id);
    assert(dk != ak);
    assert(m1[dk] == ins.data);
    assert forall|j: int| 0 <= j < ins.usecases.len() implies ak != spec_usecase_key(
        ins.collection,
        #[trigger] ins.usecases[j],
    ) by {
        lemma_acl_not_usecase(ins.collection, id, ins.collection, ins.usecases[j]);
    }
    lemma_insert_indexes_frame(
        m1,
        ins.collection,
        vstd::utf8::encode_utf8(dk),
        ins.usecases,
        ak,
    );
}

/// After a deletion, reading the row by its identifier yields nothing.
pub proof fn lemma_delete_then_get(m: Map<Seq<char>, Seq<u8>>, c: Seq<char>, id: Seq<char>)
    ensures
        spec_lookup(m.remove(spec_data_key(c, id)), spec_data_key(c, id)) is None,
{
}

/// After an insertion under pairwise-distinct use cases, the index of
/// each listed use case has grown by exactly one entry: the new row's
/// data key. A count on the pair therefore rises by one per successful
/// insert.
pub proof fn lemma_insert_bumps_count(
    m: Map<Seq<char>, Seq<u8>>,
    ins: crate::message::InsertionV,
    id: Seq<char>,
    j: int,
)
    requires
        spec_valid_name(ins.collection),
        spec_valid_name(id),
        spec_valid_names(ins.usecases),
        0 <= j < ins.usecases.len(),
        forall|a: int, b: int|
            0 <= a < b < ins.usecases.len() ==> #[trigger] ins.usecases[a]
                != #[trigger] ins.usecases[b],
        spec_index_list(m, ins.collection, ins.usecases[j]).len() < u64::MAX,
        vstd::utf8::encode_utf8(spec_data_key(ins.collection, id)).len()
            < 0x1_0000_0000_0000_0000,
    ensures
        spec_index_list(spec_insert_map(m, ins, id), ins.collection, ins.usecases[j])
            == spec_index_list(m, ins.collection, ins.usecases[j]).push(
            vstd::utf8::encode_utf8(spec_data_key(ins.collection, id)),
        ),
{
    let c = ins.collection;
    let dk = spec_data_key(c, id);
    let dkb = vstd::utf8::encode_utf8(dk);
    let ak = spec_acl_key(c, id);
    let m1 = m.insert(dk, ins.data).insert(ak, crate::codec::spec_enc_text_list(ins.acl));
    let uk = spec_usecase_key(c, ins.usecases[j]);
    // the base writes leave every use-case index untouched
    lemma_data_key_distinct(c, id, c, ins.usecases[j]);
    lemma_acl_not_usecase(c, id, c, ins.usecases[j]);
    assert(uk != dk && uk != ak);
    assert(spec_list_at(m1, uk) == spec_list_at(m, uk));
    lemma_insert_indexes_at(m1, c, dkb, ins.usecases, j);
}

/// Appending index entries writes each distinct use case exactly once,
/// leaving its prior entries in front of the new data key.
proof fn lemma_insert_indexes_at(
    m: Map<Seq<char>, Seq<u8>>,
    c: Seq<char>,
    dkb: Seq<u8>,
    us: Seq<Seq<char>>,
    j: int,
)
    requires
        spec_valid_name(c),
        spec_valid_names(us),
        0 <= j < us.len(),
        forall|a: int, b: int| 0 <= a < b < us.len() ==> #[trigger] us[a] != #[trigger] us[b],
        spec_list_at(m, spec_usecase_key(c, us[j])).len() < u64::MAX,
        dkb.len() < 0x1_0000_0000_0000_0000,
    ensures
        spec_list_at(spec_insert_indexes(m, c, dkb, us), spec_usecase_key(c, us[j]))
            == spec_list_at(m, spec_usecase_key(c, us[j])).push(dkb),
    decreases us.len(),
{
    let uk = spec_usecase_key(c, us[j]);
    let prior = spec_insert_indexes(m, c, dkb, us.drop_last());
    assert(forall|a: int| 0 <= a < us.drop_last().len() ==> #[trigger] us.drop_last()[a] == us[a]);
    if j == us.len() - 1 {
        // the last step writes this use case; earlier steps never touch it
        assert forall|a: int| 0 <= a < us.drop_last().len() implies uk != spec_usecase_key(
            c,
            #[trigger] us.drop_last()[a],
        ) by {
            lemma_usecase_key_inj_contra(c, us[j], c, us[a]);
        }
        lemma_insert_indexes_frame(m, c, dkb, us.drop_last(), uk);
        if m.contains_key(uk) {
            assert(prior.contains_key(uk) && prior[uk] == m[uk]);
        } else {
            assert(!prior.contains_key(uk));
        }
        assert(spec_list_at(prior, uk) == spec_list_at(m, uk));
        let lst = spec_list_at(prior, uk);
        lemma_list_at_wf(prior, uk);
        let written = crate::codec::spec_enc_bytes_list(lst.push(dkb));
        assert(spec_insert_indexes(m, c, dkb, us) == prior.insert(uk, written));
        assert(forall|i: int|
            0 <= i < lst.push(dkb).len() ==> crate::codec::bytes_wf(#[trigger] lst.push(dkb)[i]));
        lemma_list_round_trip(lst.push(dkb));
        assert(spec_list_at(prior.insert(uk, written), uk) == lst.push(dkb));
    } else {
        lemma_insert_indexes_at(m, c, dkb, us.drop_last(), j);
        let k2 = spec_usecase_key(c, us.last());
        lemma_usecase_key_inj_contra(c, us[j], c, us.last());
        assert(uk != k2);
        assert(spec_insert_indexes(m, c, dkb, us) == prior.insert(
            k2,
            crate::codec::spec_enc_bytes_list(spec_list_at(prior, k2).push(dkb)),
        ));
    }
}

/// What a stored index decodes to is itself encodable: its count fits
/// the header argument and so does each entry.
proof fn lemma_list_at_wf(m: Map<Seq<char>, Seq<u8>>, k: Seq<char>)
    ensures
        spec_list_at(m, k).len() <= u64::MAX,
        forall|i: int|
            0 <= i < spec_list_at(m, k).len() ==> crate::codec::bytes_wf(
                #[trigger] spec_list_at(m, k)[i],
            ),
{
    if m.contains_key(k) {
        let b = m[k];
        match crate::codec::spec_dec_bytes_list(b, 0) {
            Some((vs, end)) => {
                match crate::cbor::spec_dec_header(b, 0) {
                    Some((major, arg, p2)) => {
                        if major == 4 {
                            crate::codec::lemma_dec_bytes_items_wf(b, p2, arg);
                        }
                    }
                    None => {}
                }
            }
            None => {}
        }
    }
}

/// Distinct use-case names give distinct index keys.
proof fn lemma_usecase_key_inj_contra(c1: Seq<char>, u1: Seq<char>, c2: Seq<char>, u2: Seq<char>)
    requires
        spec_valid_name(c1),
        spec_valid_name(u1),
        spec_valid_name(c2),
        spec_valid_name(u2),
        u1 != u2,
    ensures
        spec_usecase_key(c1, u1) != spec_usecase_key(c2, u2),
{
    if spec_usecase_key(c1, u1) == spec_usecase_key(c2, u2) {
        lemma_usecase_key_injective(c1, u1, c2, u2);
    }
}

/// A list whose elements fit the header argument reads back from its
/// own encoding.
proof fn lemma_list_round_trip(vs: Seq<Seq<u8>>)
    requires
        vs.len() < 0x1_0000_0000_0000_0000,
        forall|i: int| 0 <= i < vs.len() ==> crate::codec::bytes_wf(#[trigger] vs[i]),
    ensures
        spec_dec_bytes_list_full(crate::codec::spec_enc_bytes_list(vs)) == Some(vs),
{
    let b = crate::codec::spec_enc_bytes_list(vs);
    assert(b.subrange(0, b.len() as int) =~= b);
    crate::codec::lemma_bytes_list_round_trip(b, 0, vs);
}

/// Dropping a use case empties its index: a count on the pair then
/// reads zero.
pub proof fn lemma_drop_resets_count(m: Map<Seq<char>, Seq<u8>>, c: Seq<char>, u: Seq<char>)
    ensures
        spec_index_list(m.remove(spec_usecase_key(c, u)), c, u) == Seq::<Seq<u8>>::empty(),
{
}

/// Every value an order-preserving range query returns lies within the
/// bounds, inclusively at both ends.
pub proof fn lemma_filter_range_sound(vals: Seq<Seq<u8>>, lower: Option<i64>, upper: Option<i64>)
    ensures
        forall|i: int|
            0 <= i < spec_filter_range(vals, lower, upper).len() ==> spec_in_range(
                #[trigger] spec_filter_range(vals, lower, upper)[i],
                lower,
                upper,
            ),
    decreases vals.len(),
{
    if vals.len() > 0 {
        lemma_filter_range_sound(vals.drop_first(), lower, upper);
        let r = spec_filter_range(vals, lower, upper);
        let rest = spec_filter_range(vals.drop_first(), lower, upper);
        assert forall|i: int| 0 <= i < r.len() implies spec_in_range(r[i], lower, upper) by {
            if spec_in_range(vals[0], lower, upper) {
                if i > 0 {
                    assert(r[i] == rest[i - 1]);
                }
            } else {
                assert(r[i] == rest[i]);
            }
        }
    }
}

/// The answer to an order-preserving single query holds only values
/// within its bounds, and never the nonces.
pub proof fn lemma_ope_query_sound(
    m: Map<Seq<char>, Seq<u8>>,
    q: crate::query::SingleQueryV,
    data: Seq<Seq<u8>>,
    nonces: Option<Seq<Seq<u8>>>,
    i: int,
)
    requires
        q.upper_limit is Some || q.lower_limit is Some,
        spec_single_response(m, q) == (crate::message::MessageV::QueryResponse { data, nonces }),
        0 <= i < data.len(),
    ensures
        nonces is None,
        spec_in_range(data[i], q.lower_limit, q.upper_limit),
{
    if m.contains_key(spec_usecase_key(q.collection, q.usecase)) {
        let keys = spec_index_list(m, q.collection, q.usecase);
        lemma_filter_range_sound(spec_batch(m, keys, false), q.lower_limit, q.upper_limit);
    }
}

/// Relies on `uuid::Uuid::new_v4` and `to_string`: the canonical
/// hyphenated form of a version-4 identifier is 36 characters of
/// hexadecimal digits and hyphens, so it never holds a separator. A
/// failing random source aborts inside the callee and cannot be handed
/// back.
#[verifier::external_body]
pub fn fresh_id() -> (r: String)
    ensures
        r@.len() == 36,
        spec_valid_name(r@),
{
    uuid::Uuid::new_v4().to_string()
}

impl Datastore {
    /// Inserts a row under a freshly generated identifier and hands the
    /// identifier back. Nothing changes and nothing is returned when a
    /// name is unfit for a key, or in the improbable event that the
    /// fresh identifier is already taken.
    pub fn insert_new(&mut self, ins: &crate::message::Insertion) -> (r: Option<String>)
        requires
            old(self).wf(),
        ensures
            final(self).wf(),
            match r {
                Some(id) => spec_valid_name(id@) && id@.len() == 36 && !old(self)@.contains_key(
                    spec_data_key(ins.collection@, id@),
                ) && final(self)@ == spec_insert_map(old(self)@, ins@, id@),
                None => final(self)@ == old(self)@,
            },
            !(spec_valid_name(ins.collection@) && spec_valid_names(ins.usecases.deep_view()))
                ==> r is None,
    {
        let id = fresh_id();
        if self.insert(ins, &id) {
            Some(id)
        } else {
            None
        }
    }
}

/// The store after a sequence of insertions, each under its generated
/// identifier, applied in order.
pub open spec fn spec_apply_inserts(
    m: Map<Seq<char>, Seq<u8>>,
    entries: Seq<(crate::message::InsertionV, Seq<char>)>,
) -> Map<Seq<char>, Seq<u8>>
    decreases entries.len(),
{
    if entries.len() == 0 {
        m
    } else {
        spec_insert_map(
            spec_apply_inserts(m, entries.drop_last()),
            entries.last().0,
            entries.last().1,
        )
    }
}

/// One insertion of a sequence aimed at the pair `(c, u)`: it inserts
/// into that collection, lists the use case once among pairwise-distinct
/// valid use cases, and carries a valid identifier whose data key fits a
/// header argument.
pub open spec fn spec_insert_targets(
    e: (crate::message::InsertionV, Seq<char>),
    c: Seq<char>,
    u: Seq<char>,
) -> bool {
    &&& e.0.collection == c
    &&& spec_valid_name(e.1)
    &&& spec_valid_names(e.0.usecases)
    &&& (exists|j: int| 0 <= j < e.0.usecases.len() && e.0.usecases[j] == u)
    &&& (forall|a: int, b: int|
        0 <= a < b < e.0.usecases.len() ==> #[trigger] e.0.usecases[a]
            != #[trigger] e.0.usecases[b])
    &&& vstd::utf8::encode_utf8(spec_data_key(c, e.1)).len() < 0x1_0000_0000_0000_0000
}

/// For any sequence of insertions on the same `(collection, usecase)`,
/// the pair's index grows by exactly one entry per insertion, so a
/// count on the pair reads the number of insertions; a drop on the pair
/// afterwards resets the count to zero.
pub proof fn lemma_count_after_insert_sequence(
    m: Map<Seq<char>, Seq<u8>>,
    entries: Seq<(crate::message::InsertionV, Seq<char>)>,
    c: Seq<char>,
    u: Seq<char>,
)
    requires
        spec_valid_name(c),
        spec_valid_name(u),
        forall|i: int| 0 <= i < entries.len() ==> spec_insert_targets(#[trigger] entries[i], c, u),
        spec_index_list(m, c, u).len() + entries.len() < u64::MAX,
    ensures
        spec_index_list(spec_apply_inserts(m, entries), c, u).len() == spec_index_list(
            m,
            c,
            u,
        ).len() + entries.len(),
    decreases entries.len(),
{
    if entries.len() > 0 {
        assert(forall|i: int|
            0 <= i < entries.drop_last().len() ==> #[trigger] entries.drop_last()[i]
                == entries[i]);
        lemma_count_after_insert_sequence(m, entries.drop_last(), c, u);
        let prefix = spec_apply_inserts(m, entries.drop_last());
        let e = entries.last();
        assert(spec_insert_targets(e, c, u)) by {
            assert(entries[entries.len() - 1] == e);
        }
        let j = choose|j: int| 0 <= j < e.0.usecases.len() && e.0.usecases[j] == u;
        lemma_insert_bumps_count(prefix, e.0, e.1, j);
    }
}

/// Membership after appending one key.
proof fn lemma_mem_push(a: Seq<Seq<u8>>, x: Seq<u8>, k: Seq<u8>)
    ensures
        spec_mem(a.push(x), k) <==> (spec_mem(a, k) || k == x),
{
    if spec_mem(a.push(x), k) {
        let i = choose|i: int| 0 <= i < a.push(x).len() && a.push(x)[i] == k;
        if i < a.len() {
            assert(a[i] == k);
        }
    }
    if spec_mem(a, k) {
        let i = choose|i: int| 0 <= i < a.len() && a[i] == k;
        assert(a.push(x)[i] == k);
    }
    if k == x {
        assert(a.push(x)[a.len() as int] == k);
    }
}

/// Membership after prepending one key.
proof fn lemma_mem_cons(x: Seq<u8>, r: Seq<Seq<u8>>, k: Seq<u8>)
    ensures
        spec_mem(seq![x] + r, k) <==> (k == x || spec_mem(r, k)),
{
    if spec_mem(seq![x] + r, k) {
        let i = choose|i: int| 0 <= i < (seq![x] + r).len() && (seq![x] + r)[i] == k;
        if i > 0 {
            assert(r[i - 1] == k);
        }
    }
    if k == x {
        assert((seq![x] + r)[0] == k);
    }
    if spec_mem(r, k) {
        let i = choose|i: int| 0 <= i < r.len() && r[i] == k;
        assert((seq![x] + r)[i + 1] == k);
    }
}

/// A key of the intersection occurs in both lists.
proof fn lemma_intersect_mem(a: Seq<Seq<u8>>, b: Seq<Seq<u8>>, k: Seq<u8>)
    requires
        spec_mem(spec_intersect(a, b), k),
    ensures
        spec_mem(a, k),
        spec_mem(b, k),
    decreases a.len(),
{
    let rest = spec_intersect(a.drop_first(), b);
    if spec_mem(b, a[0]) {
        lemma_mem_cons(a[0], rest, k);
        if k == a[0] {
            assert(a[0] == k);
        } else {
            lemma_intersect_mem(a.drop_first(), b, k);
            let i = choose|i: int| 0 <= i < a.drop_first().len() && a.drop_first()[i] == k;
            assert(a[i + 1] == k);
        }
    } else {
        lemma_intersect_mem(a.drop_first(), b, k);
        let i = choose|i: int| 0 <= i < a.drop_first().len() && a.drop_first()[i] == k;
        assert(a[i + 1] == k);
    }
}

/// A key is in the union exactly when it is in one of the lists.
proof fn lemma_union_mem(a: Seq<Seq<u8>>, b: Seq<Seq<u8>>, k: Seq<u8>)
    ensures
        spec_mem(spec_union(a, b), k) <==> (spec_mem(a, k) || spec_mem(b, k)),
    decreases b.len(),
{
    if b.len() == 0 {
        if spec_mem(b, k) {
            let i = choose|i: int| 0 <= i < b.len() && b[i] == k;
        }
    } else {
        let a2 = if spec_mem(a, b[0]) {
            a
        } else {
            a.push(b[0])
        };
        lemma_union_mem(a2, b.drop_first(), k);
        lemma_mem_push(a, b[0], k);
        if spec_mem(b, k) {
            let i = choose|i: int| 0 <= i < b.len() && b[i] == k;
            if i > 0 {
                assert(b.drop_first()[i - 1] == k);
            }
        }
        if spec_mem(b.drop_first(), k) {
            let i = choose|i: int| 0 <= i < b.drop_first().len() && b.drop_first()[i] == k;
            assert(b[i + 1] == k);
        }
        if k == b[0] {
            assert(b[0] == k);
        }
    }
}

/// Folding the remaining branches of a conjunction only narrows the key
/// set: a key of the result occurs in the accumulator and in every
/// remaining branch's index.
proof fn lemma_and_rest_sound(
    m: Map<Seq<char>, Seq<u8>>,
    acc: Seq<Seq<u8>>,
    children: Seq<(Seq<char>, Seq<char>)>,
    k: Seq<u8>,
)
    requires
        spec_mem(
            spec_compound_keys_rest(m, crate::query::QueryType::And, acc, children),
            k,
        ),
    ensures
        spec_mem(acc, k),
        forall|i: int|
            0 <= i < children.len() ==> spec_mem(
                spec_index_list(m, (#[trigger] children[i]).0, children[i].1),
                k,
            ),
    decreases children.len(),
{
    if children.len() > 0 {
        let lst = spec_index_list(m, children[0].0, children[0].1);
        lemma_and_rest_sound(m, spec_intersect(acc, lst), children.drop_first(), k);
        lemma_intersect_mem(acc, lst, k);
        assert forall|i: int|
            0 <= i < children.len() implies spec_mem(
            spec_index_list(m, (#[trigger] children[i]).0, children[i].1),
            k,
        ) by {
            if i > 0 {
                assert(children.drop_first()[i - 1] == children[i]);
            }
        }
    }
}

/// Every key a conjunction settles on is indexed by each of its single
/// branches: the conjunction is the intersection of their indexes.
pub proof fn lemma_compound_and_sound(
    m: Map<Seq<char>, Seq<u8>>,
    children: Seq<(Seq<char>, Seq<char>)>,
    k: Seq<u8>,
    i: int,
)
    requires
        spec_mem(spec_compound_keys(m, crate::query::QueryType::And, children), k),
        0 <= i < children.len(),
    ensures
        spec_mem(spec_index_list(m, children[i].0, children[i].1), k),
{
    let first = spec_index_list(m, children[0].0, children[0].1);
    lemma_and_rest_sound(m, first, children.drop_first(), k);
    if i > 0 {
        assert(children.drop_first()[i - 1] == children[i]);
    }
}

/// Folding the remaining branches of a disjunction accumulates exactly
/// the keys of the accumulator and of the remaining branches' indexes.
proof fn lemma_or_rest_complete(
    m: Map<Seq<char>, Seq<u8>>,
    acc: Seq<Seq<u8>>,
    children: Seq<(Seq<char>, Seq<char>)>,
    k: Seq<u8>,
)
    ensures
        spec_mem(
            spec_compound_keys_rest(m, crate::query::QueryType::Or, acc, children),
            k,
        ) <==> (spec_mem(acc, k) || exists|i: int|
            0 <= i < children.len() && spec_mem(
                spec_index_list(m, (#[trigger] children[i]).0, children[i].1),
                k,
            )),
    decreases children.len(),
{
    if children.len() > 0 {
        let lst = spec_index_list(m, children[0].0, children[0].1);
        lemma_or_rest_complete(m, spec_union(acc, lst), children.drop_first(), k);
        lemma_union_mem(acc, lst, k);
        if exists|i: int|
            0 <= i < children.len() && spec_mem(
                spec_index_list(m, (#[trigger] children[i]).0, children[i].1),
                k,
            ) {
            let i = choose|i: int|
                0 <= i < children.len() && spec_mem(
                    spec_index_list(m, (#[trigger] children[i]).0, children[i].1),
                    k,
                );
            if i > 0 {
                assert(children.drop_first()[i - 1] == children[i]);
            }
        }
        if exists|i: int|
            0 <= i < children.drop_first().len() && spec_mem(
                spec_index_list(
                    m,
                    (#[trigger] children.drop_first()[i]).0,
                    children.drop_first()[i].1,
                ),
                k,
            ) {
            let i = choose|i: int|
                0 <= i < children.drop_first().len() && spec_mem(
                    spec_index_list(
                        m,
                        (#[trigger] children.drop_first()[i]).0,
                        children.drop_first()[i].1,
                    ),
                    k,
                );
            assert(children.drop_first()[i] == children[i + 1]);
        }
    }
}

/// A disjunction settles on exactly the keys indexed by at least one of
/// its single branches: the disjunction is the union of their indexes.
pub proof fn lemma_compound_or_complete(
    m: Map<Seq<char>, Seq<u8>>,
    children: Seq<(Seq<char>, Seq<char>)>,
    k: Seq<u8>,
)
    requires
        children.len() > 0,
    ensures
        spec_mem(spec_compound_keys(m, crate::query::QueryType::Or, children), k) <==> exists|
            i: int,
        |
            0 <= i < children.len() && spec_mem(
                spec_index_list(m, (#[trigger] children[i]).0, children[i].1),
                k,
            ),
{
    let first = spec_index_list(m, children[0].0, children[0].1);
    lemma_or_rest_complete(m, first, children.drop_first(), k);
    if spec_mem(first, k) {
        assert(spec_mem(spec_index_list(m, (children[0]).0, children[0].1), k));
    }
    if exists|i: int|
        0 <= i < children.drop_first().len() && spec_mem(
            spec_index_list(
                m,
                (#[trigger] children.drop_first()[i]).0,
                children.drop_first()[i].1,
            ),
            k,
        ) {
        let i = choose|i: int|
            0 <= i < children.drop_first().len() && spec_mem(
                spec_index_list(
                    m,
                    (#[trigger] children.drop_first()[i]).0,
                    children.drop_first()[i].1,
                ),
                k,
            );
        assert(children.drop_first()[i] == children[i + 1]);
    }
    if exists|i: int|
        0 <= i < children.len() && spec_mem(
            spec_index_list(m, (#[trigger] children[i]).0, children[i].1),
            k,
        ) {
        let i = choose|i: int|
            0 <= i < children.len() && spec_mem(
                spec_index_list(m, (#[trigger] children[i]).0, children[i].1),
                k,
            );
        if i > 0 {
            assert(children.drop_first()[i - 1] == children[i]);
        }
    }
}

} // verus!

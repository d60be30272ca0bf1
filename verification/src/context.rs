//! A cache of the latest data of each sentence type, the least recently used
//! type giving way when the cache is full.
use vstd::prelude::*;

use lru::LruCache;

use crate::error::ParseError;
use crate::generic::{GenericNmeaData, NmeaDataType};
use crate::text::sbytes;

verus! {

#[verifier::external_type_specification]
#[verifier::external_body]
#[verifier::reject_recursive_types(K)]
#[verifier::reject_recursive_types(V)]
#[verifier::reject_recursive_types(S)]
pub struct ExLruCache<K, V, S>(LruCache<K, V, S>);

#[verifier::external_type_specification]
#[verifier::external_body]
pub struct ExDefaultHasher(lru::DefaultHasher);

/// An entry of the cache: a sentence type and its latest data.
pub type Entry = (NmeaDataType, GenericNmeaData);

/// The entries of an `lru::LruCache`, the most recently used first.
pub uninterp spec fn lru_entries(c: LruCache<NmeaDataType, GenericNmeaData>) -> Seq<Entry>;

/// The number of entries an `lru::LruCache` holds at most, as it was made.
pub uninterp spec fn lru_cap(c: LruCache<NmeaDataType, GenericNmeaData>) -> nat;

/// Where the entry of type `k` is in `e`, if there is one.
pub open spec fn key_at(e: Seq<Entry>, k: NmeaDataType) -> Option<int>
    decreases e.len(),
{
    if e.len() == 0 {
        None
    } else if e[0].0 == k {
        Some(0)
    } else {
        match key_at(e.skip(1), k) {
            Some(i) => Some(i + 1),
            None => None,
        }
    }
}

/// The data of type `k` in `e`, if there is an entry of that type.
pub open spec fn data_of(e: Seq<Entry>, k: NmeaDataType) -> Option<GenericNmeaData> {
    match key_at(e, k) {
        Some(i) => Some(e[i].1),
        None => None,
    }
}

/// The type that gives way when data of type `k` is put in: the least
/// recently used one, when the cache is full and holds no entry of type `k`.
pub open spec fn evicted(e: Seq<Entry>, cap: nat, k: NmeaDataType) -> Option<NmeaDataType> {
    if key_at(e, k) is None && e.len() == cap && e.len() > 0 {
        Some(e.last().0)
    } else {
        None
    }
}

/// No two entries are of one type, there are at most `cap` of them, and
/// `cap` is not zero.
pub open spec fn entries_wf(e: Seq<Entry>, cap: nat) -> bool {
    &&& 0 < cap
    &&& e.len() <= cap
    &&& forall|i: int, j: int| 0 <= i < j < e.len() ==> e[i].0 != e[j].0
}

/// The entries after the data `v` of type `k` is put in: it comes first,
/// replacing the entry of its type; when there is none and the cache is
/// full, the least recently used entry gives way.
pub open spec fn after_put(e: Seq<Entry>, cap: nat, k: NmeaDataType, v: GenericNmeaData) -> Seq<Entry> {
    match key_at(e, k) {
        Some(i) => seq![(k, v)] + e.remove(i),
        None => if e.len() == cap {
            seq![(k, v)] + e.drop_last()
        } else {
            seq![(k, v)] + e
        },
    }
}

/// The entries after the entry of type `k` is used: it moves to the front.
pub open spec fn after_use(e: Seq<Entry>, k: NmeaDataType) -> Seq<Entry> {
    match key_at(e, k) {
        Some(i) => seq![e[i]] + e.remove(i),
        None => e,
    }
}

/// What a search for a type finds: the entry of that type, if any.
pub proof fn lemma_key_at(e: Seq<Entry>, k: NmeaDataType)
    ensures
        key_at(e, k) matches Some(i) ==> 0 <= i < e.len() && e[i].0 == k && forall|j: int|
            0 <= j < i ==> e[j].0 != k,
        key_at(e, k) is None ==> forall|j: int| 0 <= j < e.len() ==> e[j].0 != k,
    decreases e.len(),
{
    if e.len() > 0 && e[0].0 != k {
        lemma_key_at(e.skip(1), k);
        if let Some(i) = key_at(e.skip(1), k) {
            assert(e.skip(1)[i] == e[i + 1]);
            assert forall|j: int| 0 <= j < i + 1 implies e[j].0 != k by {
                if j > 0 {
                    assert(e.skip(1)[j - 1] == e[j]);
                }
            }
        } else {
            assert forall|j: int| 0 <= j < e.len() implies e[j].0 != k by {
                if j > 0 {
                    assert(e.skip(1)[j - 1] == e[j]);
                }
            }
        }
    }
}

/// `lru::LruCache::new`, with `cap` made a `NonZeroUsize`: an empty cache
/// that holds at most `cap` entries.
#[verifier::external_body]
fn lru_new(cap: usize) -> (c: LruCache<NmeaDataType, GenericNmeaData>)
    requires
        cap > 0,
    ensures
        lru_entries(c) == Seq::<Entry>::empty(),
        lru_cap(c) == cap,
{
    LruCache::new(std::num::NonZeroUsize::new(cap).unwrap())
}

/// `lru::LruCache::put`: the entry comes first, replacing the one of its
/// type; when there is none and the cache is full, the least recently used
/// entry is dropped.
#[verifier::external_body]
fn lru_put(c: &mut LruCache<NmeaDataType, GenericNmeaData>, k: NmeaDataType, v: GenericNmeaData)
    requires
        entries_wf(lru_entries(*old(c)), lru_cap(*old(c))),
    ensures
        lru_cap(*final(c)) == lru_cap(*old(c)),
        lru_entries(*final(c)) == after_put(lru_entries(*old(c)), lru_cap(*old(c)), k, v),
{
    c.put(k, v);
}

/// `lru::LruCache::get`, with the value found cloned: the data of type `k`,
/// whose entry moves to the front.
#[verifier::external_body]
fn lru_get(c: &mut LruCache<NmeaDataType, GenericNmeaData>, k: &NmeaDataType) -> (r: Option<
    GenericNmeaData,
>)
    ensures
        lru_cap(*final(c)) == lru_cap(*old(c)),
        lru_entries(*final(c)) == after_use(lru_entries(*old(c)), *k),
        r == data_of(lru_entries(*old(c)), *k),
{
    c.get(k).cloned()
}

/// `lru::LruCache::contains`: whether an entry of type `k` is held; the
/// order of use stays as it is.
#[verifier::external_body]
fn lru_contains(c: &LruCache<NmeaDataType, GenericNmeaData>, k: &NmeaDataType) -> (r: bool)
    ensures
        r == key_at(lru_entries(*c), *k) is Some,
{
    c.contains(k)
}

/// `lru::LruCache::len`: the number of entries held.
#[verifier::external_body]
fn lru_len(c: &LruCache<NmeaDataType, GenericNmeaData>) -> (r: usize)
    ensures
        r == lru_entries(*c).len(),
{
    c.len()
}

/// The latest data of each sentence type that was read, up to a number of
/// types; the least recently used type gives way to a new one.
pub struct NmeaCache {
    lru: LruCache<NmeaDataType, GenericNmeaData>,
}

impl NmeaCache {
    /// The entries held, the most recently used first.
    pub closed spec fn entries(&self) -> Seq<Entry> {
        lru_entries(self.lru)
    }

    /// The number of types the cache holds at most.
    pub closed spec fn capacity(&self) -> nat {
        lru_cap(self.lru)
    }

    /// The cache's entries are of distinct types and no more than its
    /// capacity, which is not zero.
    pub open spec fn wf(&self) -> bool {
        entries_wf(self.entries(), self.capacity())
    }

    /// An empty cache for at most `capacity` types.
    pub fn new(capacity: usize) -> (r: Self)
        requires
            capacity > 0,
        ensures
            r.entries() == Seq::<Entry>::empty(),
            r.capacity() == capacity,
            r.wf(),
    {
        NmeaCache { lru: lru_new(capacity) }
    }

    /// Puts the data `v` of type `k` in, as the most recently used.
    pub fn put(&mut self, k: NmeaDataType, v: GenericNmeaData)
        requires
            old(self).wf(),
        ensures
            final(self).capacity() == old(self).capacity(),
            final(self).entries() == after_put(old(self).entries(), old(self).capacity(), k, v),
            final(self).wf(),
    {
        proof {
            lemma_after_put_wf(self.entries(), self.capacity(), k, v);
        }
        lru_put(&mut self.lru, k, v);
    }

    /// Reads a sentence by its type and puts its data in; the cache stays as
    /// it is when the sentence cannot be read.
    pub fn push(&mut self, sentence: &str) -> (r: Result<(), ParseError>)
        requires
            old(self).wf(),
            GenericNmeaData::readable(sbytes(sentence)),
        ensures
            final(self).wf(),
            final(self).capacity() == old(self).capacity(),
            r is Ok ==> exists|k: NmeaDataType, v: GenericNmeaData|
                #![trigger after_put(old(self).entries(), old(self).capacity(), k, v)]
                GenericNmeaData::spec_parse(sbytes(sentence), Ok((k, v))) && final(self).entries()
                    == after_put(old(self).entries(), old(self).capacity(), k, v),
            r matches Err(e) ==> GenericNmeaData::spec_parse(sbytes(sentence), Err(e))
                && final(self).entries() == old(self).entries(),
    {
        let (k, v) = GenericNmeaData::parse(sentence)?;
        self.put(k, v);
        Ok(())
    }

    /// The latest data of type `k`, which becomes the most recently used.
    pub fn get(&mut self, k: NmeaDataType) -> (r: Option<GenericNmeaData>)
        requires
            old(self).wf(),
        ensures
            final(self).capacity() == old(self).capacity(),
            final(self).entries() == after_use(old(self).entries(), k),
            r == data_of(old(self).entries(), k),
            final(self).wf(),
    {
        proof {
            lemma_after_use_wf(self.entries(), self.capacity(), k);
        }
        lru_get(&mut self.lru, &k)
    }

    /// Whether data of type `k` is held.
    pub fn contains(&self, k: NmeaDataType) -> (r: bool)
        ensures
            r == key_at(self.entries(), k) is Some,
    {
        lru_contains(&self.lru, &k)
    }

    /// The number of types held.
    pub fn len(&self) -> (r: usize)
        requires
            self.wf(),
        ensures
            r == self.entries().len(),
            r <= self.capacity(),
            r <= all_types().len(),
    {
        proof {
            law_at_most_one_per_type(self.entries(), self.capacity());
        }
        lru_len(&self.lru)
    }

    /// Whether no type is held.
    pub fn is_empty(&self) -> (r: bool)
        requires
            self.wf(),
        ensures
            r == (self.entries().len() == 0),
    {
        self.len() == 0
    }
}

/// Putting an entry in keeps the types distinct and within the capacity.
proof fn lemma_after_put_wf(e: Seq<Entry>, cap: nat, k: NmeaDataType, v: GenericNmeaData)
    requires
        entries_wf(e, cap),
    ensures
        entries_wf(after_put(e, cap, k, v), cap),
{
    lemma_key_at(e, k);
    let n = after_put(e, cap, k, v);
    let rest = n.skip(1);
    assert(n =~= seq![(k, v)] + rest);
    assert forall|i: int, j: int| 0 <= i < j < n.len() implies n[i].0 != n[j].0 by {
        assert(rest.len() == n.len() - 1);
        match key_at(e, k) {
            Some(p) => {
                assert(rest =~= e.remove(p));
                if i == 0 {
                    if j - 1 < p {
                        assert(n[j] == e[j - 1]);
                    } else {
                        assert(n[j] == e[j]);
                    }
                } else {
                    let a = if i - 1 < p { i - 1 } else { i };
                    let b = if j - 1 < p { j - 1 } else { j };
                    assert(n[i] == e[a]);
                    assert(n[j] == e[b]);
                }
            },
            None => {
                if e.len() == cap {
                    assert(rest =~= e.drop_last());
                } else {
                    assert(rest =~= e);
                }
                if i == 0 {
                    assert(n[j] == e[j - 1]);
                } else {
                    assert(n[i] == e[i - 1]);
                    assert(n[j] == e[j - 1]);
                }
            },
        }
    }
}

/// Moving an entry to the front keeps the types distinct and within the
/// capacity.
proof fn lemma_after_use_wf(e: Seq<Entry>, cap: nat, k: NmeaDataType)
    requires
        entries_wf(e, cap),
    ensures
        entries_wf(after_use(e, k), cap),
{
    lemma_key_at(e, k);
    if let Some(p) = key_at(e, k) {
        let n = after_use(e, k);
        assert forall|i: int, j: int| 0 <= i < j < n.len() implies n[i].0 != n[j].0 by {
            let a = if i == 0 { p } else if i - 1 < p { i - 1 } else { i };
            let b = if j - 1 < p { j - 1 } else { j };
            assert(n[i] == e[a]);
            assert(n[j] == e[b]);
        }
    }
}

/// After the data `v` of type `k` is put in, getting type `k` gives `v`,
/// held as the most recently used; the types stay distinct and within the
/// capacity; every other type keeps its data, but for the least recently
/// used one of a full cache that held no data of type `k`, which is dropped.
pub proof fn law_get_after_put(e: Seq<Entry>, cap: nat, k: NmeaDataType, v: GenericNmeaData, o: NmeaDataType)
    requires
        entries_wf(e, cap),
        o != k,
    ensures
        after_put(e, cap, k, v)[0] == (k, v),
        data_of(after_put(e, cap, k, v), k) == Some(v),
        entries_wf(after_put(e, cap, k, v), cap),
        evicted(e, cap, k) != Some(o) ==> data_of(after_put(e, cap, k, v), o) == data_of(e, o),
        evicted(e, cap, k) == Some(o) ==> data_of(after_put(e, cap, k, v), o) is None,
{
    lemma_after_put_wf(e, cap, k, v);
    lemma_key_at(e, k);
    lemma_key_at(e, o);
    let n = after_put(e, cap, k, v);
    lemma_key_at(n, o);
    lemma_key_at(n, k);
    match key_at(e, o) {
        Some(i) => {
            if evicted(e, cap, k) != Some(o) {
                let j = match key_at(e, k) {
                    Some(p) => if i < p {
                        i + 1
                    } else {
                        i
                    },
                    None => i + 1,
                };
                assert(n[j] == e[i]);
                if key_at(n, o) is None {
                    assert(n[j].0 == o);
                }
                let jj = key_at(n, o).unwrap();
                if jj != j {
                    assert(n[jj].0 == n[j].0);
                }
            } else {
                assert(i == e.len() - 1);
                assert forall|j: int| 0 <= j < n.len() implies n[j].0 != o by {
                    if j > 0 {
                        assert(n[j] == e[j - 1]);
                    }
                }
            }
        },
        None => {
            assert forall|j: int| 0 <= j < n.len() implies n[j].0 != o by {
                if j > 0 {
                    match key_at(e, k) {
                        Some(p) => {
                            let a = if j - 1 < p { j - 1 } else { j };
                            assert(n[j] == e[a]);
                        },
                        None => {
                            assert(n[j] == e[j - 1]);
                        },
                    }
                }
            }
        },
    }
}

/// The sentence types, each once.
pub open spec fn all_types() -> Seq<NmeaDataType> {
    seq![
        NmeaDataType::DHV,
        NmeaDataType::GGA,
        NmeaDataType::GLL,
        NmeaDataType::GSA,
        NmeaDataType::VTG,
        NmeaDataType::ZDA,
        NmeaDataType::Other,
    ]
}

/// A cache holds at most one entry of each type, so never more than there
/// are types.
pub proof fn law_at_most_one_per_type(e: Seq<Entry>, cap: nat)
    requires
        entries_wf(e, cap),
    ensures
        forall|i: int, j: int| 0 <= i < j < e.len() ==> e[i].0 != e[j].0,
        e.len() <= all_types().len(),
{
    let keys = e.map_values(|x: Entry| x.0);
    assert(keys.no_duplicates()) by {
        assert forall|i: int, j: int| 0 <= i < keys.len() && 0 <= j < keys.len() && i != j
            implies keys[i] != keys[j] by {
            if i < j {
                assert(e[i].0 != e[j].0);
            } else {
                assert(e[j].0 != e[i].0);
            }
        }
    }
    keys.unique_seq_to_set();
    all_types().lemma_cardinality_of_set();
    assert forall|t: NmeaDataType| keys.to_set().contains(t) implies all_types().to_set().contains(
        t,
    ) by {
        let i = choose|i: int| 0 <= i < keys.len() && keys[i] == t;
        let w: int = match t {
            NmeaDataType::DHV => 0,
            NmeaDataType::GGA => 1,
            NmeaDataType::GLL => 2,
            NmeaDataType::GSA => 3,
            NmeaDataType::VTG => 4,
            NmeaDataType::ZDA => 5,
            NmeaDataType::Other => 6,
        };
        assert(all_types()[w] == t);
    }
    vstd::set_lib::lemma_len_subset(keys.to_set(), all_types().to_set());
}

/// After a push of the sentence `b`, read as data `v` of type `k`, puts it
/// into a cache with entries `e` (what [`NmeaCache::push`] states), getting
/// type `k` gives `v` and the cache holds type `k`; it then holds at least one
/// type, and no more than its capacity nor than there are types.
pub proof fn law_push_then_get(e: Seq<Entry>, cap: nat, b: Seq<u8>, k: NmeaDataType, v: GenericNmeaData)
    requires
        entries_wf(e, cap),
        GenericNmeaData::spec_parse(b, Ok((k, v))),
    ensures
        data_of(after_put(e, cap, k, v), k) == Some(v),
        key_at(after_put(e, cap, k, v), k) is Some,
        1 <= after_put(e, cap, k, v).len() <= cap,
        after_put(e, cap, k, v).len() <= all_types().len(),
{
    let o = if k == NmeaDataType::DHV {
        NmeaDataType::GGA
    } else {
        NmeaDataType::DHV
    };
    law_get_after_put(e, cap, k, v, o);
    law_at_most_one_per_type(after_put(e, cap, k, v), cap);
}

} // verus!

use dashmap::DashMap;
use vstd::prelude::*;

use crate::config::CacheConfig;

verus! {

#[verifier::external_type_specification]
#[verifier::external_body]
#[verifier::reject_recursive_types(K)]
#[verifier::reject_recursive_types(V)]
#[verifier::reject_recursive_types(S)]
pub struct ExDashMap<K, V, S>(DashMap<K, V, S>);

/// The concurrent map that holds cache entries by key.
pub type EntryMap = DashMap<String, Entry>;

/// What a map of cache entries holds, by key.
pub uninterp spec fn entries_of(m: EntryMap) -> Map<Seq<char>, EntryView>;

/// Relies on `DashMap::with_capacity`: a new map holds nothing.
#[verifier::external_body]
fn map_with_capacity(capacity: usize) -> (r: EntryMap)
    ensures
        entries_of(r).dom().is_empty(),
{
    DashMap::with_capacity(capacity)
}

/// Relies on `DashMap::insert`: the key maps to the new entry afterwards, and
/// the entry it mapped to before, if any, is handed back.
#[verifier::external_body]
fn map_insert(m: &mut EntryMap, key: String, e: Entry) -> (r: Option<Entry>)
    ensures
        entries_of(*final(m)) == entries_of(*old(m)).insert(key@, e@),
        r is Some <==> entries_of(*old(m)).contains_key(key@),
        r matches Some(v) ==> v@ == entries_of(*old(m))[key@],
{
    m.insert(key, e)
}

/// Relies on `DashMap::remove`: the key maps to nothing afterwards, and the
/// entry it mapped to before, if any, is handed back.
#[verifier::external_body]
fn map_remove(m: &mut EntryMap, key: &str) -> (r: Option<Entry>)
    ensures
        entries_of(*final(m)) == entries_of(*old(m)).remove(key@),
        r is Some <==> entries_of(*old(m)).contains_key(key@),
        r matches Some(v) ==> v@ == entries_of(*old(m))[key@],
{
    m.remove(key).map(|(_, e)| e)
}

/// Relies on `DashMap::iter`: it visits each entry once, in an order it does
/// not promise.
#[verifier::external_body]
fn map_snapshot(m: &EntryMap) -> (r: Vec<EntryInfo>)
    ensures
        is_snapshot(r@, entries_of(*m)),
{
    m.iter().map(|e| EntryInfo::of(e.key(), e.value())).collect()
}

/// An entry stored in the cache.
///
/// Times are milliseconds since the Unix epoch; the lifetime is milliseconds.
pub struct Entry {
    /// The data held.
    pub value: Vec<u8>,
    /// The last time this entry was read or written.
    pub last_used: u64,
    /// Whether reading the entry moves `last_used` forward.
    pub update_used: bool,
    /// How long the entry lasts after `last_used`.
    pub lifetime: u64,
}

/// The value of an [`Entry`].
pub struct EntryView {
    pub value: Seq<u8>,
    pub last_used: u64,
    pub update_used: bool,
    pub lifetime: u64,
}

impl EntryView {
    /// True when the entry has outlived its lifetime at `now`. A clock that
    /// went backwards leaves an entry alive.
    pub open spec fn expired_at(&self, now: u64) -> bool {
        now >= self.last_used && now - self.last_used >= self.lifetime
    }
}

impl View for Entry {
    type V = EntryView;

    open spec fn view(&self) -> EntryView {
        EntryView {
            value: self.value@,
            last_used: self.last_used,
            update_used: self.update_used,
            lifetime: self.lifetime,
        }
    }
}

impl Entry {
    /// A fresh entry, last used at `now`.
    pub fn new(value: Vec<u8>, lifetime: u64, update_used: bool, now: u64) -> (e: Entry)
        ensures
            e@ == (EntryView { value: value@, last_used: now, update_used, lifetime }),
    {
        Entry { value, last_used: now, update_used, lifetime }
    }

    /// Whether the entry has expired at `now`.
    pub fn is_expired(&self, now: u64) -> (r: bool)
        ensures
            r == self@.expired_at(now),
    {
        now >= self.last_used && now - self.last_used >= self.lifetime
    }
}

/// What eviction and expiry need to know of an entry, without its payload.
pub struct EntryInfo {
    pub key: String,
    pub last_used: u64,
    pub lifetime: u64,
    pub len: usize,
}

impl EntryInfo {
    /// Describes the entry `e` stored under `key`.
    pub fn of(key: &String, e: &Entry) -> (r: EntryInfo)
        ensures
            r.key@ == key@,
            r.last_used == e.last_used,
            r.lifetime == e.lifetime,
            r.len == e.value@.len(),
    {
        EntryInfo {
            key: key.clone(),
            last_used: e.last_used,
            lifetime: e.lifetime,
            len: e.value.len(),
        }
    }

    /// The information matches entry `e`.
    pub open spec fn describes(&self, e: EntryView) -> bool {
        &&& self.last_used == e.last_used
        &&& self.lifetime == e.lifetime
        &&& self.len == e.value.len()
    }
}

/// `s` lists every entry of `m` exactly once.
pub open spec fn is_snapshot(s: Seq<EntryInfo>, m: Map<Seq<char>, EntryView>) -> bool {
    &&& forall|i: int|
        0 <= i < s.len() ==> #[trigger] m.contains_key(s[i].key@) && s[i].describes(m[s[i].key@])
    &&& forall|i: int, j: int| 0 <= i < j < s.len() ==> s[i].key@ != s[j].key@
    &&& forall|k: Seq<char>| #[trigger]
        m.contains_key(k) ==> exists|i: int| 0 <= i < s.len() && s[i].key@ == k
}

/// Total payload bytes of the entries of `m`.
pub open spec fn total_len(m: Map<Seq<char>, EntryView>) -> nat
    decreases m.dom().len(),
{
    if m.dom().finite() && m.dom().len() > 0 {
        let k = m.dom().choose();
        m[k].value.len() + total_len(m.remove(k))
    } else {
        0
    }
}

/// Taking one entry out of a map takes its payload out of the total.
pub proof fn lemma_total_len_remove(m: Map<Seq<char>, EntryView>, k: Seq<char>)
    requires
        m.dom().finite(),
        m.contains_key(k),
    ensures
        total_len(m) == m[k].value.len() + total_len(m.remove(k)),
    decreases m.dom().len(),
{
    assert(m.dom().len() > 0) by {
        if m.dom().len() == 0 {
            m.dom().lemma_len0_is_empty();
        }
    }
    let c = m.dom().choose();
    if c != k {
        lemma_total_len_remove(m.remove(c), k);
        lemma_total_len_remove(m.remove(k), c);
        assert(m.remove(c).remove(k) =~= m.remove(k).remove(c));
    }
}

/// Adding an entry under a new key adds its payload to the total.
pub proof fn lemma_total_len_insert(m: Map<Seq<char>, EntryView>, k: Seq<char>, e: EntryView)
    requires
        m.dom().finite(),
        !m.contains_key(k),
    ensures
        total_len(m.insert(k, e)) == e.value.len() + total_len(m),
{
    lemma_total_len_remove(m.insert(k, e), k);
    assert(m.insert(k, e).remove(k) =~= m);
}

/// The empty map holds no bytes.
pub proof fn lemma_total_len_empty()
    ensures
        total_len(Map::<Seq<char>, EntryView>::empty()) == 0,
{
}

/// A concurrent map of uploads, bounded in total size (least recently used
/// entries leave first) and in time (each entry has a lifetime).
pub struct Cache {
    /// Where entries are stored.
    map: EntryMap,
    /// Total length of the payloads stored.
    length: usize,
    /// How it behaves.
    cfg: CacheConfig,
}

impl View for Cache {
    type V = Map<Seq<char>, EntryView>;

    closed spec fn view(&self) -> Map<Seq<char>, EntryView> {
        entries_of(self.map)
    }
}

/// After admitting `e` under `k` into the entries `old` (whose payloads total
/// `old_len`), the cache holds `new` (totalling `new_len`).
pub open spec fn admitted(
    old: Map<Seq<char>, EntryView>,
    old_len: nat,
    cap: nat,
    k: Seq<char>,
    e: EntryView,
    new: Map<Seq<char>, EntryView>,
    new_len: nat,
) -> bool {
    // the new entry is there
    &&& new.contains_key(k) && new[k] == e
    // nothing else is added or changed
    &&& forall|j: Seq<char>| #[trigger]
        new.contains_key(j) && j != k ==> old.contains_key(j) && new[j] == old[j]
    // when everything fits, nothing leaves
    &&& old_len - (if old.contains_key(k) { old[k].value.len() as int } else { 0int })
        + e.value.len() <= cap ==> new == old.insert(k, e)
    // what leaves was used no later than what stays
    &&& forall|a: Seq<char>, b: Seq<char>|
        #![trigger old.contains_key(a), new.contains_key(b)]
        old.contains_key(a) && a != k && !new.contains_key(a) && new.contains_key(b) && b != k
            ==> old[a].last_used <= old[b].last_used
    // the capacity holds, unless the new entry alone is too big for it
    &&& new_len <= cap || new.dom() == set![k]
    // no more leaves than needed: bringing back the last entry to leave would
    // pass the capacity
    &&& (exists|a: Seq<char>| old.contains_key(a) && a != k && !#[trigger] new.contains_key(a))
        ==> exists|a: Seq<char>|
        #![trigger old[a]]
        old.contains_key(a) && a != k && !new.contains_key(a) && (forall|b: Seq<char>|
            old.contains_key(b) && b != k && !new.contains_key(b) ==> #[trigger] old[b].last_used
                <= old[a].last_used) && new_len + old[a].value.len() > cap
}

impl Cache {
    /// Total payload bytes stored.
    pub closed spec fn length(&self) -> nat {
        self.length as nat
    }

    /// The configuration.
    pub closed spec fn config(&self) -> CacheConfig {
        self.cfg
    }

    /// The stored total matches the entries.
    pub open spec fn wf(&self) -> bool {
        &&& self@.dom().finite()
        &&& self.length() == total_len(self@)
    }

    /// An empty cache.
    pub fn with_config(cfg: CacheConfig) -> (c: Cache)
        ensures
            c.wf(),
            c@ == Map::<Seq<char>, EntryView>::empty(),
            c.length() == 0,
            c.config() == cfg,
    {
        let c = Cache { map: map_with_capacity(64), length: 0, cfg };
        proof {
            lemma_total_len_empty();
        }
        c
    }

    /// Total payload bytes stored.
    pub fn len(&self) -> (r: usize)
        ensures
            r == self.length(),
    {
        self.length
    }

    /// Remove an entry, whether or not it has expired.
    ///
    /// Returns `Some` when the key was present.
    pub fn remove(&mut self, key: &str) -> (r: Option<()>)
        requires
            old(self).wf(),
        ensures
            final(self).wf(),
            final(self)@ == old(self)@.remove(key@),
            final(self).config() == old(self).config(),
            r is Some <==> old(self)@.contains_key(key@),
            final(self).length() == old(self).length() - (if old(self)@.contains_key(key@) {
                old(self)@[key@].value.len() as int
            } else {
                0int
            }),
    {
        let ghost m = self@;
        match map_remove(&mut self.map, key) {
            Some(e) => {
                proof {
                    lemma_total_len_remove(m, key@);
                }
                self.length = self.length - e.value.len();
                Some(())
            },
            None => {
                assert(m.remove(key@) =~= m);
                None
            },
        }
    }

    /// Picks the least recently used entry of `snap` that is not yet taken.
    fn next_out(snap: &Vec<EntryInfo>, taken: &Vec<bool>) -> (r: Option<usize>)
        requires
            snap@.len() == taken@.len(),
        ensures
            r is None ==> forall|i: int| 0 <= i < taken@.len() ==> #[trigger] taken@[i],
            r matches Some(i) ==> i < taken@.len() && !taken@[i as int] && forall|j: int|
                0 <= j < taken@.len() && !#[trigger] taken@[j] ==> snap@[i as int].last_used
                    <= snap@[j].last_used,
    {
        let mut best: Option<usize> = None;
        let mut i: usize = 0;
        while i < snap.len()
            invariant
                snap@.len() == taken@.len(),
                i <= snap@.len(),
                best is None ==> forall|j: int| 0 <= j < i ==> #[trigger] taken@[j],
                best matches Some(b) ==> b < i && !taken@[b as int] && forall|j: int|
                    0 <= j < i && !#[trigger] taken@[j] ==> snap@[b as int].last_used
                        <= snap@[j].last_used,
            decreases snap@.len() - i,
        {
            if !taken[i] {
                match best {
                    Some(b) => {
                        if snap[i].last_used < snap[b].last_used {
                            best = Some(i);
                        }
                    },
                    None => {
                        best = Some(i);
                    },
                }
            }
            i = i + 1;
        }
        best
    }

    /// Evicts least recently used entries until `needed` bytes are freed or
    /// the cache is empty.
    fn evict(&mut self, needed: u128)
        requires
            old(self).wf(),
        ensures
            final(self).wf(),
            final(self).config() == old(self).config(),
            final(self).length() + needed <= old(self).length() || final(self)@.dom().is_empty(),
            forall|k: Seq<char>| #[trigger]
                final(self)@.contains_key(k) ==> old(self)@.contains_key(k) && final(self)@[k]
                    == old(self)@[k],
            forall|a: Seq<char>, b: Seq<char>|
                #![trigger old(self)@.contains_key(a), final(self)@.contains_key(b)]
                old(self)@.contains_key(a) && !final(self)@.contains_key(a)
                    && final(self)@.contains_key(b) ==> old(self)@[a].last_used
                    <= final(self)@[b].last_used,
            // eviction stops as soon as enough is freed: the last entry to go
            // was still needed
            (exists|a: Seq<char>| old(self)@.contains_key(a) && !#[trigger] final(self)@.contains_key(
                a,
            )) ==> exists|a: Seq<char>|
                #![trigger old(self)@[a]]
                old(self)@.contains_key(a) && !final(self)@.contains_key(a) && (forall|b: Seq<char>|
                    old(self)@.contains_key(b) && !final(self)@.contains_key(b)
                        ==> #[trigger] old(self)@[b].last_used <= old(self)@[a].last_used)
                    && old(self).length() < needed + final(self).length() + old(self)@[a].value.len(),
    {
        let ghost orig = self@;
        let ghost orig_len = self.length();
        let ghost mut last: int = -1;
        let snap = map_snapshot(&self.map);
        let mut taken: Vec<bool> = Vec::new();
        let mut n: usize = 0;
        while n < snap.len()
            invariant
                n <= snap@.len(),
                taken@.len() == n,
                forall|i: int| 0 <= i < n ==> !#[trigger] taken@[i],
            decreases snap@.len() - n,
        {
            taken.push(false);
            n = n + 1;
        }
        let mut freed: u128 = 0;
        let mut done = false;
        while freed < needed && !done
            invariant
                self.wf(),
                self.config() == old(self).config(),
                orig == old(self)@,
                orig_len == old(self).length(),
                is_snapshot(snap@, orig),
                taken@.len() == snap@.len(),
                forall|i: int|
                    0 <= i < snap@.len() ==> (#[trigger] self@.contains_key(snap@[i].key@)
                        <==> !taken@[i]),
                forall|k: Seq<char>| #[trigger]
                    self@.contains_key(k) ==> orig.contains_key(k) && self@[k] == orig[k],
                freed + self.length() == orig_len,
                forall|i: int, j: int|
                    0 <= i < snap@.len() && 0 <= j < snap@.len() && #[trigger] taken@[i]
                        && !#[trigger] taken@[j] ==> snap@[i].last_used <= snap@[j].last_used,
                done ==> forall|i: int| 0 <= i < taken@.len() ==> #[trigger] taken@[i],
                last == -1 ==> forall|i: int| 0 <= i < taken@.len() ==> !#[trigger] taken@[i],
                last != -1 ==> 0 <= last < snap@.len() && taken@[last] && freed < needed
                    + snap@[last].len && forall|i: int|
                    0 <= i < snap@.len() && #[trigger] taken@[i] ==> snap@[i].last_used
                        <= snap@[last].last_used,
            decreases snap@.len() - freed_count(taken@), (if done { 0int } else { 1int }),
        {
            match Self::next_out(&snap, &taken) {
                None => {
                    done = true;
                },
                Some(i) => {
                    let ghost before = taken@;
                    proof {
                        assert forall|j: int|
                            0 <= j < snap@.len() && #[trigger] before[j] implies snap@[j].last_used
                            <= snap@[i as int].last_used by {
                            assert(!before[i as int]);
                        }
                    }
                    taken.set(i, true);
                    proof {
                        last = i as int;
                    }
                    proof {
                        lemma_freed_count_set(before, i as int);
                        assert(self@.contains_key(snap@[i as int].key@));
                        assert(forall|j: int| 0 <= j < snap@.len() && j != i ==> snap@[j].key@
                            != snap@[i as int].key@);
                    }
                    let ghost before_map = self@;
                    self.remove(snap[i].key.as_str());
                    freed = freed + snap[i].len as u128;
                    assert(forall|k: Seq<char>| #[trigger]
                        self@.contains_key(k) ==> before_map.contains_key(k) && self@[k]
                            == before_map[k]);
                },
            }
        }
        proof {
            if freed < needed {
                assert forall|k: Seq<char>| !self@.contains_key(k) by {
                    if self@.contains_key(k) {
                        let i = choose|i: int| 0 <= i < snap@.len() && snap@[i].key@ == k;
                        assert(taken@[i]);
                    }
                }
                assert(self@.dom() =~= Set::empty());
            }
            assert forall|a: Seq<char>, b: Seq<char>|
                orig.contains_key(a) && !self@.contains_key(a) && self@.contains_key(
                    b,
                ) implies #[trigger] orig[a].last_used <= #[trigger] self@[b].last_used by {
                let i = choose|i: int| 0 <= i < snap@.len() && snap@[i].key@ == a;
                let j = choose|j: int| 0 <= j < snap@.len() && snap@[j].key@ == b;
                assert(taken@[i]);
                assert(!taken@[j]);
            }
            if exists|a: Seq<char>| orig.contains_key(a) && !#[trigger] self@.contains_key(a) {
                let a0 = choose|a: Seq<char>| orig.contains_key(a) && !#[trigger] self@.contains_key(a);
                let i0 = choose|i: int| 0 <= i < snap@.len() && snap@[i].key@ == a0;
                assert(taken@[i0]);
                assert(last != -1);
                let a = snap@[last].key@;
                assert(orig.contains_key(a));
                assert(!self@.contains_key(a));
                assert forall|b: Seq<char>|
                    orig.contains_key(b) && !self@.contains_key(b) implies #[trigger] orig[b].last_used
                    <= orig[a].last_used by {
                    let j = choose|j: int| 0 <= j < snap@.len() && snap@[j].key@ == b;
                    assert(taken@[j]);
                }
            }
        }
    }
}

impl Cache {
    /// Admits `value` under `key` with the given lifetime, making room by
    /// evicting the least recently used entries when the total would pass
    /// `mem_capacity`. A previous entry under `key` is replaced.
    ///
    /// Returns `true` when no entry was replaced.
    pub fn add_with_lifetime(
        &mut self,
        key: &str,
        value: Vec<u8>,
        lifetime: u64,
        is_renewable: bool,
        now: u64,
    ) -> (r: bool)
        requires
            old(self).wf(),
        ensures
            final(self).wf(),
            final(self).config() == old(self).config(),
            r == !old(self)@.contains_key(key@),
            admitted(
                old(self)@,
                old(self).length(),
                old(self).config().mem_capacity as nat,
                key@,
                EntryView { value: value@, last_used: now, update_used: is_renewable, lifetime },
                final(self)@,
                final(self).length(),
            ),
    {
        let ghost m0 = self@;
        let e = Entry::new(value, lifetime, is_renewable, now);
        let len = e.value.len();
        // a replaced payload must not be counted twice
        let replaced = self.remove(key).is_some();
        let ghost m1 = self@;
        let ghost m1_len = self.length();
        let cur_total: u128 = self.length as u128 + len as u128;
        if cur_total > self.cfg.mem_capacity as u128 {
            let needed = cur_total - self.cfg.mem_capacity as u128;
            self.evict(needed);
            proof {
                let m2e = self@;
                let cap = self.cfg.mem_capacity as int;
                if exists|a: Seq<char>| m1.contains_key(a) && !#[trigger] m2e.contains_key(a) {
                    let a = choose|a: Seq<char>|
                        #![trigger m1[a]]
                        m1.contains_key(a) && !m2e.contains_key(a) && (forall|b: Seq<char>|
                            m1.contains_key(b) && !m2e.contains_key(b) ==> #[trigger] m1[b].last_used
                                <= m1[a].last_used) && m1_len < needed + self.length() + m1[a].value.len();
                    assert(self.length() + len + m1[a].value.len() > cap);
                    assert(exists|a: Seq<char>|
                        #![trigger m1[a]]
                        m1.contains_key(a) && !m2e.contains_key(a) && (forall|b: Seq<char>|
                            m1.contains_key(b) && !m2e.contains_key(b) ==> #[trigger] m1[b].last_used
                                <= m1[a].last_used) && self.length() + len + m1[a].value.len() > cap);
                }
                assert(self.length() + needed <= m1_len || self@.dom().is_empty());
                if self@.dom().is_empty() {
                    assert(self@.dom() =~= Set::<Seq<char>>::empty());
                    assert(self@ =~= Map::<Seq<char>, EntryView>::empty());
                }
            }
        }
        let ghost m2 = self@;
        let ghost m2_len = self.length();
        self.length = self.length + len;
        let ghost e_spec = e@;
        map_insert(&mut self.map, String::from_str(key), e);
        proof {
            assert(!m2.contains_key(key@));
            lemma_total_len_insert(m2, key@, e_spec);
            let m3 = self@;
            assert(m3 == m2.insert(key@, e_spec));
            if cur_total <= self.cfg.mem_capacity as u128 {
                assert(m1.insert(key@, e_spec) =~= m0.insert(key@, e_spec));
            }
            if m2.dom().is_empty() {
                assert(m3.dom() =~= set![key@]);
            }
            assert forall|j: Seq<char>| #[trigger]
                m3.contains_key(j) && j != key@ implies m0.contains_key(j) && m3[j] == m0[j] by {
                assert(m2.contains_key(j));
                assert(m1.contains_key(j));
            }
            assert forall|a: Seq<char>, b: Seq<char>|
                m0.contains_key(a) && a != key@ && !m3.contains_key(a) && m3.contains_key(b) && b
                    != key@ implies #[trigger] m0[a].last_used <= #[trigger] m0[b].last_used by {
                assert(m1.contains_key(a));
                assert(!m2.contains_key(a));
                assert(m2.contains_key(b));
                assert(m1.contains_key(b));
            }
            let cap = self.cfg.mem_capacity as int;
            if exists|a: Seq<char>| m0.contains_key(a) && a != key@ && !#[trigger] m3.contains_key(a) {
                let a0 = choose|a: Seq<char>| m0.contains_key(a) && a != key@ && !#[trigger] m3.contains_key(a);
                assert(m1.contains_key(a0) && !m2.contains_key(a0));
                assert(cur_total > self.cfg.mem_capacity as u128);
                let a = choose|a: Seq<char>|
                    #![trigger m1[a]]
                    m1.contains_key(a) && !m2.contains_key(a) && (forall|b: Seq<char>|
                        m1.contains_key(b) && !m2.contains_key(b) ==> #[trigger] m1[b].last_used
                            <= m1[a].last_used) && m2_len + len + m1[a].value.len() > cap;
                assert(a != key@);
                assert(m0[a] == m1[a]);
                assert forall|b: Seq<char>|
                    m0.contains_key(b) && b != key@ && !m3.contains_key(b) implies #[trigger] m0[b].last_used
                    <= m0[a].last_used by {
                    assert(m1.contains_key(b) && !m2.contains_key(b));
                    assert(m0[b] == m1[b]);
                }
                assert(m0.contains_key(a) && a != key@ && !m3.contains_key(a));
            }
        }
        !replaced
    }

    /// Admits `value` under `key` with the default lifetime, renewed on use.
    ///
    /// Returns `true` when no entry was replaced.
    pub fn add(&mut self, key: &str, value: Vec<u8>, now: u64) -> (r: bool)
        requires
            old(self).wf(),
        ensures
            final(self).wf(),
            final(self).config() == old(self).config(),
            r == !old(self)@.contains_key(key@),
            admitted(
                old(self)@,
                old(self).length(),
                old(self).config().mem_capacity as nat,
                key@,
                EntryView {
                    value: value@,
                    last_used: now,
                    update_used: true,
                    lifetime: old(self).config().upload_lifetime,
                },
                final(self)@,
                final(self).length(),
            ),
    {
        let lifetime = self.cfg.upload_lifetime;
        self.add_with_lifetime(key, value, lifetime, true, now)
    }

    /// Looks an entry up, dropping it when it has expired at `now`.
    fn get_(&mut self, key: &str, now: u64) -> (r: Option<Entry>)
        requires
            old(self).wf(),
        ensures
            final(self).wf(),
            final(self).config() == old(self).config(),
            final(self)@ == live_after(old(self)@, key@, now),
            r is Some <==> is_live(old(self)@, key@, now),
            r matches Some(e) ==> e@ == old(self)@[key@],
    {
        let ghost m = self@;
        match map_remove(&mut self.map, key) {
            None => {
                assert(m.remove(key@) =~= m);
                None
            },
            Some(e) => {
                proof {
                    lemma_total_len_remove(m, key@);
                }
                self.length = self.length - e.value.len();
                if e.is_expired(now) {
                    None
                } else {
                    let out = Entry {
                        value: e.value.clone(),
                        last_used: e.last_used,
                        update_used: e.update_used,
                        lifetime: e.lifetime,
                    };
                    proof {
                        assert(out.value@ =~= e.value@);
                        lemma_total_len_insert(m.remove(key@), key@, e@);
                        assert(m.remove(key@).insert(key@, e@) =~= m);
                    }
                    self.length = self.length + e.value.len();
                    map_insert(&mut self.map, String::from_str(key), e);
                    assert(out@ == m[key@]);
                    Some(out)
                }
            },
        }
    }

    /// The payload stored under `key`, unless it is absent or has expired at
    /// `now` (an expired entry is dropped). Reading a renewable entry moves its
    /// `last_used` to `now`.
    pub fn get(&mut self, key: &str, now: u64) -> (r: Option<Vec<u8>>)
        requires
            old(self).wf(),
        ensures
            final(self).wf(),
            final(self).config() == old(self).config(),
            final(self)@ == touched_after(old(self)@, key@, now),
            final(self).length() == total_len(final(self)@),
            r is Some <==> is_live(old(self)@, key@, now),
            r matches Some(v) ==> v@ == old(self)@[key@].value,
    {
        let e = self.get_(key, now);
        match e {
            None => None,
            Some(e) => {
                if e.update_used {
                    let ghost m = self@;
                    let out = e.value.clone();
                    let touched = Entry {
                        value: e.value,
                        last_used: now,
                        update_used: true,
                        lifetime: e.lifetime,
                    };
                    let ghost t = touched@;
                    self.remove(key);
                    let ghost m2 = self@;
                    proof {
                        lemma_total_len_insert(m2, key@, t);
                        assert(out@ =~= t.value);
                    }
                    self.length = self.length + touched.value.len();
                    map_insert(&mut self.map, String::from_str(key), touched);
                    proof {
                        assert(self@ =~= m.insert(key@, t));
                    }
                    Some(out)
                } else {
                    Some(e.value)
                }
            },
        }
    }

    /// Whether `key` holds an entry that has not expired at `now` (an expired
    /// entry is dropped).
    pub fn has(&mut self, key: &str, now: u64) -> (r: bool)
        requires
            old(self).wf(),
        ensures
            final(self).wf(),
            final(self).config() == old(self).config(),
            final(self)@ == live_after(old(self)@, key@, now),
            r == is_live(old(self)@, key@, now),
    {
        self.get_(key, now).is_some()
    }

    /// Whether an upload of `length` bytes may be cached.
    pub fn will_use(&self, length: u64) -> (r: bool)
        ensures
            r == (length <= self.config().max_length),
    {
        length <= self.cfg.max_length
    }

    /// Drops every entry that has expired at `now`.
    pub fn scan(&mut self, now: u64)
        requires
            old(self).wf(),
        ensures
            final(self).wf(),
            final(self).config() == old(self).config(),
            final(self)@ == unexpired(old(self)@, now),
            (forall|k: Seq<char>| #[trigger]
                old(self)@.contains_key(k) ==> old(self)@[k].last_used + old(self)@[k].lifetime
                    <= now) ==> final(self)@.dom().is_empty() && final(self).length() == 0,
    {
        let ghost orig = self@;
        let snap = map_snapshot(&self.map);
        let mut i: usize = 0;
        while i < snap.len()
            invariant
                self.wf(),
                self.config() == old(self).config(),
                orig == old(self)@,
                is_snapshot(snap@, orig),
                i <= snap@.len(),
                forall|k: Seq<char>| #[trigger]
                    self@.contains_key(k) ==> orig.contains_key(k) && self@[k] == orig[k],
                forall|k: Seq<char>| #[trigger]
                    orig.contains_key(k) && !orig[k].expired_at(now) ==> self@.contains_key(k),
                forall|j: int|
                    0 <= j < i && #[trigger] orig[snap@[j].key@].expired_at(now)
                        ==> !self@.contains_key(snap@[j].key@),
            decreases snap@.len() - i,
        {
            let info = &snap[i];
            proof {
                assert(orig.contains_key(snap@[i as int].key@));
            }
            if now >= info.last_used && now - info.last_used >= info.lifetime {
                self.remove(info.key.as_str());
            }
            i = i + 1;
        }
        proof {
            assert forall|k: Seq<char>| #[trigger] self@.contains_key(k) implies !orig[k].expired_at(
                now,
            ) by {
                let j = choose|j: int| 0 <= j < snap@.len() && snap@[j].key@ == k;
                assert(orig.contains_key(snap@[j].key@));
            }
            assert(self@ =~= unexpired(orig, now));
            if forall|k: Seq<char>| #[trigger]
                orig.contains_key(k) ==> orig[k].last_used + orig[k].lifetime <= now {
                assert(self@.dom() =~= Set::<Seq<char>>::empty());
                assert(self@ =~= Map::<Seq<char>, EntryView>::empty());
            }
        }
    }
}

/// `k` holds an entry of `m` that has not expired at `now`.
pub open spec fn is_live(m: Map<Seq<char>, EntryView>, k: Seq<char>, now: u64) -> bool {
    m.contains_key(k) && !m[k].expired_at(now)
}

/// The entries of `m` after a lookup of `k` at `now`: an expired entry is gone.
pub open spec fn live_after(m: Map<Seq<char>, EntryView>, k: Seq<char>, now: u64) -> Map<
    Seq<char>,
    EntryView,
> {
    if m.contains_key(k) && m[k].expired_at(now) {
        m.remove(k)
    } else {
        m
    }
}

/// The entries of `m` after a read of `k` at `now`: an expired entry is gone,
/// and a live renewable one was last used at `now`.
pub open spec fn touched_after(m: Map<Seq<char>, EntryView>, k: Seq<char>, now: u64) -> Map<
    Seq<char>,
    EntryView,
> {
    if is_live(m, k, now) && m[k].update_used {
        m.insert(k, EntryView { last_used: now, ..m[k] })
    } else {
        live_after(m, k, now)
    }
}

/// The entries of `m` that have not expired at `now`.
pub open spec fn unexpired(m: Map<Seq<char>, EntryView>, now: u64) -> Map<Seq<char>, EntryView> {
    m.restrict(m.dom().filter(|k: Seq<char>| !m[k].expired_at(now)))
}

/// Once every entry has outlived its lifetime at `now`, nothing survives a
/// sweep and the cache holds no bytes.
pub proof fn lemma_sweep_past_all_lifetimes(m: Map<Seq<char>, EntryView>, now: u64)
    requires
        forall|k: Seq<char>| #[trigger] m.contains_key(k) ==> m[k].last_used + m[k].lifetime <= now,
    ensures
        unexpired(m, now).dom().is_empty(),
        total_len(unexpired(m, now)) == 0,
{
    assert(unexpired(m, now).dom() =~= Set::<Seq<char>>::empty());
    assert(unexpired(m, now) =~= Map::<Seq<char>, EntryView>::empty());
}

/// An entry admitted at `now` with a nonzero lifetime is read back whole at
/// `now`.
pub proof fn lemma_admitted_entry_reads_back(
    old: Map<Seq<char>, EntryView>,
    old_len: nat,
    cap: nat,
    k: Seq<char>,
    e: EntryView,
    new: Map<Seq<char>, EntryView>,
    new_len: nat,
    now: u64,
)
    requires
        admitted(old, old_len, cap, k, e, new, new_len),
        e.last_used == now,
        e.lifetime > 0,
    ensures
        is_live(new, k, now),
        new[k].value == e.value,
{
}

/// Admissions whose payloads fit in the capacity together evict nothing.
pub proof fn lemma_fitting_admission_evicts_nothing(
    old: Map<Seq<char>, EntryView>,
    old_len: nat,
    cap: nat,
    k: Seq<char>,
    e: EntryView,
    new: Map<Seq<char>, EntryView>,
    new_len: nat,
)
    requires
        admitted(old, old_len, cap, k, e, new, new_len),
        !old.contains_key(k),
        old_len + e.value.len() <= cap,
    ensures
        forall|j: Seq<char>| #[trigger] old.contains_key(j) ==> new.contains_key(j) && new[j] == old[j],
{
}

/// How many entries of `t` are set.
pub open spec fn freed_count(t: Seq<bool>) -> int
    decreases t.len(),
{
    if t.len() == 0 {
        0
    } else {
        freed_count(t.drop_last()) + if t.last() {
            1int
        } else {
            0int
        }
    }
}

/// Setting an unset entry raises the count by one; the count never passes the
/// length.
proof fn lemma_freed_count_set(t: Seq<bool>, i: int)
    requires
        0 <= i < t.len(),
        !t[i],
    ensures
        freed_count(t.update(i, true)) == freed_count(t) + 1,
        freed_count(t.update(i, true)) <= t.len(),
    decreases t.len(),
{
    lemma_freed_count_bound(t.update(i, true));
    if i < t.len() - 1 {
        lemma_freed_count_set(t.drop_last(), i);
        assert(t.update(i, true).drop_last() =~= t.drop_last().update(i, true));
    } else {
        assert(t.update(i, true).drop_last() =~= t.drop_last());
    }
}

proof fn lemma_freed_count_bound(t: Seq<bool>)
    ensures
        0 <= freed_count(t) <= t.len(),
    decreases t.len(),
{
    if t.len() > 0 {
        lemma_freed_count_bound(t.drop_last());
    }
}

} // verus!

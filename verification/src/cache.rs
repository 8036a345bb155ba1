//! The two cache tiers: discovery documents per server hostname, and
//! end-to-end resolutions per input hash. Entries remember success or
//! failure; failures expire after ten minutes, cached resolutions after
//! thirty, cached discovery documents never. Both tiers are bounded and
//! evict their oldest entry when over capacity.

use vstd::prelude::*;

use crate::text::str_eq;
use crate::webhostmeta::WebHostMeta;
use crate::webhostmeta::WebHostMetaV;

verus! {

/// How long a remembered fetch failure lives, in milliseconds.
pub const DISCOVERY_NOT_FOUND_TTL_MS: u64 = 10 * 60 * 1000;

/// How long a remembered successful resolution lives, in milliseconds.
pub const RESOLUTION_FOUND_TTL_MS: u64 = 30 * 60 * 1000;

/// How long a remembered failed resolution lives, in milliseconds.
pub const RESOLUTION_NOT_FOUND_TTL_MS: u64 = 10 * 60 * 1000;

/// The capacity both cache tiers are built with.
pub const CACHE_CAPACITY: usize = 1024 * 20;

/// The remembered outcome of one discovery fetch.
pub enum ResolveWebHostMetaResult {
    Found(WebHostMeta),
    NotFound(String),
}

/// The mathematical value of a [`ResolveWebHostMetaResult`].
pub enum ResolveWebHostMetaResultV {
    Found(WebHostMetaV),
    NotFound(Seq<char>),
}

impl View for ResolveWebHostMetaResult {
    type V = ResolveWebHostMetaResultV;

    open spec fn view(&self) -> ResolveWebHostMetaResultV {
        match self {
            ResolveWebHostMetaResult::Found(d) => ResolveWebHostMetaResultV::Found(d@),
            ResolveWebHostMetaResult::NotFound(m) => ResolveWebHostMetaResultV::NotFound(m@),
        }
    }
}

impl Clone for ResolveWebHostMetaResult {
    fn clone(&self) -> (r: Self)
        ensures
            r@ == self@,
    {
        match self {
            ResolveWebHostMetaResult::Found(d) => ResolveWebHostMetaResult::Found(d.clone()),
            ResolveWebHostMetaResult::NotFound(m) => ResolveWebHostMetaResult::NotFound(m.clone()),
        }
    }
}

/// The remembered outcome of one end-to-end resolution.
pub enum ResolveAtUriResult {
    Found(String),
    NotFound(String),
}

/// The mathematical value of a [`ResolveAtUriResult`].
pub enum ResolveAtUriResultV {
    Found(Seq<char>),
    NotFound(Seq<char>),
}

impl View for ResolveAtUriResult {
    type V = ResolveAtUriResultV;

    open spec fn view(&self) -> ResolveAtUriResultV {
        match self {
            ResolveAtUriResult::Found(u) => ResolveAtUriResultV::Found(u@),
            ResolveAtUriResult::NotFound(m) => ResolveAtUriResultV::NotFound(m@),
        }
    }
}

impl Clone for ResolveAtUriResult {
    fn clone(&self) -> (r: Self)
        ensures
            r@ == self@,
    {
        match self {
            ResolveAtUriResult::Found(u) => ResolveAtUriResult::Found(u.clone()),
            ResolveAtUriResult::NotFound(m) => ResolveAtUriResult::NotFound(m.clone()),
        }
    }
}

// ---------------------------------------------------------------------------
// The shared keyed table under both tiers
// ---------------------------------------------------------------------------

/// The mathematical value of a table: key, value and insertion time of
/// each entry, oldest first.
pub open spec fn table_view<T: View>(entries: Seq<(String, T, u64)>) -> Seq<
    (Seq<char>, T::V, u64),
> {
    entries.map_values(|e: (String, T, u64)| (e.0@, e.1@, e.2))
}

/// The value and insertion time under the first entry keyed `k`.
pub open spec fn find_entry<V>(s: Seq<(Seq<char>, V, u64)>, k: Seq<char>) -> Option<(V, u64)>
    decreases s.len(),
{
    if s.len() == 0 {
        Option::None
    } else if s[0].0 == k {
        Option::Some((s[0].1, s[0].2))
    } else {
        find_entry(s.drop_first(), k)
    }
}

/// No two entries share a key.
pub open spec fn keys_unique<V>(s: Seq<(Seq<char>, V, u64)>) -> bool {
    forall|i: int, j: int| 0 <= i < j < s.len() ==> (#[trigger] s[i]).0 != (#[trigger] s[j]).0
}

/// A key is absent exactly when no entry carries it.
pub proof fn lemma_find_none<V>(s: Seq<(Seq<char>, V, u64)>, k: Seq<char>)
    ensures
        (find_entry(s, k) is None) <==> (forall|i: int|
            0 <= i < s.len() ==> (#[trigger] s[i]).0 != k),
    decreases s.len(),
{
    if s.len() == 0 {
    } else {
        lemma_find_none(s.drop_first(), k);
        assert forall|i: int| 0 <= i < s.drop_first().len() implies #[trigger] s.drop_first()[i]
            == s[i + 1] by {}
        if s[0].0 == k {
        } else {
            if forall|i: int| 0 <= i < s.drop_first().len() ==> (#[trigger] s.drop_first()[i]).0
                != k {
                assert forall|i: int| 0 <= i < s.len() implies (#[trigger] s[i]).0 != k by {
                    if i > 0 {
                        assert(s.drop_first()[i - 1] == s[i]);
                    }
                }
            }
        }
    }
}

/// With unique keys, the entry at any index carrying `k` is the one found.
pub proof fn lemma_find_at<V>(s: Seq<(Seq<char>, V, u64)>, k: Seq<char>, i: int)
    requires
        keys_unique(s),
        0 <= i < s.len(),
        s[i].0 == k,
    ensures
        find_entry(s, k) == Option::Some((s[i].1, s[i].2)),
    decreases s.len(),
{
    if i == 0 {
    } else {
        assert(s[0].0 != k);
        assert(keys_unique(s.drop_first())) by {
            assert forall|a: int, b: int|
                0 <= a < b < s.drop_first().len() implies (#[trigger] s.drop_first()[a]).0 != (
            #[trigger] s.drop_first()[b]).0 by {
                assert(s.drop_first()[a] == s[a + 1]);
                assert(s.drop_first()[b] == s[b + 1]);
            }
        }
        assert(s.drop_first()[i - 1] == s[i]);
        lemma_find_at(s.drop_first(), k, i - 1);
    }
}

/// A found entry stands somewhere in the table.
pub proof fn lemma_find_witness<V>(s: Seq<(Seq<char>, V, u64)>, k: Seq<char>)
    requires
        find_entry(s, k) is Some,
    ensures
        s.contains((k, find_entry(s, k)->Some_0.0, find_entry(s, k)->Some_0.1)),
    decreases s.len(),
{
    if s.len() == 0 {
    } else if s[0].0 == k {
        assert(s[0] == (k, s[0].1, s[0].2));
    } else {
        lemma_find_witness(s.drop_first(), k);
        let e = (k, find_entry(s, k)->Some_0.0, find_entry(s, k)->Some_0.1);
        let i = choose|i: int| 0 <= i < s.drop_first().len() && s.drop_first()[i] == e;
        assert(s[i + 1] == s.drop_first()[i]);
        assert(s.contains(e)) by {
            assert(s[i + 1] == e);
        }
    }
}

/// With unique keys, a contained entry is the one its key finds.
pub proof fn lemma_contains_find<V>(s: Seq<(Seq<char>, V, u64)>, e: (Seq<char>, V, u64))
    requires
        keys_unique(s),
        s.contains(e),
    ensures
        find_entry(s, e.0) == Option::Some((e.1, e.2)),
{
    let i = choose|i: int| 0 <= i < s.len() && s[i] == e;
    lemma_find_at(s, e.0, i);
}

/// Finds the first entry keyed `key`.
fn table_find<'a, T: View>(entries: &'a Vec<(String, T, u64)>, key: &str) -> (r: Option<
    &'a (String, T, u64),
>)
    ensures
        match r {
            Option::Some(e) => find_entry(table_view(entries@), key@) == Option::Some(
                (e.1@, e.2),
            ),
            Option::None => find_entry(table_view(entries@), key@) is None,
        },
{
    let ghost model = table_view(entries@);
    let mut i: usize = 0;
    proof {
        assert(model.skip(0) =~= model);
    }
    while i < entries.len()
        invariant
            model == table_view(entries@),
            i <= model.len(),
            find_entry(model, key@) == find_entry(model.skip(i as int), key@),
        decreases model.len() - i,
    {
        proof {
            assert(model.skip(i as int)[0] == model[i as int]);
            assert(model.skip(i as int).drop_first() =~= model.skip(i as int + 1));
        }
        let e = &entries[i];
        proof {
            assert(model[i as int] == (e.0@, e.1@, e.2));
        }
        if str_eq(e.0.as_str(), key) {
            return Option::Some(e);
        }
        i += 1;
    }
    proof {
        assert(model.skip(model.len() as int) =~= Seq::<(Seq<char>, T::V, u64)>::empty());
    }
    Option::None
}

/// Finds the index of the first entry keyed `key`.
fn table_find_index<T: View>(entries: &Vec<(String, T, u64)>, key: &str) -> (r: Option<usize>)
    ensures
        match r {
            Option::Some(i) => i < entries@.len() && table_view(entries@)[i as int].0 == key@,
            Option::None => forall|j: int|
                0 <= j < entries@.len() ==> (#[trigger] table_view(entries@)[j]).0 != key@,
        },
{
    let ghost model = table_view(entries@);
    let mut i: usize = 0;
    while i < entries.len()
        invariant
            model == table_view(entries@),
            i <= model.len(),
            forall|j: int| 0 <= j < i ==> (#[trigger] model[j]).0 != key@,
        decreases model.len() - i,
    {
        let e = &entries[i];
        proof {
            assert(model[i as int] == (e.0@, e.1@, e.2));
        }
        if str_eq(e.0.as_str(), key) {
            return Option::Some(i);
        }
        i += 1;
    }
    Option::None
}

/// Stores `value` under `key` at time `now`: any entry with the key is
/// replaced, and when the table would exceed `capacity` its oldest entry
/// leaves. Entries for other keys are never invented, and below capacity
/// they are all kept.
fn table_insert<T: View>(
    entries: &mut Vec<(String, T, u64)>,
    capacity: usize,
    key: &str,
    value: T,
    now: u64,
)
    requires
        capacity >= 1,
        keys_unique(table_view(old(entries)@)),
        table_view(old(entries)@).len() <= capacity,
    ensures
        keys_unique(table_view(final(entries)@)),
        table_view(final(entries)@).len() <= capacity,
        find_entry(table_view(final(entries)@), key@) == Option::Some((value@, now)),
        forall|k: Seq<char>|
            k != key@ && (#[trigger] find_entry(table_view(final(entries)@), k)) is Some
                ==> find_entry(table_view(final(entries)@), k) == find_entry(
                table_view(old(entries)@),
                k,
            ),
        table_view(old(entries)@).len() < capacity ==> forall|k: Seq<char>|
            k != key@ ==> #[trigger] find_entry(table_view(final(entries)@), k) == find_entry(
                table_view(old(entries)@),
                k,
            ),
{
    let ghost model0 = table_view(old(entries)@);
    let found = table_find_index(entries, key);
    match found {
        Option::Some(i) => {
            entries.remove(i);
        },
        Option::None => {},
    }
    let ghost model1 = table_view(entries@);
    proof {
        if found is Some {
            let ii = found->Some_0 as int;
            old(entries)@.remove_ensures(ii);
            assert(model1 =~= model0.remove(ii)) by {
                assert forall|j: int| 0 <= j < model1.len() implies model1[j] == model0.remove(
                    ii,
                )[j] by {
                    if j < ii {
                        assert(entries@[j] == old(entries)@[j]);
                    } else {
                        assert(entries@[j] == old(entries)@[j + 1]);
                    }
                }
            }
            model0.remove_ensures(ii);
        }
    }
    // facts about the pruned table: no entry keyed `key`, unique keys,
    // entries drawn from the old table, other keys all kept
    proof {
        assert forall|j: int| 0 <= j < model1.len() implies (#[trigger] model1[j]).0 != key@
            && model0.contains(model1[j]) by {
            if found is Some {
                let ii = found->Some_0 as int;
                model0.remove_ensures(ii);
                if j < ii {
                    assert(model1[j] == model0[j]);
                } else {
                    assert(model1[j] == model0[j + 1]);
                }
            } else {
                assert(model1[j] == model0[j]);
            }
        }
        assert(keys_unique(model1)) by {
            assert forall|a: int, b: int| 0 <= a < b < model1.len() implies (
            #[trigger] model1[a]).0 != (#[trigger] model1[b]).0 by {
                if found is Some {
                    let ii = found->Some_0 as int;
                    model0.remove_ensures(ii);
                    let a0: int = if a < ii {
                        a
                    } else {
                        a + 1
                    };
                    let b0: int = if b < ii {
                        b
                    } else {
                        b + 1
                    };
                    assert(model1[a] == model0[a0]);
                    assert(model1[b] == model0[b0]);
                }
            }
        }
        assert forall|j0: int|
            0 <= j0 < model0.len() && (#[trigger] model0[j0]).0 != key@ implies model1.contains(
            model0[j0],
        ) by {
            if found is Some {
                let ii = found->Some_0 as int;
                model0.remove_ensures(ii);
                assert(model0[ii].0 == key@);
                assert(j0 != ii);
                if j0 < ii {
                    assert(model1[j0] == model0[j0]);
                } else {
                    assert(model1[j0 - 1] == model0[j0]);
                }
            } else {
                assert(model1[j0] == model0[j0]);
            }
        }
    }
    let ghost pushed = (key@, value@, now);
    entries.push((key.to_owned(), value, now));
    let ghost model2 = table_view(entries@);
    proof {
        assert(model2 =~= model1.push(pushed));
    }
    let evict = entries.len() > capacity;
    if evict {
        entries.remove(0);
        proof {
            assert(table_view(entries@) =~= model2.drop_first()) by {
                assert forall|j: int| 0 <= j < entries@.len() implies table_view(entries@)[j]
                    == model2.drop_first()[j] by {}
            }
        }
    }
    let ghost modelf = table_view(entries@);
    proof {
        if evict {
            assert(model1.len() + 1 > capacity);
            assert(model1.len() == capacity);
            assert(modelf =~= model2.drop_first());
        } else {
            assert(modelf == model2);
        }
        // the fresh entry is found
        let off: int = if evict {
            1
        } else {
            0
        };
        assert(modelf[modelf.len() - 1] == pushed);
        assert forall|j: int| 0 <= j < modelf.len() - 1 implies #[trigger] modelf[j] == model1[j
            + off] by {}
        assert(keys_unique(modelf)) by {
            assert forall|a: int, b: int| 0 <= a < b < modelf.len() implies (
            #[trigger] modelf[a]).0 != (#[trigger] modelf[b]).0 by {
                if b < modelf.len() - 1 {
                    assert(modelf[a] == model1[a + off]);
                    assert(modelf[b] == model1[b + off]);
                } else {
                    assert(modelf[b] == pushed);
                    assert(modelf[a] == model1[a + off]);
                }
            }
        }
        lemma_find_at(modelf, key@, modelf.len() - 1);
        // entries for other keys come from the old table unchanged
        assert forall|k: Seq<char>|
            k != key@ && (#[trigger] find_entry(modelf, k)) is Some implies find_entry(modelf, k)
            == find_entry(model0, k) by {
            lemma_find_witness(modelf, k);
            let e = (k, find_entry(modelf, k)->Some_0.0, find_entry(modelf, k)->Some_0.1);
            let j = choose|j: int| 0 <= j < modelf.len() && modelf[j] == e;
            assert(j < modelf.len() - 1);
            assert(model1.contains(e)) by {
                assert(modelf[j] == model1[j + off]);
            }
            let j1 = choose|j1: int| 0 <= j1 < model1.len() && model1[j1] == e;
            assert(model0.contains(e));
            lemma_contains_find(model0, e);
        }
        // below capacity nothing is evicted and every other key is kept
        if model0.len() < capacity {
            assert(!evict);
            assert forall|k: Seq<char>| k != key@ implies #[trigger] find_entry(modelf, k)
                == find_entry(model0, k) by {
                if find_entry(model0, k) is Some {
                    lemma_find_witness(model0, k);
                    let e = (k, find_entry(model0, k)->Some_0.0, find_entry(model0, k)->Some_0.1);
                    assert(model1.contains(e));
                    let j1 = choose|j1: int| 0 <= j1 < model1.len() && model1[j1] == e;
                    assert(modelf.contains(e)) by {
                        assert(modelf[j1] == model1[j1]);
                    }
                    lemma_contains_find(modelf, e);
                } else {
                    lemma_find_none(model0, k);
                    lemma_find_none(modelf, k);
                    assert forall|j: int| 0 <= j < modelf.len() implies (#[trigger] modelf[j]).0
                        != k by {
                        if j < modelf.len() - 1 {
                            assert(modelf[j] == model1[j]);
                            assert(model0.contains(model1[j]));
                            let j0 = choose|j0: int|
                                0 <= j0 < model0.len() && model0[j0] == model1[j];
                            assert(model0[j0].0 != k);
                        } else {
                            assert(modelf[j] == pushed);
                        }
                    }
                }
            }
        }
    }
}

// ---------------------------------------------------------------------------
// The discovery-document tier
// ---------------------------------------------------------------------------

/// Whether a discovery entry inserted at `at` is still live at `now`:
/// successes never expire on time, failures live ten minutes.
pub open spec fn discovery_live(v: ResolveWebHostMetaResultV, at: u64, now: u64) -> bool {
    match v {
        ResolveWebHostMetaResultV::Found(_) => true,
        ResolveWebHostMetaResultV::NotFound(_) => now < at + DISCOVERY_NOT_FOUND_TTL_MS,
    }
}

/// The discovery-document cache, keyed by server hostname.
pub struct DiscoveryCache {
    entries: Vec<(String, ResolveWebHostMetaResult, u64)>,
    capacity: usize,
}

impl DiscoveryCache {
    /// Key, value and insertion time of every entry, oldest first.
    pub closed spec fn entries_view(&self) -> Seq<(Seq<char>, ResolveWebHostMetaResultV, u64)> {
        table_view(self.entries@)
    }

    pub closed spec fn cap(&self) -> nat {
        self.capacity as nat
    }

    pub open spec fn wf(&self) -> bool {
        self.cap() >= 1 && self.entries_view().len() <= self.cap() && keys_unique(
            self.entries_view(),
        )
    }

    /// The stored entry under `k` — its value and insertion time — live or
    /// not.
    pub open spec fn spec_entry(&self, k: Seq<char>) -> Option<
        (ResolveWebHostMetaResultV, u64),
    > {
        find_entry(self.entries_view(), k)
    }

    /// The live value under `k` at time `now`.
    pub open spec fn spec_get(&self, k: Seq<char>, now: u64) -> Option<
        ResolveWebHostMetaResultV,
    > {
        match self.spec_entry(k) {
            Option::Some(e) => if discovery_live(e.0, e.1, now) {
                Option::Some(e.0)
            } else {
                Option::None
            },
            Option::None => Option::None,
        }
    }

    /// An empty cache bounded at `capacity` entries.
    pub fn with_capacity(capacity: usize) -> (r: Self)
        requires
            capacity >= 1,
        ensures
            r.wf(),
            r.cap() == capacity as nat,
            forall|k: Seq<char>| (#[trigger] r.spec_entry(k)) is None,
    {
        let r = DiscoveryCache { entries: Vec::new(), capacity };
        proof {
            assert(r.entries_view() =~= Seq::<
                (Seq<char>, ResolveWebHostMetaResultV, u64),
            >::empty());
        }
        r
    }

    /// How many entries the cache holds.
    pub fn len(&self) -> (r: usize)
        ensures
            r == self.entries_view().len(),
    {
        self.entries.len()
    }

    /// The live entry for `hostname` at `now`, if any.
    pub fn get(&self, hostname: &str, now: u64) -> (r: Option<ResolveWebHostMetaResult>)
        ensures
            match r {
                Option::Some(v) => self.spec_get(hostname@, now) == Option::Some(v@),
                Option::None => self.spec_get(hostname@, now) is None,
            },
    {
        match table_find(&self.entries, hostname) {
            Option::Some(e) => {
                let live = match &e.1 {
                    ResolveWebHostMetaResult::Found(_) => true,
                    ResolveWebHostMetaResult::NotFound(_) => (now as u128) < (e.2 as u128) + (
                    DISCOVERY_NOT_FOUND_TTL_MS as u128),
                };
                if live {
                    Option::Some(e.1.clone())
                } else {
                    Option::None
                }
            },
            Option::None => Option::None,
        }
    }

    /// Stores the outcome of a fetch of `hostname` made at `now`,
    /// replacing any previous entry and evicting the oldest entry when
    /// over capacity.
    pub fn insert(&mut self, hostname: &str, value: ResolveWebHostMetaResult, now: u64)
        requires
            old(self).wf(),
        ensures
            final(self).wf(),
            final(self).cap() == old(self).cap(),
            final(self).spec_entry(hostname@) == Option::Some((value@, now)),
            final(self).spec_get(hostname@, now) == Option::Some(value@),
            forall|k: Seq<char>|
                k != hostname@ && (#[trigger] final(self).spec_entry(k)) is Some ==> final(self).spec_entry(k) == old(self).spec_entry(k),
            old(self).entries_view().len() < old(self).cap() ==> forall|k: Seq<char>|
                k != hostname@ ==> #[trigger] final(self).spec_entry(k) == old(self).spec_entry(k),
    {
        let capacity = self.capacity;
        table_insert(&mut self.entries, capacity, hostname, value, now);
    }
}

// ---------------------------------------------------------------------------
// The resolution tier
// ---------------------------------------------------------------------------

/// Whether a resolution entry inserted at `at` is still live at `now`:
/// successes live thirty minutes, failures ten.
pub open spec fn resolution_live(v: ResolveAtUriResultV, at: u64, now: u64) -> bool {
    match v {
        ResolveAtUriResultV::Found(_) => now < at + RESOLUTION_FOUND_TTL_MS,
        ResolveAtUriResultV::NotFound(_) => now < at + RESOLUTION_NOT_FOUND_TTL_MS,
    }
}

/// The end-to-end resolution cache, keyed by the input hash.
pub struct ResolutionCache {
    entries: Vec<(String, ResolveAtUriResult, u64)>,
    capacity: usize,
}

impl ResolutionCache {
    /// Key, value and insertion time of every entry, oldest first.
    pub closed spec fn entries_view(&self) -> Seq<(Seq<char>, ResolveAtUriResultV, u64)> {
        table_view(self.entries@)
    }

    pub closed spec fn cap(&self) -> nat {
        self.capacity as nat
    }

    pub open spec fn wf(&self) -> bool {
        self.cap() >= 1 && self.entries_view().len() <= self.cap() && keys_unique(
            self.entries_view(),
        )
    }

    /// The stored entry under `k` — its value and insertion time — live or
    /// not.
    pub open spec fn spec_entry(&self, k: Seq<char>) -> Option<(ResolveAtUriResultV, u64)> {
        find_entry(self.entries_view(), k)
    }

    /// The live value under `k` at time `now`.
    pub open spec fn spec_get(&self, k: Seq<char>, now: u64) -> Option<ResolveAtUriResultV> {
        match self.spec_entry(k) {
            Option::Some(e) => if resolution_live(e.0, e.1, now) {
                Option::Some(e.0)
            } else {
                Option::None
            },
            Option::None => Option::None,
        }
    }

    /// An empty cache bounded at `capacity` entries.
    pub fn with_capacity(capacity: usize) -> (r: Self)
        requires
            capacity >= 1,
        ensures
            r.wf(),
            r.cap() == capacity as nat,
            forall|k: Seq<char>| (#[trigger] r.spec_entry(k)) is None,
    {
        let r = ResolutionCache { entries: Vec::new(), capacity };
        proof {
            assert(r.entries_view() =~= Seq::<(Seq<char>, ResolveAtUriResultV, u64)>::empty());
        }
        r
    }

    /// How many entries the cache holds.
    pub fn len(&self) -> (r: usize)
        ensures
            r == self.entries_view().len(),
    {
        self.entries.len()
    }

    /// The live entry for `key` at `now`, if any.
    pub fn get(&self, key: &str, now: u64) -> (r: Option<ResolveAtUriResult>)
        ensures
            match r {
                Option::Some(v) => self.spec_get(key@, now) == Option::Some(v@),
                Option::None => self.spec_get(key@, now) is None,
            },
    {
        match table_find(&self.entries, key) {
            Option::Some(e) => {
                let live = match &e.1 {
                    ResolveAtUriResult::Found(_) => (now as u128) < (e.2 as u128) + (
                    RESOLUTION_FOUND_TTL_MS as u128),
                    ResolveAtUriResult::NotFound(_) => (now as u128) < (e.2 as u128) + (
                    RESOLUTION_NOT_FOUND_TTL_MS as u128),
                };
                if live {
                    Option::Some(e.1.clone())
                } else {
                    Option::None
                }
            },
            Option::None => Option::None,
        }
    }

    /// Stores the outcome of a resolution keyed `key` made at `now`,
    /// replacing any previous entry and evicting the oldest entry when
    /// over capacity.
    pub fn insert(&mut self, key: &str, value: ResolveAtUriResult, now: u64)
        requires
            old(self).wf(),
        ensures
            final(self).wf(),
            final(self).cap() == old(self).cap(),
            final(self).spec_entry(key@) == Option::Some((value@, now)),
            final(self).spec_get(key@, now) == Option::Some(value@),
            forall|k: Seq<char>|
                k != key@ && (#[trigger] final(self).spec_entry(k)) is Some ==> final(self).spec_entry(k) == old(self).spec_entry(k),
            old(self).entries_view().len() < old(self).cap() ==> forall|k: Seq<char>|
                k != key@ ==> #[trigger] final(self).spec_entry(k) == old(self).spec_entry(k),
    {
        let capacity = self.capacity;
        table_insert(&mut self.entries, capacity, key, value, now);
    }
}

/// Both tiers as the service builds them, bounded at 20480 entries.
pub fn new_resolve_webhostmeta_cache() -> (r: DiscoveryCache)
    ensures
        r.wf(),
        r.cap() == CACHE_CAPACITY as nat,
        forall|k: Seq<char>| (#[trigger] r.spec_entry(k)) is None,
{
    DiscoveryCache::with_capacity(CACHE_CAPACITY)
}

pub fn new_resolve_aturi_cache() -> (r: ResolutionCache)
    ensures
        r.wf(),
        r.cap() == CACHE_CAPACITY as nat,
        forall|k: Seq<char>| (#[trigger] r.spec_entry(k)) is None,
{
    ResolutionCache::with_capacity(CACHE_CAPACITY)
}

// ---------------------------------------------------------------------------
// Expiry laws
// ---------------------------------------------------------------------------

/// Law: a cached discovery document never expires on time; only eviction
/// can remove it.
pub proof fn lemma_discovery_found_never_expires(
    c: DiscoveryCache,
    k: Seq<char>,
    d: WebHostMetaV,
    at: u64,
    now: u64,
)
    requires
        c.spec_entry(k) == Option::Some((ResolveWebHostMetaResultV::Found(d), at)),
    ensures
        c.spec_get(k, now) == Option::Some(ResolveWebHostMetaResultV::Found(d)),
{
}

/// Law: a remembered discovery failure answers lookups for ten minutes
/// from its insertion and not a moment longer.
pub proof fn lemma_discovery_not_found_ttl(
    c: DiscoveryCache,
    k: Seq<char>,
    m: Seq<char>,
    at: u64,
    now: u64,
)
    requires
        c.spec_entry(k) == Option::Some((ResolveWebHostMetaResultV::NotFound(m), at)),
    ensures
        now < at + DISCOVERY_NOT_FOUND_TTL_MS ==> c.spec_get(k, now) == Option::Some(
            ResolveWebHostMetaResultV::NotFound(m),
        ),
        now >= at + DISCOVERY_NOT_FOUND_TTL_MS ==> c.spec_get(k, now) is None,
{
}

/// Law: a remembered successful resolution answers lookups for thirty
/// minutes from its insertion and not a moment longer.
pub proof fn lemma_resolution_found_ttl(
    c: ResolutionCache,
    k: Seq<char>,
    u: Seq<char>,
    at: u64,
    now: u64,
)
    requires
        c.spec_entry(k) == Option::Some((ResolveAtUriResultV::Found(u), at)),
    ensures
        now < at + RESOLUTION_FOUND_TTL_MS ==> c.spec_get(k, now) == Option::Some(
            ResolveAtUriResultV::Found(u),
        ),
        now >= at + RESOLUTION_FOUND_TTL_MS ==> c.spec_get(k, now) is None,
{
}

/// Law: a remembered failed resolution answers lookups for ten minutes
/// from its insertion and not a moment longer.
pub proof fn lemma_resolution_not_found_ttl(
    c: ResolutionCache,
    k: Seq<char>,
    m: Seq<char>,
    at: u64,
    now: u64,
)
    requires
        c.spec_entry(k) == Option::Some((ResolveAtUriResultV::NotFound(m), at)),
    ensures
        now < at + RESOLUTION_NOT_FOUND_TTL_MS ==> c.spec_get(k, now) == Option::Some(
            ResolveAtUriResultV::NotFound(m),
        ),
        now >= at + RESOLUTION_NOT_FOUND_TTL_MS ==> c.spec_get(k, now) is None,
{
}

} // verus!

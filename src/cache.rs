//! A TTL-bounded cache of RRsets keyed by owner name, type and class.
//! Every record seen (answer, authority or additional glue) can be stored,
//! and is never returned past its expiry.
use crate::name::{lower_name, Name};
use crate::resolver::ValidationStatus;
use vstd::prelude::*;

verus! {

/// Owner name in lower case, record type and class.
pub type CacheKey = (Seq<Seq<u8>>, u16, u16);

/// The record data of an RRset, the time it expires at, and how far it was authenticated.
pub type CacheValue = (Seq<Seq<u8>>, u64, ValidationStatus);

/// `now + ttl`, saturating.
pub open spec fn expiry(now: u64, ttl: u32) -> u64 {
    if now as int + ttl as int > u64::MAX {
        u64::MAX
    } else {
        (now + ttl) as u64
    }
}

/// What a lookup of `k` at time `now` gives: the record data and its
/// status, if cached and not yet expired.
pub open spec fn cache_lookup(m: Map<CacheKey, CacheValue>, k: CacheKey, now: u64) -> Option<
    (Seq<Seq<u8>>, ValidationStatus),
> {
    if m.contains_key(k) && now < m[k].1 {
        Some((m[k].0, m[k].2))
    } else {
        None
    }
}

/// The cache after storing `records` with `status` under `k` at time `now` with `ttl`.
pub open spec fn cache_insert(
    m: Map<CacheKey, CacheValue>,
    k: CacheKey,
    records: Seq<Seq<u8>>,
    status: ValidationStatus,
    now: u64,
    ttl: u32,
) -> Map<CacheKey, CacheValue> {
    m.insert(k, (records, expiry(now, ttl), status))
}

struct CacheEntry {
    name: Name,
    record_type: u16,
    dns_class: u16,
    rdatas: Vec<Vec<u8>>,
    expires: u64,
    status: ValidationStatus,
}

spec fn entry_key(e: CacheEntry) -> CacheKey {
    (e.name@, e.record_type, e.dns_class)
}

spec fn entry_val(e: CacheEntry) -> CacheValue {
    (e.rdatas@.map_values(|r: Vec<u8>| r@), e.expires, e.status)
}

spec fn entries_map(es: Seq<CacheEntry>) -> Map<CacheKey, CacheValue>
    decreases es.len(),
{
    if es.len() == 0 {
        Map::empty()
    } else {
        entries_map(es.drop_last()).insert(entry_key(es.last()), entry_val(es.last()))
    }
}

spec fn keys_unique(es: Seq<CacheEntry>) -> bool {
    forall|i: int, j: int| 0 <= i < j < es.len() ==> entry_key(#[trigger] es[i]) != entry_key(#[trigger] es[j])
}

proof fn lemma_entries_map_at(es: Seq<CacheEntry>, i: int)
    requires
        keys_unique(es),
        0 <= i < es.len(),
    ensures
        entries_map(es).contains_key(entry_key(es[i])),
        entries_map(es)[entry_key(es[i])] == entry_val(es[i]),
    decreases es.len(),
{
    if i < es.len() - 1 {
        let d = es.drop_last();
        assert(d[i] == es[i]);
        assert(entry_key(es[i]) != entry_key(es[es.len() - 1]));
        lemma_entries_map_at(d, i);
    }
}

proof fn lemma_entries_map_absent(es: Seq<CacheEntry>, k: CacheKey)
    requires
        forall|i: int| 0 <= i < es.len() ==> entry_key(#[trigger] es[i]) != k,
    ensures
        !entries_map(es).contains_key(k),
    decreases es.len(),
{
    if es.len() > 0 {
        let d = es.drop_last();
        assert forall|i: int| 0 <= i < d.len() implies entry_key(#[trigger] d[i]) != k by {
            assert(d[i] == es[i]);
        }
        lemma_entries_map_absent(d, k);
        assert(entry_key(es[es.len() - 1]) != k);
    }
}

proof fn lemma_entries_map_update(es: Seq<CacheEntry>, i: int, e: CacheEntry)
    requires
        keys_unique(es),
        0 <= i < es.len(),
        entry_key(e) == entry_key(es[i]),
    ensures
        entries_map(es.update(i, e)) == entries_map(es).insert(entry_key(e), entry_val(e)),
        keys_unique(es.update(i, e)),
    decreases es.len(),
{
    let u = es.update(i, e);
    let d = es.drop_last();
    if i == es.len() - 1 {
        assert(u.drop_last() =~= d);
        assert(entries_map(u) =~= entries_map(es).insert(entry_key(e), entry_val(e)));
    } else {
        assert(u.drop_last() =~= d.update(i, e));
        assert(d[i] == es[i]);
        assert forall|a: int, b: int| 0 <= a < b < d.len() implies entry_key(#[trigger] d[a])
            != entry_key(#[trigger] d[b]) by {
            assert(d[a] == es[a] && d[b] == es[b]);
        }
        lemma_entries_map_update(d, i, e);
        assert(entry_key(es[i]) != entry_key(es[es.len() - 1]));
        assert(u.last() == es.last());
        assert(entries_map(u) =~= entries_map(es).insert(entry_key(e), entry_val(e)));
    }
    assert forall|a: int, b: int| 0 <= a < b < u.len() implies entry_key(#[trigger] u[a]) != entry_key(
        #[trigger] u[b],
    ) by {
        assert(entry_key(u[a]) == entry_key(es[a]) && entry_key(u[b]) == entry_key(es[b]));
    }
}

/// A cache of RRsets.
pub struct RecordCache {
    entries: Vec<CacheEntry>,
}

impl View for RecordCache {
    type V = Map<CacheKey, CacheValue>;

    closed spec fn view(&self) -> Map<CacheKey, CacheValue> {
        entries_map(self.entries@)
    }
}

impl RecordCache {
    /// Each key is stored at most once.
    pub closed spec fn wf(&self) -> bool {
        keys_unique(self.entries@)
    }

    /// An empty cache.
    pub fn new() -> (r: RecordCache)
        ensures
            r.wf(),
            r@ == Map::<CacheKey, CacheValue>::empty(),
    {
        RecordCache { entries: Vec::new() }
    }

    fn find(&self, name: &Name, record_type: u16, dns_class: u16) -> (r: Option<usize>)
        ensures
            match r {
                Some(i) => i < self.entries@.len() && entry_key(self.entries@[i as int]) == (
                name@,
                record_type,
                dns_class,
                ),
                None => forall|i: int|
                    0 <= i < self.entries@.len() ==> entry_key(#[trigger] self.entries@[i]) != (
                    name@,
                    record_type,
                    dns_class,
                    ),
            },
    {
        let mut i: usize = 0;
        while i < self.entries.len()
            invariant
                i <= self.entries@.len(),
                forall|j: int|
                    0 <= j < i ==> entry_key(#[trigger] self.entries@[j]) != (
                    name@,
                    record_type,
                    dns_class,
                    ),
            decreases self.entries@.len() - i,
        {
            let e = &self.entries[i];
            if e.record_type == record_type && e.dns_class == dns_class && e.name.eq_case_sensitive(name) {
                return Some(i);
            }
            i = i + 1;
        }
        None
    }

    /// Stores the record data of an RRset with its validation status,
    /// replacing any earlier one under the same key (the owner name compared
    /// without case); it expires `ttl` seconds after `now`.
    pub fn insert(
        &mut self,
        name: Name,
        record_type: u16,
        dns_class: u16,
        rdatas: Vec<Vec<u8>>,
        status: ValidationStatus,
        ttl: u32,
        now: u64,
    )
        requires
            old(self).wf(),
        ensures
            final(self).wf(),
            final(self)@ == cache_insert(
                old(self)@,
                (lower_name(name@), record_type, dns_class),
                rdatas@.map_values(|r: Vec<u8>| r@),
                status,
                now,
                ttl,
            ),
    {
        let expires: u64 = if now > u64::MAX - ttl as u64 {
            u64::MAX
        } else {
            now + ttl as u64
        };
        let name = name.to_lowercase();
        let found = self.find(&name, record_type, dns_class);
        let e = CacheEntry { name, record_type, dns_class, rdatas, expires, status };
        let ghost es = self.entries@;
        match found {
            Some(i) => {
                proof {
                    lemma_entries_map_update(es, i as int, e);
                }
                self.entries.set(i, e);
            },
            None => {
                self.entries.push(e);
                proof {
                    assert(self.entries@.drop_last() =~= es);
                    assert forall|a: int, b: int| 0 <= a < b < self.entries@.len() implies entry_key(
                        #[trigger] self.entries@[a],
                    ) != entry_key(#[trigger] self.entries@[b]) by {
                        if b == es.len() {
                            assert(self.entries@[a] == es[a]);
                        } else {
                            assert(self.entries@[a] == es[a] && self.entries@[b] == es[b]);
                        }
                    }
                }
            },
        }
    }

    /// The record data cached under the key and its status, unless absent
    /// or expired at `now`.
    pub fn lookup(&self, name: &Name, record_type: u16, dns_class: u16, now: u64) -> (r: Option<
        (&Vec<Vec<u8>>, ValidationStatus),
    >)
        requires
            self.wf(),
        ensures
            match r {
                Some((v, st)) => cache_lookup(self@, (lower_name(name@), record_type, dns_class), now)
                    == Some((v@.map_values(|x: Vec<u8>| x@), st)),
                None => cache_lookup(self@, (lower_name(name@), record_type, dns_class), now) is None,
            },
    {
        let key = name.to_lowercase();
        match self.find(&key, record_type, dns_class) {
            Some(i) => {
                proof {
                    lemma_entries_map_at(self.entries@, i as int);
                }
                let e = &self.entries[i];
                if now < e.expires {
                    Some((&e.rdatas, e.status))
                } else {
                    None
                }
            },
            None => {
                proof {
                    lemma_entries_map_absent(self.entries@, (key@, record_type, dns_class));
                }
                None
            },
        }
    }
}

/// The TTL of an RRset: the least TTL of its records, 0 when it has none.
pub fn rrset_ttl(ttls: &[u32]) -> (r: u32)
    ensures
        ttls@.len() == 0 ==> r == 0,
        ttls@.len() > 0 ==> (exists|i: int| 0 <= i < ttls@.len() && r == ttls@[i]) && forall|i: int|
            0 <= i < ttls@.len() ==> r <= #[trigger] ttls@[i],
{
    if ttls.len() == 0 {
        return 0;
    }
    let mut m = ttls[0];
    let mut i: usize = 1;
    while i < ttls.len()
        invariant
            1 <= i <= ttls@.len(),
            exists|k: int| 0 <= k < ttls@.len() && m == ttls@[k],
            forall|k: int| 0 <= k < i ==> m <= #[trigger] ttls@[k],
        decreases ttls@.len() - i,
    {
        if ttls[i] < m {
            m = ttls[i];
        }
        i = i + 1;
    }
    m
}

/// Glue reuse: an address RRset cached as glue for one query satisfies a
/// later, independent lookup of the same name and type before it expires,
/// whatever else was cached in between.
pub proof fn lemma_glue_reuse(
    m: Map<CacheKey, CacheValue>,
    glue_key: CacheKey,
    glue: Seq<Seq<u8>>,
    status: ValidationStatus,
    ttl: u32,
    now: u64,
    other_key: CacheKey,
    other: Seq<Seq<u8>>,
    other_status: ValidationStatus,
    other_ttl: u32,
    other_now: u64,
    later: u64,
)
    requires
        other_key != glue_key,
        later < expiry(now, ttl),
    ensures
        cache_lookup(cache_insert(m, glue_key, glue, status, now, ttl), glue_key, later) == Some(
            (glue, status),
        ),
        cache_lookup(
            cache_insert(
                cache_insert(m, glue_key, glue, status, now, ttl),
                other_key,
                other,
                other_status,
                other_now,
                other_ttl,
            ),
            glue_key,
            later,
        ) == Some((glue, status)),
{
}

/// An expired RRset is never returned.
pub proof fn lemma_never_past_expiry(m: Map<CacheKey, CacheValue>, k: CacheKey, now: u64)
    requires
        m.contains_key(k),
        now >= m[k].1,
    ensures
        cache_lookup(m, k, now) is None,
{
}

} // verus!

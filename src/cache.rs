use vstd::prelude::*;

use crate::addr::{loopback, loopback_ip, HostAddr};
use crate::packet::models;
use crate::record::{record_ttl, DnsRecord, RecordModel, TransientTtl};
use crate::text::text_eq;

verus! {

/// Seconds in a day.
pub const DAY_SECS: i64 = 86400;

/// How long entries loaded at startup stay valid: one year.
pub const STATIC_LIFETIME: i64 = 365 * DAY_SECS;

/// The TTL given to records loaded at startup.
pub const STATIC_TTL: u32 = 300;

/// The records cached for a name, and when they stop being valid, in
/// seconds since the Unix epoch.
#[derive(Debug, Clone)]
pub struct CacheRecord {
    pub records: Vec<DnsRecord>,
    pub expires: i64,
}

/// What an entry holds: its records and its expiry.
pub open spec fn entry_model(r: CacheRecord) -> (Seq<RecordModel>, i64) {
    (models(r.records@), r.expires)
}

/// The mapping that a list of entries stands for; a later entry for a name
/// overrides an earlier one.
pub open spec fn table(s: Seq<(String, CacheRecord)>) -> Map<Seq<char>, (Seq<RecordModel>, i64)>
    decreases s.len(),
{
    if s.len() == 0 {
        Map::empty()
    } else {
        table(s.drop_last()).insert(s.last().0@, entry_model(s.last().1))
    }
}

/// The largest TTL of a run of records, zero when there is none.
pub open spec fn max_ttl(rs: Seq<RecordModel>) -> u32
    decreases rs.len(),
{
    if rs.len() == 0 {
        0
    } else {
        let m = max_ttl(rs.drop_last());
        if record_ttl(rs.last()) > m {
            record_ttl(rs.last())
        } else {
            m
        }
    }
}

/// An entry is expired at `now` once its expiry is not after `now`.
pub open spec fn expired(e: (Seq<RecordModel>, i64), now: i64) -> bool {
    e.1 <= now
}

/// What a lookup of `k` at `now` finds: the entry, unless it is absent or
/// expired.
pub open spec fn found(
    m: Map<Seq<char>, (Seq<RecordModel>, i64)>,
    k: Seq<char>,
    now: i64,
) -> Option<(Seq<RecordModel>, i64)> {
    if m.contains_key(k) && !expired(m[k], now) {
        Some(m[k])
    } else {
        None
    }
}

/// The mapping after a lookup of `k` at `now`: an expired entry is dropped.
pub open spec fn after_find(
    m: Map<Seq<char>, (Seq<RecordModel>, i64)>,
    k: Seq<char>,
    now: i64,
) -> Map<Seq<char>, (Seq<RecordModel>, i64)> {
    if m.contains_key(k) && expired(m[k], now) {
        m.remove(k)
    } else {
        m
    }
}

/// The mapping after saving `rs` for `k` at `now`: the entry expires the
/// largest TTL of its records after `now`.
pub open spec fn saved(
    m: Map<Seq<char>, (Seq<RecordModel>, i64)>,
    k: Seq<char>,
    rs: Seq<RecordModel>,
    now: i64,
) -> Map<Seq<char>, (Seq<RecordModel>, i64)> {
    m.insert(k, (rs, (now + max_ttl(rs)) as i64))
}

/// A copy of a run of records.
pub fn copy_records(v: &Vec<DnsRecord>) -> (r: Vec<DnsRecord>)
    ensures
        models(r@) == models(v@),
{
    let mut out: Vec<DnsRecord> = Vec::new();
    let mut i: usize = 0;
    while i < v.len()
        invariant
            i <= v@.len(),
            models(out@) == models(v@.take(i as int)),
        decreases v@.len() - i,
    {
        let d = v[i].duplicate();
        proof {
            assert(models(out@.push(d)) =~= models(out@).push(d@));
            assert(models(v@.take(i + 1)) =~= models(v@.take(i as int)).push(v@[i as int]@));
        }
        out.push(d);
        i = i + 1;
    }
    proof {
        assert(v@.take(i as int) =~= v@);
    }
    out
}

impl CacheRecord {
    /// A copy of the entry.
    pub fn duplicate(&self) -> (r: CacheRecord)
        ensures
            entry_model(r) == entry_model(*self),
    {
        CacheRecord { records: copy_records(&self.records), expires: self.expires }
    }
}

/// The largest TTL of a run of records.
pub fn largest_ttl(v: &Vec<DnsRecord>) -> (r: u32)
    ensures
        r == max_ttl(models(v@)),
{
    let mut m: u32 = 0;
    let mut i: usize = 0;
    proof {
        assert(models(v@).take(0) =~= Seq::<RecordModel>::empty());
    }
    while i < v.len()
        invariant
            i <= v@.len(),
            m == max_ttl(models(v@).take(i as int)),
        decreases v@.len() - i,
    {
        let t = v[i].ttl();
        proof {
            assert(models(v@).take(i + 1).drop_last() =~= models(v@).take(i as int));
        }
        if t > m {
            m = t;
        }
        i = i + 1;
    }
    proof {
        assert(models(v@).take(i as int) =~= models(v@));
    }
    m
}

/// Names mapped to the records cached for them.
pub struct Cache {
    pub domains: Vec<(String, CacheRecord)>,
}

impl View for Cache {
    type V = Map<Seq<char>, (Seq<RecordModel>, i64)>;

    open spec fn view(&self) -> Map<Seq<char>, (Seq<RecordModel>, i64)> {
        table(self.domains@)
    }
}

impl Cache {
    pub fn new() -> (r: Cache)
        ensures
            r@ == Map::<Seq<char>, (Seq<RecordModel>, i64)>::empty(),
    {
        Cache { domains: Vec::new() }
    }

    /// Drops the entry for `domain`, if any.
    pub fn remove(&mut self, domain: &str)
        ensures
            final(self)@ == old(self)@.remove(domain@),
    {
        let mut kept: Vec<(String, CacheRecord)> = Vec::new();
        let ghost s = self.domains@;
        let mut i: usize = 0;
        proof {
            assert(s.take(0) =~= Seq::<(String, CacheRecord)>::empty());
            assert(table(kept@) =~= table(s.take(0)).remove(domain@));
        }
        while i < self.domains.len()
            invariant
                s == self.domains@,
                s == old(self).domains@,
                i <= s.len(),
                table(kept@) == table(s.take(i as int)).remove(domain@),
            decreases s.len() - i,
        {
            proof {
                assert(s.take(i + 1).drop_last() =~= s.take(i as int));
            }
            if !text_eq(self.domains[i].0.as_str(), domain) {
                let name = self.domains[i].0.clone();
                let entry = self.domains[i].1.duplicate();
                let ghost e = (name, entry);
                proof {
                    assert(kept@.push(e).drop_last() =~= kept@);
                    assert(table(kept@.push(e)) =~= table(s.take(i + 1)).remove(domain@));
                }
                kept.push((name, entry));
            } else {
                proof {
                    assert(table(kept@) =~= table(s.take(i + 1)).remove(domain@));
                }
            }
            i = i + 1;
        }
        proof {
            assert(s.take(i as int) =~= s);
        }
        self.domains = kept;
    }

    /// Stores `record` for `domain`, replacing any earlier entry.
    pub fn insert(&mut self, domain: String, record: CacheRecord)
        ensures
            final(self)@ == old(self)@.insert(domain@, entry_model(record)),
    {
        self.remove(domain.as_str());
        let ghost before = self.domains@;
        let ghost e = (domain, record);
        self.domains.push((domain, record));
        proof {
            assert(self.domains@.drop_last() =~= before);
            assert(self@ =~= old(self)@.insert(e.0@, entry_model(e.1)));
        }
    }

    /// Caches `records` for `domain` at time `now`; the entry expires the
    /// largest TTL of the records after `now`.
    pub fn save(&mut self, domain: String, records: Vec<DnsRecord>, now: i64)
        requires
            now <= i64::MAX - 0x1_0000_0000,
        ensures
            final(self)@ == saved(old(self)@, domain@, models(records@), now),
    {
        let ttl = largest_ttl(&records);
        let expires = now + ttl as i64;
        self.insert(domain, CacheRecord { records, expires });
    }

    /// The entry for `domain` at time `now`. An expired entry is dropped and
    /// reads as absent.
    pub fn find(&mut self, domain: &str, now: i64) -> (r: Option<CacheRecord>)
        ensures
            r is Some <==> found(old(self)@, domain@, now) is Some,
            r is Some ==> found(old(self)@, domain@, now) == Some(entry_model(r->0)),
            final(self)@ == after_find(old(self)@, domain@, now),
    {
        let ghost s = self.domains@;
        let mut hit: Option<usize> = None;
        let mut i: usize = 0;
        while i < self.domains.len()
            invariant
                s == self.domains@,
                i <= s.len(),
                hit is Some ==> hit->0 < i && table(s.take(i as int)).contains_key(domain@)
                    && table(s.take(i as int))[domain@] == entry_model(s[hit->0 as int].1),
                hit is None ==> !table(s.take(i as int)).contains_key(domain@),
            decreases s.len() - i,
        {
            proof {
                assert(s.take(i + 1).drop_last() =~= s.take(i as int));
            }
            if text_eq(self.domains[i].0.as_str(), domain) {
                hit = Some(i);
            }
            i = i + 1;
        }
        proof {
            assert(s.take(i as int) =~= s);
        }
        match hit {
            None => None,
            Some(j) => {
                if self.domains[j].1.expires <= now {
                    self.remove(domain);
                    None
                } else {
                    Some(self.domains[j].1.duplicate())
                }
            },
        }
    }
}

/// Saving records whose largest TTL is `ttl` at time `t0` makes a lookup at
/// `t` find exactly them while `t < t0 + ttl`, and nothing from then on; a
/// lookup before that time leaves the entry in place for later readers.
pub proof fn lemma_cache_ttl(
    m: Map<Seq<char>, (Seq<RecordModel>, i64)>,
    k: Seq<char>,
    rs: Seq<RecordModel>,
    t0: i64,
    t: i64,
)
    requires
        t0 <= i64::MAX - 0x1_0000_0000,
    ensures
        t < t0 + max_ttl(rs) ==> found(saved(m, k, rs, t0), k, t) == Some(
            (rs, (t0 + max_ttl(rs)) as i64),
        ),
        t >= t0 + max_ttl(rs) ==> found(saved(m, k, rs, t0), k, t) is None,
        t < t0 + max_ttl(rs) ==> after_find(saved(m, k, rs, t0), k, t) == saved(m, k, rs, t0),
{
}

/// The records given to a name that a cluster ingress serves: one `A`
/// record for the loopback address.
pub open spec fn ingress_records(host: Seq<char>) -> Seq<RecordModel> {
    seq![RecordModel::A { domain: host, addr: loopback(), ttl: STATIC_TTL }]
}

/// The records given to a name from a static host file: an `A` or `AAAA`
/// record for its address.
pub open spec fn static_records(host: Seq<char>, addr: HostAddr) -> Seq<RecordModel> {
    match addr {
        HostAddr::V4 { ip, .. } => seq![RecordModel::A { domain: host, addr: ip@, ttl: STATIC_TTL }],
        HostAddr::V6 { ip, .. } => seq![RecordModel::AAAA { domain: host, addr: ip@, ttl: STATIC_TTL }],
    }
}

/// The texts of a run of strings.
pub open spec fn texts(v: Seq<String>) -> Seq<Seq<char>> {
    v.map_values(|s: String| s@)
}

/// The mapping after loading ingress names in order at time `now`.
pub open spec fn ingress_loaded(
    m: Map<Seq<char>, (Seq<RecordModel>, i64)>,
    hosts: Seq<Seq<char>>,
    now: i64,
) -> Map<Seq<char>, (Seq<RecordModel>, i64)>
    decreases hosts.len(),
{
    if hosts.len() == 0 {
        m
    } else {
        ingress_loaded(m, hosts.drop_last(), now).insert(
            hosts.last(),
            (ingress_records(hosts.last()), (now + STATIC_LIFETIME) as i64),
        )
    }
}

impl Cache {
    /// Loads the names that cluster ingresses serve, at time `now`: each maps
    /// to the loopback address with TTL 300 and stays for a year. Later names
    /// override earlier ones.
    pub fn load_ingress_hosts(&mut self, hosts: &Vec<String>, now: i64)
        requires
            now <= i64::MAX - STATIC_LIFETIME,
        ensures
            final(self)@ == ingress_loaded(old(self)@, texts(hosts@), now),
    {
        let mut i: usize = 0;
        proof {
            assert(texts(hosts@).take(0) =~= Seq::<Seq<char>>::empty());
        }
        while i < hosts.len()
            invariant
                i <= hosts@.len(),
                now <= i64::MAX - STATIC_LIFETIME,
                self@ == ingress_loaded(old(self)@, texts(hosts@).take(i as int), now),
            decreases hosts@.len() - i,
        {
            let host = hosts[i].clone();
            let rec = DnsRecord::A {
                domain: hosts[i].clone(),
                addr: loopback_ip(),
                ttl: TransientTtl(STATIC_TTL),
            };
            let records = vec![rec];
            proof {
                assert(models(records@) =~= ingress_records(host@));
                assert(texts(hosts@).take(i + 1).drop_last() =~= texts(hosts@).take(i as int));
            }
            self.insert(host, CacheRecord { records, expires: now + STATIC_LIFETIME });
            i = i + 1;
        }
        proof {
            assert(texts(hosts@).take(i as int) =~= texts(hosts@));
        }
    }

    /// Loads one name of a static host file at time `now`: it maps to its
    /// address with TTL 300 and stays for a year.
    pub fn load_static(&mut self, host: String, addr: HostAddr, now: i64)
        requires
            now <= i64::MAX - STATIC_LIFETIME,
        ensures
            final(self)@ == old(self)@.insert(
                host@,
                (static_records(host@, addr), (now + STATIC_LIFETIME) as i64),
            ),
    {
        let rec = match addr {
            HostAddr::V4 { ip, .. } => DnsRecord::A { domain: host.clone(), addr: ip, ttl: TransientTtl(STATIC_TTL) },
            HostAddr::V6 { ip, .. } => DnsRecord::AAAA { domain: host.clone(), addr: ip, ttl: TransientTtl(STATIC_TTL) },
        };
        let records = vec![rec];
        proof {
            assert(models(records@) =~= static_records(host@, addr));
        }
        self.insert(host, CacheRecord { records, expires: now + STATIC_LIFETIME });
    }
}

} // verus!

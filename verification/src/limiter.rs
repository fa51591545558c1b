//! Per-client token-bucket rate limiter for the registration endpoint.
//!
//! Each client key (the resolved client address) gets a bucket that starts at
//! the configured burst capacity and gains one token every
//! `replenish_interval_secs` seconds, up to the capacity. A check
//! takes one token; a client with an empty bucket is refused. Buckets are
//! created lazily on first sight of a key and live for the life of the
//! service.
//!
//! The limiter's view is a map from client key to bucket, and
//! [`RateLimiter::allow`] is pinned to the functional model
//! [`allow_decision`] / [`bucket_after`] over that map.

use vstd::arithmetic::div_mod::lemma_div_pos_is_pos;
use vstd::arithmetic::div_mod::lemma_fundamental_div_mod;
use vstd::arithmetic::div_mod::lemma_mod_division_less_than_divisor;
use vstd::prelude::*;
use vstd::pervasive::VecAdditionalExecFns;

verus! {

/// The limiter's policy: one token every `replenish_interval_secs` seconds,
/// at most `burst` tokens in a bucket.
#[derive(Clone, Copy, PartialEq, Eq, Structural)]
pub struct RateLimiterConfig {
    pub replenish_interval_secs: u64,
    pub burst: u64,
}

impl RateLimiterConfig {
    /// A meaningful policy replenishes: the interval is at least a second
    /// (it is also the divisor of the refill computation).
    pub open spec fn wf(&self) -> bool {
        self.replenish_interval_secs >= 1
    }
}

/// One client's allowance: how many grants remain, and the instant up to
/// which refills have been accounted.
#[derive(Clone, Copy, PartialEq, Eq, Structural)]
pub struct Bucket {
    pub tokens: u64,
    pub last: u64,
}

/// The bucket as it stands at `now`: every whole replenish interval since
/// `last` grants one token, up to the burst capacity, and `last` advances by
/// the intervals that were granted. A clock that runs backwards grants
/// nothing.
pub open spec fn refilled(b: Bucket, now: u64, cfg: RateLimiterConfig) -> Bucket
    recommends
        cfg.wf(),
        b.tokens <= cfg.burst,
{
    if now > b.last {
        let refills = (now - b.last) as int / cfg.replenish_interval_secs as int;
        let tokens = if b.tokens + refills >= cfg.burst {
            cfg.burst as int
        } else {
            b.tokens + refills
        };
        let last = b.last + refills * cfg.replenish_interval_secs;
        Bucket { tokens: tokens as u64, last: last as u64 }
    } else {
        b
    }
}

/// Whether a check at `now` lets a client through whose bucket stood at `prev`
/// (`None`: the key was never seen).
pub open spec fn allow_decision(prev: Option<Bucket>, now: u64, cfg: RateLimiterConfig) -> bool
    recommends
        cfg.wf(),
{
    match prev {
        None => cfg.burst >= 1,
        Some(b) => refilled(b, now, cfg).tokens >= 1,
    }
}

/// The client's bucket after a check at `now`: a fresh bucket minus the
/// granted token on first sight, the refilled bucket minus a token on
/// admission, the refilled bucket untouched on refusal. With a burst
/// capacity of zero no bucket is ever created.
pub open spec fn bucket_after(prev: Option<Bucket>, now: u64, cfg: RateLimiterConfig) -> Option<
    Bucket,
>
    recommends
        cfg.wf(),
{
    match prev {
        None => if cfg.burst >= 1 {
            Some(Bucket { tokens: (cfg.burst - 1) as u64, last: now })
        } else {
            None
        },
        Some(b) => {
            let rb = refilled(b, now, cfg);
            if rb.tokens >= 1 {
                Some(Bucket { tokens: (rb.tokens - 1) as u64, last: rb.last })
            } else {
                Some(rb)
            }
        },
    }
}

/// The bucket a map holds for a key, if any.
pub open spec fn bucket_of(m: Map<Seq<char>, Bucket>, k: Seq<char>) -> Option<Bucket> {
    if m.contains_key(k) {
        Some(m[k])
    } else {
        None
    }
}

/// The association of client keys to buckets, read front to first match.
pub open spec fn buckets_as_map(keys: Seq<String>, bs: Seq<Bucket>) -> Map<Seq<char>, Bucket>
    recommends
        keys.len() == bs.len(),
    decreases keys.len(),
{
    if keys.len() == 0 || bs.len() == 0 {
        Map::empty()
    } else {
        buckets_as_map(keys.skip(1), bs.skip(1)).insert(keys[0]@, bs[0])
    }
}

/// The per-client token-bucket guard. Independent clients hold independent
/// buckets; a check touches only the checked key's bucket.
pub struct RateLimiter {
    cfg: RateLimiterConfig,
    keys: Vec<String>,
    buckets: Vec<Bucket>,
}

impl View for RateLimiter {
    type V = Map<Seq<char>, Bucket>;

    closed spec fn view(&self) -> Map<Seq<char>, Bucket> {
        buckets_as_map(self.keys@, self.buckets@)
    }
}

impl RateLimiter {
    /// The policy this limiter was created with.
    pub closed spec fn spec_config(&self) -> RateLimiterConfig {
        self.cfg
    }

    /// Internal consistency: one bucket per key, keys distinct, no bucket
    /// above the burst capacity, and a usable policy.
    pub closed spec fn wf(&self) -> bool {
        &&& self.cfg.wf()
        &&& self.keys@.len() == self.buckets@.len()
        &&& forall|i: int, j: int|
            0 <= i < j < self.keys@.len() ==> self.keys@[i]@ != self.keys@[j]@
        &&& forall|i: int| 0 <= i < self.buckets@.len() ==> self.buckets@[i].tokens <= self.cfg.burst
    }

    pub fn new(replenish_interval_secs: u64, burst: u64) -> (r: RateLimiter)
        requires
            replenish_interval_secs >= 1,
        ensures
            r.wf(),
            r@ == Map::<Seq<char>, Bucket>::empty(),
            r.spec_config() == (RateLimiterConfig { replenish_interval_secs, burst }),
    {
        RateLimiter {
            cfg: RateLimiterConfig { replenish_interval_secs, burst },
            keys: Vec::new(),
            buckets: Vec::new(),
        }
    }

    /// One check for `key` at time `now`: the decision and the new
    /// bucket follow the functional model, and no other client's bucket
    /// changes.
    pub fn allow(&mut self, key: &String, now: u64) -> (r: bool)
        requires
            old(self).wf(),
        ensures
            final(self).wf(),
            final(self).spec_config() == old(self).spec_config(),
            r == allow_decision(bucket_of(old(self)@, key@), now, old(self).spec_config()),
            final(self)@ == (match bucket_after(
                bucket_of(old(self)@, key@),
                now,
                old(self).spec_config(),
            ) {
                Some(b) => old(self)@.insert(key@, b),
                None => old(self)@,
            }),
    {
        let n = self.keys.len();
        let mut i: usize = 0;
        while i < n
            invariant
                *self == *old(self),
                self.wf(),
                n == self.keys@.len(),
                i <= n,
                forall|j: int| 0 <= j < i ==> self.keys@[j]@ != key@,
            decreases n - i,
        {
            if self.keys[i] == *key {
                proof {
                    lemma_buckets_as_map_at(self.keys@, self.buckets@, key@, i as int);
                }
                let b = self.buckets[i];
                let rb = refill(b, now, &self.cfg);
                let granted = rb.tokens >= 1;
                let nb = if granted {
                    Bucket { tokens: rb.tokens - 1, last: rb.last }
                } else {
                    rb
                };
                self.buckets.set(i, nb);
                proof {
                    lemma_buckets_as_map_update(old(self).keys@, old(self).buckets@, i as int, nb);
                }
                return granted;
            }
            i += 1;
        }
        proof {
            lemma_buckets_as_map_absent(self.keys@, self.buckets@, key@);
        }
        if self.cfg.burst >= 1 {
            let nb = Bucket { tokens: self.cfg.burst - 1, last: now };
            let ghost pre_keys = self.keys@;
            let ghost pre_buckets = self.buckets@;
            self.keys.push(key.clone());
            self.buckets.push(nb);
            proof {
                lemma_buckets_as_map_push(pre_keys, pre_buckets, self.keys@[pre_keys.len() as int], nb);
                assert forall|a: int, b: int|
                    0 <= a < b < self.keys@.len() implies self.keys@[a]@ != self.keys@[b]@ by {
                    if b < pre_keys.len() {
                    } else {
                        assert(self.keys@[a]@ == pre_keys[a]@);
                    }
                }
            }
            true
        } else {
            false
        }
    }
}

/// The refill computation, matching [`refilled`]. The advanced `last` never
/// passes `now`, and the token count never passes the burst capacity.
fn refill(b: Bucket, now: u64, cfg: &RateLimiterConfig) -> (r: Bucket)
    requires
        cfg.wf(),
        b.tokens <= cfg.burst,
    ensures
        r == refilled(b, now, *cfg),
        r.tokens <= cfg.burst,
{
    if now > b.last {
        let elapsed = now - b.last;
        let refills = elapsed / cfg.replenish_interval_secs;
        proof {
            lemma_fundamental_div_mod(elapsed as int, cfg.replenish_interval_secs as int);
            lemma_div_pos_is_pos(elapsed as int, cfg.replenish_interval_secs as int);
            lemma_mod_division_less_than_divisor(
                elapsed as int,
                cfg.replenish_interval_secs as int,
            );
        }
        let last = b.last + refills * cfg.replenish_interval_secs;
        let tokens = if refills >= cfg.burst - b.tokens {
            cfg.burst
        } else {
            b.tokens + refills
        };
        Bucket { tokens, last }
    } else {
        b
    }
}

/// The bucket of one client after `n` consecutive checks at the same
/// instant, starting from `prev`.
pub open spec fn checks_at(prev: Option<Bucket>, now: u64, cfg: RateLimiterConfig, n: nat) -> Option<
    Bucket,
>
    recommends
        cfg.wf(),
    decreases n,
{
    if n == 0 {
        prev
    } else {
        bucket_after(checks_at(prev, now, cfg, (n - 1) as nat), now, cfg)
    }
}

/// Within the burst capacity, a client first seen at `now` is let through by
/// each of its first `n` checks at that instant, and its bucket then holds
/// `burst - n` tokens.
pub proof fn lemma_fresh_client_burst(now: u64, cfg: RateLimiterConfig, n: nat)
    requires
        cfg.wf(),
        1 <= n <= cfg.burst,
    ensures
        checks_at(None, now, cfg, n) == Some(
            Bucket { tokens: (cfg.burst - n) as u64, last: now },
        ),
        allow_decision(checks_at(None, now, cfg, (n - 1) as nat), now, cfg),
    decreases n,
{
    if n > 1 {
        lemma_fresh_client_burst(now, cfg, (n - 1) as nat);
    }
}

/// Exceeding the burst capacity: once a fresh client has been checked
/// `burst` times at one instant, its bucket is empty and the next check at
/// that instant is refused.
pub proof fn lemma_burst_exhausted(now: u64, cfg: RateLimiterConfig)
    requires
        cfg.wf(),
        cfg.burst >= 1,
    ensures
        !allow_decision(checks_at(None, now, cfg, cfg.burst as nat), now, cfg),
{
    lemma_fresh_client_burst(now, cfg, cfg.burst as nat);
}

/// A check for one client never touches a distinct client's bucket: the
/// bucket map after the check, as [`RateLimiter::allow`] ensures it, holds
/// the same bucket as before for every other key.
pub proof fn lemma_distinct_client_unaffected(
    m: Map<Seq<char>, Bucket>,
    key: Seq<char>,
    other: Seq<char>,
    now: u64,
    cfg: RateLimiterConfig,
)
    requires
        key != other,
    ensures
        bucket_of(
            match bucket_after(bucket_of(m, key), now, cfg) {
                Some(b) => m.insert(key, b),
                None => m,
            },
            other,
        ) == bucket_of(m, other),
{
}

/// Walking the association from the front, the first index holding `key`
/// decides the key's bucket in the map view.
proof fn lemma_buckets_as_map_at(keys: Seq<String>, bs: Seq<Bucket>, key: Seq<char>, k: int)
    requires
        keys.len() == bs.len(),
        0 <= k < keys.len(),
        keys[k]@ == key,
        forall|j: int| 0 <= j < k ==> keys[j]@ != key,
    ensures
        buckets_as_map(keys, bs).contains_key(key),
        buckets_as_map(keys, bs)[key] == bs[k],
    decreases k,
{
    if k == 0 {
    } else {
        lemma_buckets_as_map_at(keys.skip(1), bs.skip(1), key, k - 1);
    }
}

/// A key that occurs nowhere in the association is absent from the map view.
proof fn lemma_buckets_as_map_absent(keys: Seq<String>, bs: Seq<Bucket>, key: Seq<char>)
    requires
        keys.len() == bs.len(),
        forall|j: int| 0 <= j < keys.len() ==> keys[j]@ != key,
    ensures
        !buckets_as_map(keys, bs).contains_key(key),
    decreases keys.len(),
{
    if keys.len() > 0 {
        lemma_buckets_as_map_absent(keys.skip(1), bs.skip(1), key);
    }
}

/// Replacing the bucket at an index whose key occurs only there is, in the
/// map view, an insert for that key.
proof fn lemma_buckets_as_map_update(keys: Seq<String>, bs: Seq<Bucket>, k: int, nb: Bucket)
    requires
        keys.len() == bs.len(),
        0 <= k < keys.len(),
        forall|i: int, j: int| 0 <= i < j < keys.len() ==> keys[i]@ != keys[j]@,
    ensures
        buckets_as_map(keys, bs.update(k, nb)) == buckets_as_map(keys, bs).insert(keys[k]@, nb),
    decreases k,
{
    if k == 0 {
        assert(bs.update(0, nb).skip(1) =~= bs.skip(1));
        assert(bs.update(0, nb)[0] == nb);
        assert(buckets_as_map(keys, bs.update(0, nb)) =~= buckets_as_map(keys, bs).insert(
            keys[0]@,
            nb,
        ));
    } else {
        assert(bs.update(k, nb).skip(1) =~= bs.skip(1).update(k - 1, nb));
        lemma_buckets_as_map_update(keys.skip(1), bs.skip(1), k - 1, nb);
        assert(keys.skip(1)[k - 1]@ == keys[k]@);
        assert(keys[0]@ != keys[k]@);
        assert(buckets_as_map(keys, bs.update(k, nb)) =~= buckets_as_map(keys, bs).insert(
            keys[k]@,
            nb,
        ));
    }
}

/// Appending a pair with an unseen key is, in the map view, an insert for
/// that key.
proof fn lemma_buckets_as_map_push(keys: Seq<String>, bs: Seq<Bucket>, ks: String, nb: Bucket)
    requires
        keys.len() == bs.len(),
        forall|j: int| 0 <= j < keys.len() ==> keys[j]@ != ks@,
    ensures
        buckets_as_map(keys.push(ks), bs.push(nb)) == buckets_as_map(keys, bs).insert(ks@, nb),
    decreases keys.len(),
{
    if keys.len() == 0 {
        assert(buckets_as_map(keys.push(ks).skip(1), bs.push(nb).skip(1)) =~= Map::<
            Seq<char>,
            Bucket,
        >::empty());
        assert(buckets_as_map(keys, bs) =~= Map::<Seq<char>, Bucket>::empty());
        assert(keys.push(ks)[0] == ks);
        assert(bs.push(nb)[0] == nb);
        assert(buckets_as_map(keys.push(ks), bs.push(nb)) =~= buckets_as_map(keys, bs).insert(
            ks@,
            nb,
        ));
    } else {
        assert(keys.push(ks).skip(1) =~= keys.skip(1).push(ks));
        assert(bs.push(nb).skip(1) =~= bs.skip(1).push(nb));
        lemma_buckets_as_map_push(keys.skip(1), bs.skip(1), ks, nb);
        assert(keys[0]@ != ks@);
        assert(keys.push(ks)[0] == keys[0]);
        assert(bs.push(nb)[0] == bs[0]);
        assert(buckets_as_map(keys.push(ks), bs.push(nb)) == buckets_as_map(
            keys.skip(1).push(ks),
            bs.skip(1).push(nb),
        ).insert(keys[0]@, bs[0]));
        assert(buckets_as_map(keys, bs) == buckets_as_map(keys.skip(1), bs.skip(1)).insert(
            keys[0]@,
            bs[0],
        ));
        assert(buckets_as_map(keys.push(ks), bs.push(nb)) =~= buckets_as_map(keys, bs).insert(
            ks@,
            nb,
        ));
    }
}

} // verus!

//! The guestbook service: the registration pipeline and the admin
//! operations over one store, one rate limiter and one admin guard.
//!
//! A registration consults the rate limiter first — a refused client never
//! touches the store — then inserts under the injected current time, mapping
//! the store's conflict signal to a client failure. The admin operations
//! consult the guard first and touch the store only on a granted credential.

use vstd::prelude::*;
use vstd::string::StringExecFns;

use crate::admin::AdminAccess;
use crate::admin::AdminGuard;
use crate::admin::credential_view;
use crate::error::Failure;
use crate::limiter::Bucket;
use crate::limiter::RateLimiter;
use crate::limiter::RateLimiterConfig;
use crate::limiter::allow_decision;
use crate::limiter::bucket_after;
use crate::limiter::bucket_of;
use crate::store::DuplicateNickError;
use crate::store::PublicVisitor;
use crate::store::Visitor;
use crate::store::VisitorStore;
use crate::store::contains_nick;
use crate::store::duplicate_nick_message;
use crate::store::ids_strictly_increasing;
use crate::store::nicks_unique;

verus! {

/// The storage-failure text for an exhausted id space.
pub open spec fn id_exhausted_message() -> Seq<char> {
    "visitor id space exhausted"@
}

/// A registration payload: the nick is required and non-empty, the rest is
/// optional metadata.
pub struct RegisterRequest {
    pub nick: String,
    pub group: Option<String>,
    pub email: Option<String>,
    pub extra: Option<String>,
}

/// The characters of a forwarded-for header before its first comma: the
/// first listed value, surrounding spaces still included.
pub open spec fn before_comma(h: Seq<char>) -> Seq<char>
    decreases h.len(),
{
    if h.len() == 0 {
        Seq::empty()
    } else if h[0] == ',' {
        Seq::empty()
    } else {
        seq![h[0]] + before_comma(h.skip(1))
    }
}

/// A sequence of characters without its leading spaces.
pub open spec fn trim_leading_spaces(s: Seq<char>) -> Seq<char>
    decreases s.len(),
{
    if s.len() > 0 && s[0] == ' ' {
        trim_leading_spaces(s.skip(1))
    } else {
        s
    }
}

/// A sequence of characters without its trailing spaces.
pub open spec fn trim_trailing_spaces(s: Seq<char>) -> Seq<char>
    decreases s.len(),
{
    if s.len() > 0 && s[s.len() - 1] == ' ' {
        trim_trailing_spaces(s.drop_last())
    } else {
        s
    }
}

/// The first value of a forwarded-for header: what stands before its first
/// comma, with the spaces around it removed.
pub open spec fn first_forwarded_value(h: Seq<char>) -> Seq<char> {
    trim_trailing_spaces(trim_leading_spaces(before_comma(h)))
}

/// Relies on String::push: appends the one character at the end.
#[verifier::external_body]
fn push_char(s: &mut String, c: char)
    ensures
        final(s)@ == old(s)@.push(c),
{
    s.push(c);
}

/// What stands before the first comma, as a fresh string.
fn take_before_comma(h: &str) -> (out: String)
    ensures
        out@ == before_comma(h@),
{
    let mut out = String::new();
    let mut done = false;
    proof {
        assert(h@.skip(0) =~= h@);
        assert(Seq::<char>::empty() + before_comma(h@) =~= before_comma(h@));
    }
    for c in it: h.chars()
        invariant
            it.seq() == h@,
            !done ==> out@ + before_comma(h@.skip(it.index() as int)) == before_comma(h@),
            done ==> out@ == before_comma(h@),
    {
        let ghost i = it.index() as int;
        let ghost pre = out@;
        if !done {
            if c == ',' {
                proof {
                    assert(h@.skip(i)[0] == c);
                    assert(before_comma(h@.skip(i)) =~= Seq::<char>::empty());
                    assert(pre + Seq::<char>::empty() =~= pre);
                }
                done = true;
            } else {
                push_char(&mut out, c);
                proof {
                    assert(h@.skip(i)[0] == c);
                    assert(h@.skip(i).skip(1) =~= h@.skip(i + 1));
                    assert(pre + seq![c] =~= pre.push(c));
                    assert((pre + seq![c]) + before_comma(h@.skip(i + 1)) =~= pre + (seq![c]
                        + before_comma(h@.skip(i + 1))));
                }
            }
        }
    }
    proof {
        assert(h@.skip(h@.len() as int) =~= Seq::<char>::empty());
        assert(out@ + Seq::<char>::empty() =~= out@);
    }
    out
}

/// The string without its leading spaces.
fn skip_leading_spaces(s: &str) -> (out: String)
    ensures
        out@ == trim_leading_spaces(s@),
{
    let mut out = String::new();
    let mut started = false;
    proof {
        assert(s@.skip(0) =~= s@);
    }
    for c in it: s.chars()
        invariant
            it.seq() == s@,
            !started ==> out@.len() == 0 && trim_leading_spaces(s@) == trim_leading_spaces(
                s@.skip(it.index() as int),
            ),
            started ==> out@ + s@.skip(it.index() as int) == trim_leading_spaces(s@),
    {
        let ghost i = it.index() as int;
        let ghost pre = out@;
        if !started {
            if c == ' ' {
                proof {
                    assert(s@.skip(i)[0] == c);
                    assert(s@.skip(i).skip(1) =~= s@.skip(i + 1));
                }
            } else {
                started = true;
                push_char(&mut out, c);
                proof {
                    assert(s@.skip(i)[0] == c);
                    assert(s@.skip(i).skip(1) =~= s@.skip(i + 1));
                    assert(trim_leading_spaces(s@.skip(i)) == s@.skip(i));
                    assert(s@.skip(i) =~= seq![c] + s@.skip(i + 1));
                    assert(pre.push(c) =~= seq![c]);
                    assert(seq![c] + s@.skip(i + 1) =~= pre.push(c) + s@.skip(i + 1));
                }
            }
        } else {
            push_char(&mut out, c);
            proof {
                assert(s@.skip(i)[0] == c);
                assert(s@.skip(i) =~= seq![c] + s@.skip(i + 1));
                assert(pre + s@.skip(i) =~= pre.push(c) + s@.skip(i + 1));
            }
        }
    }
    proof {
        assert(s@.skip(s@.len() as int) =~= Seq::<char>::empty());
        if !started {
            assert(out@ =~= trim_leading_spaces(s@));
        } else {
            assert(out@ + Seq::<char>::empty() =~= out@);
        }
    }
    out
}

/// Trailing spaces do not survive trimming: a string that does not end in a
/// space, with any run of spaces appended, trims back to itself.
proof fn lemma_trim_trailing_concat_spaces(a: Seq<char>, p: Seq<char>)
    requires
        forall|j: int| 0 <= j < p.len() ==> p[j] == ' ',
        a.len() == 0 || a[a.len() - 1] != ' ',
    ensures
        trim_trailing_spaces(a + p) == a,
    decreases p.len(),
{
    if p.len() == 0 {
        assert(a + p =~= a);
    } else {
        assert((a + p)[(a + p).len() - 1] == p[p.len() - 1]);
        assert((a + p).drop_last() =~= a + p.drop_last());
        lemma_trim_trailing_concat_spaces(a, p.drop_last());
    }
}

/// The string without its trailing spaces.
fn drop_trailing_spaces(s: &str) -> (out: String)
    ensures
        out@ == trim_trailing_spaces(s@),
{
    let mut out = String::new();
    let mut pending = String::new();
    for c in it: s.chars()
        invariant
            it.seq() == s@,
            forall|j: int| 0 <= j < pending@.len() ==> pending@[j] == ' ',
            out@ + pending@ == s@.take(it.index() as int),
            out@.len() == 0 || out@[out@.len() - 1] != ' ',
    {
        let ghost i = it.index() as int;
        let ghost pre_out = out@;
        let ghost pre_pending = pending@;
        if c == ' ' {
            push_char(&mut pending, ' ');
            proof {
                assert(s@.take(i + 1) =~= s@.take(i).push(s@[i]));
                assert(pre_out + pre_pending.push(' ') =~= (pre_out + pre_pending).push(' '));
            }
        } else {
            out.append(pending.as_str());
            push_char(&mut out, c);
            pending = String::new();
            proof {
                assert(s@.take(i + 1) =~= s@.take(i).push(s@[i]));
                assert(out@ + Seq::<char>::empty() =~= out@);
            }
        }
    }
    proof {
        assert(s@.take(s@.len() as int) =~= s@);
        lemma_trim_trailing_concat_spaces(out@, pending@);
    }
    out
}

/// Resolves the client identity for one request: the first value of the
/// forwarded-for header — what stands before its first comma, with the
/// spaces around it removed — when the client sits behind a proxy, else the
/// transport-level peer address.
pub fn resolve_client_ip(forwarded: Option<String>, peer: String) -> (r: String)
    ensures
        r@ == (match forwarded {
            Some(f) => first_forwarded_value(f@),
            None => peer@,
        }),
{
    match forwarded {
        Some(f) => {
            let head = take_before_comma(f.as_str());
            let lead = skip_leading_spaces(head.as_str());
            drop_trailing_spaces(lead.as_str())
        },
        None => peer,
    }
}

/// The service's state: guard, limiter and store.
pub struct Guestbook {
    guard: AdminGuard,
    limiter: RateLimiter,
    store: VisitorStore,
}

impl Guestbook {
    /// The stored rows, in ascending-id order.
    pub closed spec fn rows(&self) -> Seq<Visitor> {
        self.store@
    }

    /// The rate limiter's buckets by client key.
    pub closed spec fn buckets(&self) -> Map<Seq<char>, Bucket> {
        self.limiter@
    }

    /// The rate-limiting policy.
    pub closed spec fn spec_config(&self) -> RateLimiterConfig {
        self.limiter.spec_config()
    }

    /// The admin guard as configured at startup.
    pub closed spec fn spec_guard(&self) -> AdminGuard {
        self.guard
    }

    /// The id the next successful registration will be assigned.
    pub closed spec fn spec_next_id(&self) -> u64 {
        self.store.spec_next_id()
    }

    /// The components' invariants hold.
    pub closed spec fn wf(&self) -> bool {
        &&& self.store.wf()
        &&& self.limiter.wf()
    }

    /// A fresh service: empty store, no buckets, guard selected from the
    /// configured token, rate-limiting policy as configured.
    pub fn new(admin_token: Option<String>, replenish_interval_secs: u64, burst: u64) -> (r:
        Guestbook)
        requires
            replenish_interval_secs >= 1,
        ensures
            r.wf(),
            r.rows() == Seq::<Visitor>::empty(),
            r.buckets() == Map::<Seq<char>, Bucket>::empty(),
            r.spec_config() == (RateLimiterConfig { replenish_interval_secs, burst }),
            r.spec_next_id() == 1,
            r.spec_guard() == (match admin_token {
                Some(t) => AdminGuard::Enabled { token: t },
                None => AdminGuard::Disabled,
            }),
    {
        Guestbook {
            guard: AdminGuard::from_config(admin_token),
            limiter: RateLimiter::new(replenish_interval_secs, burst),
            store: VisitorStore::initialize(),
        }
    }

    /// A service resuming from a restored table: the guard and policy as
    /// configured, and no buckets — limiter state is not persisted across
    /// restarts.
    pub fn from_parts(
        admin_token: Option<String>,
        replenish_interval_secs: u64,
        burst: u64,
        store: VisitorStore,
    ) -> (r: Guestbook)
        requires
            replenish_interval_secs >= 1,
            store.wf(),
        ensures
            r.wf(),
            r.rows() == store@,
            r.spec_next_id() == store.spec_next_id(),
            r.buckets() == Map::<Seq<char>, Bucket>::empty(),
            r.spec_config() == (RateLimiterConfig { replenish_interval_secs, burst }),
            r.spec_guard() == (match admin_token {
                Some(t) => AdminGuard::Enabled { token: t },
                None => AdminGuard::Disabled,
            }),
    {
        Guestbook {
            guard: AdminGuard::from_config(admin_token),
            limiter: RateLimiter::new(replenish_interval_secs, burst),
            store,
        }
    }

    /// One registration attempt by `client` at time `now`.
    ///
    /// The rate limiter is consulted first: a refused client gets
    /// `TooManyRequests` and the store is untouched. An exhausted id space —
    /// the one machine limit — surfaces as a storage failure. Otherwise the
    /// insert either creates exactly one complete row — with the submitted
    /// fields, the resolved client address and the injected current time —
    /// or fails on a duplicate nick with the constraint text and no row
    /// written.
    pub fn register(&mut self, now: u64, client: &String, request: RegisterRequest) -> (r: Result<
        u64,
        Failure,
    >)
        requires
            old(self).wf(),
            request.nick@.len() > 0,
        ensures
            final(self).wf(),
            final(self).spec_guard() == old(self).spec_guard(),
            final(self).spec_config() == old(self).spec_config(),
            final(self).buckets() == (match bucket_after(
                bucket_of(old(self).buckets(), client@),
                now,
                old(self).spec_config(),
            ) {
                Some(b) => old(self).buckets().insert(client@, b),
                None => old(self).buckets(),
            }),
            !allow_decision(bucket_of(old(self).buckets(), client@), now, old(self).spec_config())
                ==> {
                &&& r is Err
                &&& r->Err_0 is TooManyRequests
                &&& final(self).rows() == old(self).rows()
                &&& final(self).spec_next_id() == old(self).spec_next_id()
            },
            allow_decision(bucket_of(old(self).buckets(), client@), now, old(self).spec_config())
                && old(self).spec_next_id() == u64::MAX ==> {
                &&& r matches Err(Failure::Store { message }) && message@
                    == id_exhausted_message()
                &&& final(self).rows() == old(self).rows()
                &&& final(self).spec_next_id() == old(self).spec_next_id()
            },
            allow_decision(bucket_of(old(self).buckets(), client@), now, old(self).spec_config())
                && old(self).spec_next_id() < u64::MAX && contains_nick(
                old(self).rows(),
                request.nick@,
            ) ==> {
                &&& r matches Err(Failure::DuplicateNick { message }) && message@
                    == duplicate_nick_message()
                &&& final(self).rows() == old(self).rows()
                &&& final(self).spec_next_id() == old(self).spec_next_id()
            },
            allow_decision(bucket_of(old(self).buckets(), client@), now, old(self).spec_config())
                && old(self).spec_next_id() < u64::MAX && !contains_nick(
                old(self).rows(),
                request.nick@,
            ) ==> {
                &&& r is Ok
                &&& r->Ok_0 == old(self).spec_next_id()
                &&& final(self).rows() == old(self).rows().push(
                    (Visitor {
                        id: old(self).spec_next_id(),
                        created_at: now,
                        ip: *client,
                        nick: request.nick,
                        group: request.group,
                        email: request.email,
                        extra: request.extra,
                    }),
                )
                &&& final(self).spec_next_id() == old(self).spec_next_id() + 1
            },
    {
        if !self.limiter.allow(client, now) {
            return Err(Failure::TooManyRequests);
        }
        if self.store.next_id_value() == u64::MAX {
            return Err(Failure::Store { message: "visitor id space exhausted".to_owned() });
        }
        match self.store.insert(
            now,
            client.clone(),
            request.nick,
            request.group,
            request.email,
            request.extra,
        ) {
            Ok(id) => Ok(id),
            Err(DuplicateNickError { message }) => Err(Failure::DuplicateNick { message }),
        }
    }

    /// The service's table always shows the store's invariants: ids strictly
    /// ascending (so the admin listing is in ascending-id order and a deleted
    /// id cannot resurface in a later listing) and below the next free id,
    /// and nicks unique.
    pub proof fn lemma_rows_invariant(&self)
        requires
            self.wf(),
        ensures
            ids_strictly_increasing(self.rows()),
            nicks_unique(self.rows()),
            forall|i: int| 0 <= i < self.rows().len() ==> self.rows()[i].id < self.spec_next_id(),
            self.spec_next_id() >= 1,
    {
    }

    /// The full table for the embedding process itself — durable storage
    /// writes back what the store holds. HTTP callers never reach this: the
    /// admin listing behind the credential check is
    /// [`Guestbook::admin_list_visitors`].
    pub fn snapshot(&self) -> (r: &Vec<Visitor>)
        ensures
            r@ == self.rows(),
    {
        self.store.list_all()
    }

    /// The public view: `id`, `nick` and `group` of every row and nothing
    /// else, open to unauthenticated callers.
    pub fn list_visitors(&self) -> (r: Vec<PublicVisitor>)
        ensures
            r@.len() == self.rows().len(),
            forall|i: int|
                0 <= i < self.rows().len() ==> r@[i] == (PublicVisitor {
                    id: self.rows()[i].id,
                    nick: self.rows()[i].nick,
                    group: self.rows()[i].group,
                }),
    {
        self.store.list_public()
    }

    /// The admin view behind the guard: every field of every row in
    /// ascending-id order on a granted credential, the guard's refusal
    /// otherwise.
    pub fn admin_list_visitors(&self, credential: Option<&String>) -> (r: Result<
        &Vec<Visitor>,
        AdminAccess,
    >)
        ensures
            self.spec_guard().spec_check(credential_view(credential)) == AdminAccess::Granted ==> {
                &&& r is Ok
                &&& r->Ok_0@ == self.rows()
            },
            self.spec_guard().spec_check(credential_view(credential)) != AdminAccess::Granted ==> {
                &&& r is Err
                &&& r->Err_0 == self.spec_guard().spec_check(credential_view(credential))
            },
    {
        match self.guard.check(credential) {
            AdminAccess::Granted => Ok(self.store.list_all()),
            denied => Err(denied),
        }
    }

    /// Deletion behind the guard: on a granted credential, removes the row
    /// with the given id if it exists (`Ok(true)`) and reports `Ok(false)`
    /// with the store untouched otherwise; on any other credential the
    /// store is untouched and the guard's refusal is returned.
    pub fn admin_delete_visitor(&mut self, credential: Option<&String>, id: u64) -> (r: Result<
        bool,
        AdminAccess,
    >)
        requires
            old(self).wf(),
        ensures
            final(self).wf(),
            final(self).spec_guard() == old(self).spec_guard(),
            final(self).spec_config() == old(self).spec_config(),
            final(self).buckets() == old(self).buckets(),
            final(self).spec_next_id() == old(self).spec_next_id(),
            old(self).spec_guard().spec_check(credential_view(credential)) != AdminAccess::Granted
                ==> {
                &&& r is Err
                &&& r->Err_0 == old(self).spec_guard().spec_check(credential_view(credential))
                &&& final(self).rows() == old(self).rows()
            },
            old(self).spec_guard().spec_check(credential_view(credential)) == AdminAccess::Granted
                ==> {
                &&& r is Ok
                &&& r->Ok_0 == crate::store::contains_id(old(self).rows(), id)
                &&& r->Ok_0 ==> exists|i: int|
                    0 <= i < old(self).rows().len() && old(self).rows()[i].id == id
                        && final(self).rows() == old(self).rows().remove(i)
                &&& !(r->Ok_0) ==> final(self).rows() == old(self).rows()
            },
    {
        match self.guard.check(credential) {
            AdminAccess::Granted => {
                let removed = self.store.delete_by_id(id);
                proof {
                    if removed {
                        let i = choose|i: int|
                            0 <= i < old(self).rows().len() && old(self).rows()[i].id == id
                                && self.store@ == old(self).store@.remove(i);
                        assert(0 <= i < old(self).rows().len() && old(self).rows()[i].id == id
                            && self.rows() == old(self).rows().remove(i));
                    }
                }
                Ok(removed)
            },
            denied => Err(denied),
        }
    }
}

} // verus!

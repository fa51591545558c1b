//! The visitor store: one record per registration, with the uniqueness
//! constraint on `nick` enforced atomically at insertion.
//!
//! Records are never updated; they are created by the registration pipeline
//! and destroyed only by the admin delete operation. Ids are assigned by the
//! store, starting at 1 and strictly increasing, so the stored order is
//! ascending-id order.

use vstd::prelude::*;

verus! {

/// One guestbook registration record. This is the admin view: every field of
/// the row. Unauthenticated callers only ever see the reduced
/// [`PublicVisitor`] projection.
#[derive(Debug)]
pub struct Visitor {
    pub id: u64,
    pub created_at: u64,
    pub ip: String,
    pub nick: String,
    pub group: Option<String>,
    pub email: Option<String>,
    pub extra: Option<String>,
}

/// The reduced projection of a [`Visitor`] that unauthenticated callers may
/// see: by construction it has no `email`, `extra`, `ip` or `created_at`.
#[derive(Debug)]
pub struct PublicVisitor {
    pub id: u64,
    pub nick: String,
    pub group: Option<String>,
}

/// The store's typed conflict signal: an insert hit the uniqueness constraint
/// on `nick`. Carrying a dedicated type (rather than a string to be matched)
/// keeps the conflict-to-status mapping portable.
#[derive(Debug)]
pub struct DuplicateNickError {
    pub message: String,
}

/// The constraint-violation text that a [`DuplicateNickError`] carries.
pub open spec fn duplicate_nick_message() -> Seq<char> {
    "UNIQUE constraint failed: visitor.nick"@
}

/// Some stored row already holds this nick (case-sensitive exact match).
pub open spec fn contains_nick(rows: Seq<Visitor>, nick: Seq<char>) -> bool {
    exists|i: int| 0 <= i < rows.len() && rows[i].nick@ == nick
}

/// Some stored row has this id.
pub open spec fn contains_id(rows: Seq<Visitor>, id: u64) -> bool {
    exists|i: int| 0 <= i < rows.len() && rows[i].id == id
}

/// Ids appear in strictly ascending order (so they are also distinct).
pub open spec fn ids_strictly_increasing(rows: Seq<Visitor>) -> bool {
    forall|i: int, j: int| 0 <= i < j < rows.len() ==> rows[i].id < rows[j].id
}

/// No two rows share a nick.
pub open spec fn nicks_unique(rows: Seq<Visitor>) -> bool {
    forall|i: int, j: int| 0 <= i < j < rows.len() ==> rows[i].nick@ != rows[j].nick@
}

/// Rows as durable storage must hand them back to be accepted by
/// [`VisitorStore::restore`]: the store's own constraints, with room left to
/// assign the next id.
pub open spec fn restorable(rows: Seq<Visitor>) -> bool {
    &&& ids_strictly_increasing(rows)
    &&& nicks_unique(rows)
    &&& rows.len() > 0 ==> rows[rows.len() - 1].id < u64::MAX
}

/// The visitor table. Its view is the sequence of rows in storage order,
/// which [`VisitorStore::wf`] pins to ascending-id order.
pub struct VisitorStore {
    rows: Vec<Visitor>,
    next_id: u64,
}

impl View for VisitorStore {
    type V = Seq<Visitor>;

    closed spec fn view(&self) -> Seq<Visitor> {
        self.rows@
    }
}

impl VisitorStore {
    /// The id the next successful insert will be assigned.
    pub closed spec fn spec_next_id(&self) -> u64 {
        self.next_id
    }

    /// The store's invariant: rows ordered by ascending id, ids below the
    /// next free id, nick uniqueness, and ids starting from 1.
    pub open spec fn wf(&self) -> bool {
        &&& ids_strictly_increasing(self@)
        &&& nicks_unique(self@)
        &&& forall|i: int| 0 <= i < self@.len() ==> self@[i].id < self.spec_next_id()
        &&& self.spec_next_id() >= 1
    }

    /// A fresh, empty table. Idempotent in the sense of the schema: every
    /// store starts from the same empty state with ids from 1.
    pub fn initialize() -> (r: VisitorStore)
        ensures
            r.wf(),
            r@ == Seq::<Visitor>::empty(),
            r.spec_next_id() == 1,
    {
        VisitorStore { rows: Vec::new(), next_id: 1 }
    }

    /// Rebuilds a table from rows read back from durable storage, accepting
    /// them exactly when they still satisfy the store's constraints; id
    /// assignment continues after the highest restored id.
    pub fn restore(rows: Vec<Visitor>) -> (r: Option<VisitorStore>)
        ensures
            r is Some <==> restorable(rows@),
            r matches Some(s) ==> {
                &&& s.wf()
                &&& s@ == rows@
                &&& s.spec_next_id() == (if rows@.len() == 0 {
                    1u64
                } else {
                    (rows@[rows@.len() - 1].id + 1) as u64
                })
            },
    {
        let n = rows.len();
        let mut i: usize = 1;
        while i < n
            invariant
                n == rows@.len(),
                1 <= i,
                i <= n || n <= 1,
                forall|a: int, b: int| 0 <= a < b < n && b < i ==> rows@[a].id < rows@[b].id,
            decreases n - i,
        {
            if rows[i - 1].id >= rows[i].id {
                assert(!ids_strictly_increasing(rows@)) by {
                    assert(!(rows@[i - 1].id < rows@[i as int].id));
                }
                return None;
            }
            proof {
                assert forall|a: int, b: int|
                    0 <= a < b < n && b < i + 1 implies rows@[a].id < rows@[b].id by {
                    if b == i && a < i - 1 {
                        assert(rows@[a].id < rows@[i - 1].id);
                    }
                }
            }
            i += 1;
        }
        assert(ids_strictly_increasing(rows@));
        let mut i: usize = 0;
        while i < n
            invariant
                n == rows@.len(),
                i <= n,
                forall|a: int, b: int| 0 <= a < b < i ==> rows@[a].nick@ != rows@[b].nick@,
            decreases n - i,
        {
            let mut j: usize = 0;
            while j < i
                invariant
                    n == rows@.len(),
                    j <= i < n,
                    forall|k: int| 0 <= k < j ==> rows@[k].nick@ != rows@[i as int].nick@,
                decreases i - j,
            {
                if rows[j].nick == rows[i].nick {
                    assert(!nicks_unique(rows@)) by {
                        assert(rows@[j as int].nick@ == rows@[i as int].nick@);
                    }
                    return None;
                }
                j += 1;
            }
            i += 1;
        }
        assert(nicks_unique(rows@));
        let next_id: u64 = if n == 0 {
            1
        } else {
            let last = rows[n - 1].id;
            if last == u64::MAX {
                return None;
            }
            last + 1
        };
        let store = VisitorStore { rows, next_id };
        proof {
            assert forall|a: int| 0 <= a < store@.len() implies store@[a].id
                < store.spec_next_id() by {
                if a < store@.len() - 1 {
                    assert(store@[a].id < store@[store@.len() - 1].id);
                }
            }
        }
        Some(store)
    }

    /// Whether some stored row already holds `nick`.
    fn nick_taken(&self, nick: &String) -> (r: bool)
        ensures
            r == contains_nick(self@, nick@),
    {
        let mut i: usize = 0;
        while i < self.rows.len()
            invariant
                i <= self.rows.len(),
                forall|j: int| 0 <= j < i ==> self.rows@[j].nick@ != nick@,
            decreases self.rows.len() - i,
        {
            if self.rows[i].nick == *nick {
                assert(self@[i as int].nick@ == nick@);
                return true;
            }
            i += 1;
        }
        false
    }

    /// Inserts one row, enforcing the uniqueness constraint on `nick` at the
    /// moment of insertion: a duplicate fails atomically with no partial row
    /// written, and any other outcome is a complete row under a fresh id.
    pub fn insert(
        &mut self,
        created_at: u64,
        ip: String,
        nick: String,
        group: Option<String>,
        email: Option<String>,
        extra: Option<String>,
    ) -> (r: Result<u64, DuplicateNickError>)
        requires
            old(self).wf(),
            old(self).spec_next_id() < u64::MAX,
        ensures
            final(self).wf(),
            contains_nick(old(self)@, nick@) ==> {
                &&& r is Err
                &&& r->Err_0.message@ == duplicate_nick_message()
                &&& final(self)@ == old(self)@
                &&& final(self).spec_next_id() == old(self).spec_next_id()
            },
            !contains_nick(old(self)@, nick@) ==> {
                &&& r is Ok
                &&& r->Ok_0 == old(self).spec_next_id()
                &&& final(self)@ == old(self)@.push(
                    (Visitor {
                        id: old(self).spec_next_id(),
                        created_at,
                        ip,
                        nick,
                        group,
                        email,
                        extra,
                    }),
                )
                &&& final(self).spec_next_id() == old(self).spec_next_id() + 1
            },
    {
        if self.nick_taken(&nick) {
            return Err(
                DuplicateNickError { message: "UNIQUE constraint failed: visitor.nick".to_owned() },
            );
        }
        let id = self.next_id;
        self.next_id = self.next_id + 1;
        self.rows.push(Visitor { id, created_at, ip, nick, group, email, extra });
        Ok(id)
    }

    /// The full table in storage order: the admin view, ascending by id.
    pub fn list_all(&self) -> (r: &Vec<Visitor>)
        ensures
            r@ == self@,
    {
        &self.rows
    }

    /// The public projection of the table: `id`, `nick` and `group` of each
    /// row, in storage order, and nothing else.
    pub fn list_public(&self) -> (r: Vec<PublicVisitor>)
        ensures
            r@.len() == self@.len(),
            forall|i: int|
                0 <= i < self@.len() ==> r@[i] == (PublicVisitor {
                    id: self@[i].id,
                    nick: self@[i].nick,
                    group: self@[i].group,
                }),
    {
        let mut out: Vec<PublicVisitor> = Vec::new();
        let mut i: usize = 0;
        while i < self.rows.len()
            invariant
                i <= self.rows.len(),
                out@.len() == i,
                forall|j: int|
                    0 <= j < i ==> out@[j] == (PublicVisitor {
                        id: self@[j].id,
                        nick: self@[j].nick,
                        group: self@[j].group,
                    }),
            decreases self.rows.len() - i,
        {
            let row = &self.rows[i];
            let group = match &row.group {
                Some(g) => Some(g.clone()),
                None => None,
            };
            out.push(PublicVisitor { id: row.id, nick: row.nick.clone(), group });
            i += 1;
        }
        out
    }

    /// Deletes the row with the given id, if any. Returns whether a row was
    /// removed; on `false` the table is untouched.
    pub fn delete_by_id(&mut self, id: u64) -> (r: bool)
        requires
            old(self).wf(),
        ensures
            final(self).wf(),
            final(self).spec_next_id() == old(self).spec_next_id(),
            r == contains_id(old(self)@, id),
            r ==> exists|i: int|
                0 <= i < old(self)@.len() && old(self)@[i].id == id && final(self)@ == old(
                    self,
                )@.remove(i),
            !r ==> final(self)@ == old(self)@,
    {
        let mut i: usize = 0;
        while i < self.rows.len()
            invariant
                *self == *old(self),
                self.wf(),
                i <= self.rows.len(),
                forall|j: int| 0 <= j < i ==> self.rows@[j].id != id,
            decreases self.rows.len() - i,
        {
            if self.rows[i].id == id {
                let ghost pre = self@;
                self.rows.remove(i);
                proof {
                    pre.remove_ensures(i as int);
                    assert(pre[i as int].id == id);
                    assert(self@ == pre.remove(i as int));
                    assert forall|a: int, b: int| 0 <= a < b < self@.len() implies self@[a].id
                        < self@[b].id && self@[a].nick@ != self@[b].nick@ by {
                        let a0: int = if a < i { a } else { a + 1 };
                        let b0: int = if b < i { b } else { b + 1 };
                        assert(pre.remove(i as int)[a] == pre[a0]);
                        assert(pre.remove(i as int)[b] == pre[b0]);
                        assert(a0 < b0);
                    }
                    assert forall|a: int| 0 <= a < self@.len() implies self@[a].id
                        < self.spec_next_id() by {
                        let a0: int = if a < i { a } else { a + 1 };
                        assert(pre.remove(i as int)[a] == pre[a0]);
                    }
                }
                return true;
            }
            i += 1;
        }
        false
    }

    /// The id the next successful insert will be assigned, as a value; the
    /// id space is exhausted when this reaches `u64::MAX`.
    pub fn next_id_value(&self) -> (r: u64)
        ensures
            r == self.spec_next_id(),
    {
        self.next_id
    }

    /// How many rows the table holds.
    pub fn count(&self) -> (r: usize)
        ensures
            r == self@.len(),
    {
        self.rows.len()
    }
}

/// A nick that was just inserted is present afterwards, so by the contract of
/// [`VisitorStore::insert`] a second insert of the same nick fails and leaves
/// the table unchanged.
pub proof fn inserted_nick_present(rows: Seq<Visitor>, v: Visitor)
    ensures
        contains_nick(rows.push(v), v.nick@),
{
    assert(rows.push(v)[rows.len() as int].nick@ == v.nick@);
}

/// A row that was just deleted is absent afterwards: removing the row at `i`
/// leaves no row with its id, because ids are distinct. By the contract of
/// [`VisitorStore::delete_by_id`], a deleted id is gone from every later
/// listing.
pub proof fn deleted_id_absent(rows: Seq<Visitor>, i: int)
    requires
        ids_strictly_increasing(rows),
        0 <= i < rows.len(),
    ensures
        !contains_id(rows.remove(i), rows[i].id),
{
    rows.remove_ensures(i);
    assert forall|j: int| 0 <= j < rows.remove(i).len() implies rows.remove(i)[j].id
        != rows[i].id by {
        if j < i {
            assert(rows.remove(i)[j] == rows[j]);
        } else {
            assert(rows.remove(i)[j] == rows[j + 1]);
        }
    }
}

} // verus!

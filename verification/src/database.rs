//! The storage component: a single-entity user store with verified
//! relational invariants — unique emails, strictly increasing never-reused
//! ids, partial updates — whose failure modes surface as [`AppError`]
//! values with the category each failure mode owes.

use vstd::prelude::*;

use crate::error::{AppError, ErrorCode, ErrorValue};
use crate::errors::validation_failed;

verus! {

/// One persisted user row.
#[derive(Debug)]
pub struct User {
    pub id: u64,
    pub name: String,
    pub email: String,
    pub role: String,
    pub status: String,
}

impl Clone for User {
    fn clone(&self) -> (r: Self)
        ensures
            r == *self,
    {
        User {
            id: self.id,
            name: self.name.clone(),
            email: self.email.clone(),
            role: self.role.clone(),
            status: self.status.clone(),
        }
    }
}

/// Aggregate statistics, recomputed on every request.
#[derive(Debug, Clone, Copy, PartialEq, Eq, Structural)]
pub struct DatabaseStats {
    pub total_users: usize,
    pub created_at: u64,
}

/// Some row holds this email.
pub open spec fn email_taken(s: Seq<User>, email: Seq<char>) -> bool {
    exists|i: int| 0 <= i < s.len() && (#[trigger] s[i]).email@ == email
}

/// Some row holds this id.
pub open spec fn id_present(s: Seq<User>, id: u64) -> bool {
    exists|i: int| 0 <= i < s.len() && (#[trigger] s[i]).id == id
}

/// The index of the row holding this id.
pub open spec fn row_index(s: Seq<User>, id: u64) -> int {
    choose|i: int| 0 <= i < s.len() && (#[trigger] s[i]).id == id
}

/// The first row holding this id, scanning in order.
pub open spec fn lookup(s: Seq<User>, id: u64) -> Option<User>
    decreases s.len(),
{
    if s.len() == 0 {
        None
    } else if s[0].id == id {
        Some(s[0])
    } else {
        lookup(s.subrange(1, s.len() as int), id)
    }
}

/// If the row at `i` holds `id` and no earlier row does, the lookup yields
/// exactly that row.
pub proof fn lemma_lookup_found(s: Seq<User>, id: u64, i: int)
    requires
        0 <= i < s.len(),
        s[i].id == id,
        forall|j: int| 0 <= j < i ==> (#[trigger] s[j]).id != id,
    ensures
        lookup(s, id) == Some(s[i]),
    decreases s.len(),
{
    if i > 0 {
        let t = s.subrange(1, s.len() as int);
        assert(t[i - 1] == s[i]);
        assert(forall|j: int| 0 <= j < i - 1 ==> (#[trigger] t[j]).id != id);
        lemma_lookup_found(t, id, i - 1);
    }
}

/// If no row holds `id`, the lookup yields nothing.
pub proof fn lemma_lookup_none(s: Seq<User>, id: u64)
    requires
        forall|j: int| 0 <= j < s.len() ==> (#[trigger] s[j]).id != id,
    ensures
        lookup(s, id) is None,
    decreases s.len(),
{
    if s.len() > 0 {
        let t = s.subrange(1, s.len() as int);
        assert(forall|j: int| 0 <= j < t.len() ==> (#[trigger] t[j]).id != id);
        lemma_lookup_none(t, id);
    }
}

/// Looking up a freshly appended row — one whose id no earlier row holds —
/// yields exactly that row. Together with the contracts of `insert_user`
/// and `get_user_by_id`, this states that an insert followed by a lookup
/// of the returned id returns a row equal to the inserted fields.
pub proof fn lemma_insert_then_lookup(s: Seq<User>, u: User)
    requires
        forall|j: int| 0 <= j < s.len() ==> (#[trigger] s[j]).id != u.id,
    ensures
        lookup(s.push(u), u.id) == Some(u),
{
    let s2 = s.push(u);
    assert(s2[s.len() as int] == u);
    lemma_lookup_found(s2, u.id, s.len() as int);
}

/// Appending a row makes its email taken. Together with the contract of
/// `insert_user` — which returns the constraint-violation category whenever
/// the email is taken, whatever the other fields hold — this states that a
/// second insert with an already-used email always fails that way.
pub proof fn lemma_inserted_email_taken(s: Seq<User>, u: User)
    ensures
        email_taken(s.push(u), u.email@),
{
    let s2 = s.push(u);
    assert(s2[s.len() as int].email@ == u.email@);
}

/// The storage component. It owns the store contents outright; callers that
/// share it serialize their access outside this crate.
pub struct Database {
    users: Vec<User>,
    next_id: u64,
    initialized: bool,
    created_at: u64,
    path: String,
}

/// Reads the system clock.
///
/// Relies on std::time::SystemTime::now; the chain converts its result to
/// whole seconds since the epoch, zero if the clock sits before the epoch.
/// Nothing is promised of the reading.
#[verifier::external_body]
fn clock_seconds() -> u64 {
    std::time::SystemTime::now()
        .duration_since(std::time::UNIX_EPOCH)
        .map(|d| d.as_secs())
        .unwrap_or(0)
}

impl Database {
    /// The stored rows, ordered by ascending id.
    pub closed spec fn rows(self) -> Seq<User> {
        self.users@
    }

    /// The next id the store will assign.
    pub closed spec fn next_id_spec(self) -> u64 {
        self.next_id
    }

    /// Whether the schema has been initialized.
    pub closed spec fn inited(self) -> bool {
        self.initialized
    }

    /// The creation timestamp reported by the statistics.
    pub closed spec fn created_at_spec(self) -> u64 {
        self.created_at
    }

    /// The configured store location.
    pub closed spec fn path_spec(self) -> Seq<char> {
        self.path@
    }

    /// The relational invariants: ids are positive, strictly increasing in
    /// row order, all below the next id to assign; emails are unique.
    pub open spec fn wf(self) -> bool {
        &&& forall|i: int|
            0 <= i < self.rows().len() ==> 1 <= (#[trigger] self.rows()[i]).id
                < self.next_id_spec()
        &&& forall|i: int, j: int|
            0 <= i < j < self.rows().len() ==> (#[trigger] self.rows()[i]).id
                < (#[trigger] self.rows()[j]).id
        &&& forall|i: int, j: int|
            0 <= i < j < self.rows().len() ==> (#[trigger] self.rows()[i]).email@
                != (#[trigger] self.rows()[j]).email@
        &&& self.next_id_spec() >= 1
        &&& self.created_at_spec() >= 1
    }

    /// Open the store at the given location. In this store the contents
    /// live in memory, so opening cannot fail.
    pub fn new(path: &str) -> (r: Result<Database, AppError>)
        ensures
            r matches Ok(db) && db.wf() && db.rows().len() == 0 && db.next_id_spec() == 1
                && !db.inited() && db.path_spec() == path@,
    {
        let t = clock_seconds();
        let created_at = if t == 0 {
            1
        } else {
            t
        };
        Ok(
            Database {
                users: Vec::new(),
                next_id: 1,
                initialized: false,
                created_at,
                path: path.to_owned(),
            },
        )
    }

    /// Create the required schema if absent; safe to call repeatedly.
    pub fn init(&mut self) -> (r: Result<(), AppError>)
        requires
            old(self).wf(),
        ensures
            r is Ok,
            final(self).wf(),
            final(self).inited(),
            final(self).rows() == old(self).rows(),
            final(self).next_id_spec() == old(self).next_id_spec(),
            final(self).created_at_spec() == old(self).created_at_spec(),
            final(self).path_spec() == old(self).path_spec(),
    {
        self.initialized = true;
        proof {
            assert(self.rows() == old(self).rows());
        }
        Ok(())
    }

    /// Insert a row. Rejects an empty name with the validation-failure
    /// category (field `name`), an already-used email with the
    /// constraint-violation category, and otherwise returns the freshly
    /// assigned id, strictly greater than every previously assigned one.
    #[verifier::loop_isolation(false)]
    pub fn insert_user(&mut self, name: &str, email: &str, role: &str, status: &str) -> (r: Result<
        u64,
        AppError,
    >)
        requires
            old(self).wf(),
            old(self).inited(),
            old(self).next_id_spec() < u64::MAX,
        ensures
            final(self).wf(),
            final(self).inited(),
            final(self).created_at_spec() == old(self).created_at_spec(),
            final(self).path_spec() == old(self).path_spec(),
            name@.len() == 0 ==> {
                &&& r matches Err(e) && e.wf()
                &&& r matches Err(AppError::Validation(v)) && v.code == ErrorCode::ValidationFailed
                    && (v.field matches Some(f) && f@ == "name"@)
                &&& *final(self) == *old(self)
            },
            name@.len() > 0 && email_taken(old(self).rows(), email@) ==> {
                &&& r matches Err(e) && e.wf()
                &&& r matches Err(AppError::Database(v)) && v.code
                    == ErrorCode::DbConstraintViolation
                &&& *final(self) == *old(self)
            },
            name@.len() > 0 && !email_taken(old(self).rows(), email@) ==> {
                &&& r matches Ok(id) && id == old(self).next_id_spec() && id >= 1
                &&& final(self).next_id_spec() == old(self).next_id_spec() + 1
                &&& final(self).rows().len() == old(self).rows().len() + 1
                &&& final(self).rows() == old(self).rows().push(
                    final(self).rows().last(),
                )
                &&& final(self).rows().last().id == old(self).next_id_spec()
                &&& final(self).rows().last().name@ == name@
                &&& final(self).rows().last().email@ == email@
                &&& final(self).rows().last().role@ == role@
                &&& final(self).rows().last().status@ == status@
            },
    {
        if name.is_empty() {
            proof {
                reveal_strlit("name must not be empty");
            }
            return Err(validation_failed("name", "name must not be empty"));
        }
        let e: String = email.to_owned();
        let ghost s = self.users@;
        let n = self.users.len();
        let mut i: usize = 0;
        while i < n
            invariant
                i <= n,
                n == s.len(),
                *self == *old(self),
                s == old(self).rows(),
                e@ == email@,
                forall|j: int| 0 <= j < i ==> (#[trigger] s[j]).email@ != email@,
            decreases n - i,
        {
            if self.users[i].email == e {
                proof {
                    reveal_strlit("email already exists");
                }
                return Err(
                    AppError::Database(
                        ErrorValue::new(ErrorCode::DbConstraintViolation, "email already exists"),
                    ),
                );
            }
            i += 1;
        }
        let id = self.next_id;
        let row = User {
            id,
            name: name.to_owned(),
            email: e,
            role: role.to_owned(),
            status: status.to_owned(),
        };
        self.users.push(row);
        self.next_id = id + 1;
        proof {
            let r2 = self.users@;
            assert(r2 == s.push(r2.last()));
            assert forall|x: int| 0 <= x < r2.len() implies 1 <= (#[trigger] r2[x]).id
                < self.next_id by {
                if x < s.len() {
                    assert(r2[x] == old(self).rows()[x]);
                }
            }
            assert forall|x: int, y: int| 0 <= x < y < r2.len() implies (#[trigger] r2[x]).id
                < (#[trigger] r2[y]).id by {
                if y < s.len() {
                    assert(old(self).rows()[x].id < old(self).rows()[y].id);
                } else {
                    assert(r2[x] == old(self).rows()[x]);
                }
            }
            assert forall|x: int, y: int| 0 <= x < y < r2.len() implies (#[trigger] r2[x]).email@
                != (#[trigger] r2[y]).email@ by {
                if y < s.len() {
                    assert(old(self).rows()[x].email@ != old(self).rows()[y].email@);
                } else {
                    assert(s[x].email@ != email@);
                }
            }
        }
        Ok(id)
    }

    /// All rows, as an ordered sequence by ascending id; empty, never an
    /// error, on an empty store.
    pub fn get_all_users(&self) -> (r: Result<Vec<User>, AppError>)
        requires
            self.wf(),
            self.inited(),
        ensures
            r matches Ok(v) && v@ == self.rows(),
    {
        let v = self.users.clone();
        proof {
            assert(v@ =~= self.users@);
        }
        Ok(v)
    }

    /// The row holding this id, or absent — absence is never an error.
    #[verifier::loop_isolation(false)]
    pub fn get_user_by_id(&self, id: u64) -> (r: Result<Option<User>, AppError>)
        requires
            self.wf(),
            self.inited(),
        ensures
            r matches Ok(o) && o == lookup(self.rows(), id),
    {
        let ghost s = self.users@;
        let n = self.users.len();
        let mut i: usize = 0;
        while i < n
            invariant
                i <= n,
                n == s.len(),
                s == self.rows(),
                forall|j: int| 0 <= j < i ==> (#[trigger] s[j]).id != id,
            decreases n - i,
        {
            if self.users[i].id == id {
                proof {
                    lemma_lookup_found(s, id, i as int);
                }
                return Ok(Some(self.users[i].clone()));
            }
            i += 1;
        }
        proof {
            lemma_lookup_none(s, id);
        }
        Ok(None)
    }

    /// Update the row holding this id, replacing exactly the fields that are
    /// supplied and keeping the rest; reports how many rows were affected.
    /// An absent id affects no rows and is never an error; a supplied email
    /// colliding with a different row is the constraint-violation category.
    #[verifier::loop_isolation(false)]
    pub fn update_user(
        &mut self,
        id: u64,
        name: Option<String>,
        email: Option<String>,
        role: Option<String>,
        status: Option<String>,
    ) -> (r: Result<usize, AppError>)
        requires
            old(self).wf(),
            old(self).inited(),
        ensures
            final(self).wf(),
            final(self).inited(),
            final(self).next_id_spec() == old(self).next_id_spec(),
            final(self).created_at_spec() == old(self).created_at_spec(),
            final(self).path_spec() == old(self).path_spec(),
            !id_present(old(self).rows(), id) ==> {
                &&& r matches Ok(c) && c == 0
                &&& *final(self) == *old(self)
            },
            id_present(old(self).rows(), id) && update_conflict(old(self).rows(), id, email) ==> {
                &&& r matches Err(e) && e.wf()
                &&& r matches Err(AppError::Database(v)) && v.code
                    == ErrorCode::DbConstraintViolation
                &&& *final(self) == *old(self)
            },
            id_present(old(self).rows(), id) && !update_conflict(old(self).rows(), id, email)
                ==> {
                let k = row_index(old(self).rows(), id);
                &&& r matches Ok(c) && c == 1
                &&& final(self).rows().len() == old(self).rows().len()
                &&& forall|j: int|
                    0 <= j < old(self).rows().len() && j != k ==> final(self).rows()[j] == old(
                        self,
                    ).rows()[j]
                &&& final(self).rows()[k].id == id
                &&& final(self).rows()[k].name == (match name {
                    Some(v) => v,
                    None => old(self).rows()[k].name,
                })
                &&& final(self).rows()[k].email == (match email {
                    Some(v) => v,
                    None => old(self).rows()[k].email,
                })
                &&& final(self).rows()[k].role == (match role {
                    Some(v) => v,
                    None => old(self).rows()[k].role,
                })
                &&& final(self).rows()[k].status == (match status {
                    Some(v) => v,
                    None => old(self).rows()[k].status,
                })
            },
    {
        let ghost s = self.users@;
        let n = self.users.len();
        let mut i: usize = 0;
        while i < n
            invariant
                i <= n,
                n == s.len(),
                *self == *old(self),
                s == old(self).rows(),
                forall|j: int| 0 <= j < i ==> (#[trigger] s[j]).id != id,
            decreases n - i,
        {
            if self.users[i].id == id {
                proof {
                    assert(row_index(s, id) == i as int) by {
                        let k = row_index(s, id);
                        if k != i as int {
                            if k < i as int {
                                assert(s[k].id != id);
                            } else {
                                assert(old(self).rows()[i as int].id < old(self).rows()[k].id);
                            }
                        }
                    }
                }
                return self.update_found(i, id, name, email, role, status);
            }
            i += 1;
        }
        proof {
            assert(!id_present(s, id));
        }
        Ok(0)
    }

    /// Apply an update to the row at `i`, which holds `id`.
    #[verifier::loop_isolation(false)]
    fn update_found(
        &mut self,
        i: usize,
        id: u64,
        name: Option<String>,
        email: Option<String>,
        role: Option<String>,
        status: Option<String>,
    ) -> (r: Result<usize, AppError>)
        requires
            old(self).wf(),
            old(self).inited(),
            i < old(self).rows().len(),
            old(self).rows()[i as int].id == id,
        ensures
            final(self).wf(),
            final(self).inited(),
            final(self).next_id_spec() == old(self).next_id_spec(),
            final(self).created_at_spec() == old(self).created_at_spec(),
            final(self).path_spec() == old(self).path_spec(),
            update_conflict(old(self).rows(), id, email) ==> {
                &&& r matches Err(e) && e.wf()
                &&& r matches Err(AppError::Database(v)) && v.code
                    == ErrorCode::DbConstraintViolation
                &&& *final(self) == *old(self)
            },
            !update_conflict(old(self).rows(), id, email) ==> {
                &&& r matches Ok(c) && c == 1
                &&& final(self).rows().len() == old(self).rows().len()
                &&& forall|j: int|
                    0 <= j < old(self).rows().len() && j != i ==> final(self).rows()[j] == old(
                        self,
                    ).rows()[j]
                &&& final(self).rows()[i as int].id == id
                &&& final(self).rows()[i as int].name == (match name {
                    Some(v) => v,
                    None => old(self).rows()[i as int].name,
                })
                &&& final(self).rows()[i as int].email == (match email {
                    Some(v) => v,
                    None => old(self).rows()[i as int].email,
                })
                &&& final(self).rows()[i as int].role == (match role {
                    Some(v) => v,
                    None => old(self).rows()[i as int].role,
                })
                &&& final(self).rows()[i as int].status == (match status {
                    Some(v) => v,
                    None => old(self).rows()[i as int].status,
                })
            },
    {
        let ghost s = self.users@;
        if let Some(e) = &email {
            let n = self.users.len();
            let mut j: usize = 0;
            while j < n
                invariant
                    j <= n,
                    n == s.len(),
                    *self == *old(self),
                    s == old(self).rows(),
                    email matches Some(ev) && ev@ == e@,
                    forall|m: int|
                        0 <= m < j ==> !((#[trigger] s[m]).id != id && s[m].email@ == e@),
                decreases n - j,
            {
                if self.users[j].id != id && self.users[j].email == *e {
                    proof {
                        reveal_strlit("email already exists");
                    }
                    return Err(
                        AppError::Database(
                            ErrorValue::new(
                                ErrorCode::DbConstraintViolation,
                                "email already exists",
                            ),
                        ),
                    );
                }
                j += 1;
            }
        }
        let ghost em: Option<String> = email;
        let old_row = self.users[i].clone();
        let row = User {
            id,
            name: match name {
                Some(v) => v,
                None => old_row.name,
            },
            email: match email {
                Some(v) => v,
                None => old_row.email,
            },
            role: match role {
                Some(v) => v,
                None => old_row.role,
            },
            status: match status {
                Some(v) => v,
                None => old_row.status,
            },
        };
        self.users[i] = row;
        proof {
            let r2 = self.users@;
            assert(r2 == s.update(i as int, r2[i as int]));
            assert forall|x: int| 0 <= x < r2.len() implies (#[trigger] r2[x]).id == old(
                self,
            ).rows()[x].id by {}
            assert forall|x: int| 0 <= x < r2.len() implies 1 <= (#[trigger] r2[x]).id < old(
                self,
            ).next_id_spec() by {
                assert(1 <= old(self).rows()[x].id < old(self).next_id_spec());
            }
            assert forall|x: int, y: int| 0 <= x < y < r2.len() implies (#[trigger] r2[x]).id
                < (#[trigger] r2[y]).id by {
                assert(old(self).rows()[x].id < old(self).rows()[y].id);
            }
            assert forall|x: int, y: int| 0 <= x < y < r2.len() implies (#[trigger] r2[x]).email@
                != (#[trigger] r2[y]).email@ by {
                assert(old(self).rows()[x].id < old(self).rows()[y].id);
                assert(old(self).rows()[x].email@ != old(self).rows()[y].email@);
                match em {
                    Some(ev) => {
                        if x == i as int {
                            assert(!(s[y].id != id && s[y].email@ == ev@));
                        }
                        if y == i as int {
                            assert(!(s[x].id != id && s[x].email@ == ev@));
                        }
                    },
                    None => {},
                }
            }
        }
        Ok(1)
    }

    /// Remove the row holding this id, if present; reports how many rows
    /// were removed. An absent id is never an error.
    #[verifier::loop_isolation(false)]
    pub fn delete_user(&mut self, id: u64) -> (r: Result<usize, AppError>)
        requires
            old(self).wf(),
            old(self).inited(),
        ensures
            final(self).wf(),
            final(self).inited(),
            final(self).next_id_spec() == old(self).next_id_spec(),
            final(self).created_at_spec() == old(self).created_at_spec(),
            final(self).path_spec() == old(self).path_spec(),
            !id_present(old(self).rows(), id) ==> {
                &&& r matches Ok(c) && c == 0
                &&& *final(self) == *old(self)
            },
            id_present(old(self).rows(), id) ==> {
                &&& r matches Ok(c) && c == 1
                &&& final(self).rows() == old(self).rows().remove(
                    row_index(old(self).rows(), id),
                )
            },
            !id_present(final(self).rows(), id),
    {
        let ghost s = self.users@;
        let n = self.users.len();
        let mut i: usize = 0;
        while i < n
            invariant
                i <= n,
                n == s.len(),
                *self == *old(self),
                s == old(self).rows(),
                forall|j: int| 0 <= j < i ==> (#[trigger] s[j]).id != id,
            decreases n - i,
        {
            if self.users[i].id == id {
                self.users.remove(i);
                proof {
                    assert(s[i as int].id == id);
                    assert(row_index(s, id) == i as int) by {
                        let k = row_index(s, id);
                        if k != i as int {
                            if k < i as int {
                                assert(s[k].id != id);
                            } else {
                                assert(old(self).rows()[i as int].id < old(self).rows()[k].id);
                            }
                        }
                    }
                    let r2 = self.users@;
                    assert forall|j: int| 0 <= j < r2.len() implies (#[trigger] r2[j]).id
                        != id by {
                        if j < i as int {
                            assert(r2[j] == s[j]);
                        } else {
                            assert(r2[j] == s[j + 1]);
                            assert(old(self).rows()[i as int].id < old(self).rows()[j + 1].id);
                        }
                    }
                    assert forall|x: int| 0 <= x < r2.len() implies 1 <= (#[trigger] r2[x]).id
                        < self.next_id by {
                        let x0 = if x < i as int {
                            x
                        } else {
                            x + 1
                        };
                        assert(r2[x] == s[x0]);
                        assert(1 <= old(self).rows()[x0].id < old(self).next_id_spec());
                    }
                    assert forall|x: int, y: int| 0 <= x < y < r2.len() implies (
                    #[trigger] r2[x]).id < (#[trigger] r2[y]).id by {
                        let x0 = if x < i as int {
                            x
                        } else {
                            x + 1
                        };
                        let y0 = if y < i as int {
                            y
                        } else {
                            y + 1
                        };
                        assert(r2[x] == s[x0] && r2[y] == s[y0]);
                        assert(old(self).rows()[x0].id < old(self).rows()[y0].id);
                    }
                    assert forall|x: int, y: int| 0 <= x < y < r2.len() implies (
                    #[trigger] r2[x]).email@ != (#[trigger] r2[y]).email@ by {
                        let x0 = if x < i as int {
                            x
                        } else {
                            x + 1
                        };
                        let y0 = if y < i as int {
                            y
                        } else {
                            y + 1
                        };
                        assert(r2[x] == s[x0] && r2[y] == s[y0]);
                        assert(old(self).rows()[x0].email@ != old(self).rows()[y0].email@);
                    }
                }
                return Ok(1);
            }
            i += 1;
        }
        proof {
            assert(!id_present(s, id));
        }
        Ok(0)
    }

    /// Statistics computed from the current contents; never fails, and
    /// reports zero users on an empty store.
    pub fn get_stats(&self) -> (r: DatabaseStats)
        requires
            self.wf(),
            self.inited(),
        ensures
            r.total_users == self.rows().len(),
            r.created_at == self.created_at_spec(),
            r.created_at >= 1,
    {
        DatabaseStats { total_users: self.users.len(), created_at: self.created_at }
    }
}

/// The email of the `k`-th fixture row.
pub open spec fn sample_email(k: int) -> Seq<char> {
    if k == 0 {
        "alice@example.com"@
    } else if k == 1 {
        "bob@example.com"@
    } else {
        "charlie@example.com"@
    }
}

/// The `k`-th fixture row, under the id the store assigned it.
pub open spec fn sample_row(u: User, id: u64, k: int) -> bool {
    &&& u.id == id
    &&& u.email@ == sample_email(k)
    &&& if k == 0 {
        u.name@ == "Alice Johnson"@ && u.role@ == "Admin"@ && u.status@ == "Active"@
    } else if k == 1 {
        u.name@ == "Bob Smith"@ && u.role@ == "User"@ && u.status@ == "Active"@
    } else {
        u.name@ == "Charlie Davis"@ && u.role@ == "User"@ && u.status@ == "Inactive"@
    }
}

/// The fixture names are non-empty and the fixture emails pairwise
/// distinct.
proof fn lemma_sample_fixtures_distinct()
    ensures
        "Alice Johnson"@.len() > 0,
        "Bob Smith"@.len() > 0,
        "Charlie Davis"@.len() > 0,
        sample_email(0) != sample_email(1),
        sample_email(0) != sample_email(2),
        sample_email(1) != sample_email(2),
{
    reveal_strlit("Alice Johnson");
    reveal_strlit("Bob Smith");
    reveal_strlit("Charlie Davis");
    reveal_strlit("alice@example.com");
    reveal_strlit("bob@example.com");
    reveal_strlit("charlie@example.com");
    assert("alice@example.com"@.len() == 17);
    assert("bob@example.com"@.len() == 15);
    assert("charlie@example.com"@.len() == 19);
}

/// Appending a row whose email differs from `e` leaves whether `e` is taken
/// unchanged.
proof fn lemma_email_taken_push(s: Seq<User>, u: User, e: Seq<char>)
    requires
        u.email@ != e,
    ensures
        email_taken(s.push(u), e) <==> email_taken(s, e),
{
    let s2 = s.push(u);
    if email_taken(s2, e) {
        let i = choose|i: int| 0 <= i < s2.len() && (#[trigger] s2[i]).email@ == e;
        assert(i < s.len() && s[i].email@ == e);
    }
    if email_taken(s, e) {
        let i = choose|i: int| 0 <= i < s.len() && (#[trigger] s[i]).email@ == e;
        assert(s2[i].email@ == e);
    }
}

impl Database {
    /// Insert the fixed set of fixture rows, in order, through the same
    /// per-row checks as `insert_user`. Not idempotent: a repeated call
    /// finds the first fixture email already taken, commits nothing further,
    /// and reports the constraint-violation category.
    pub fn insert_sample_data(&mut self) -> (r: Result<(), AppError>)
        requires
            old(self).wf(),
            old(self).inited(),
            old(self).next_id_spec() <= u64::MAX - 3,
        ensures
            final(self).wf(),
            final(self).inited(),
            final(self).created_at_spec() == old(self).created_at_spec(),
            final(self).path_spec() == old(self).path_spec(),
            r is Ok <==> !email_taken(old(self).rows(), sample_email(0)) && !email_taken(
                old(self).rows(),
                sample_email(1),
            ) && !email_taken(old(self).rows(), sample_email(2)),
            r matches Err(e) ==> e.wf() && (e matches AppError::Database(v) && v.code
                == ErrorCode::DbConstraintViolation),
            r is Ok ==> {
                let n = old(self).rows().len() as int;
                &&& final(self).rows().len() == n + 3
                &&& final(self).rows().subrange(0, n) == old(self).rows()
                &&& sample_row(final(self).rows()[n], old(self).next_id_spec(), 0)
                &&& sample_row(final(self).rows()[n + 1], (old(self).next_id_spec() + 1) as u64, 1)
                &&& sample_row(final(self).rows()[n + 2], (old(self).next_id_spec() + 2) as u64, 2)
                &&& final(self).next_id_spec() == old(self).next_id_spec() + 3
            },
            email_taken(old(self).rows(), sample_email(0)) ==> *final(self) == *old(self),
            !email_taken(old(self).rows(), sample_email(0)) && email_taken(
                old(self).rows(),
                sample_email(1),
            ) ==> {
                let n = old(self).rows().len() as int;
                &&& final(self).rows().len() == n + 1
                &&& final(self).rows().subrange(0, n) == old(self).rows()
                &&& sample_row(final(self).rows()[n], old(self).next_id_spec(), 0)
                &&& final(self).next_id_spec() == old(self).next_id_spec() + 1
            },
            !email_taken(old(self).rows(), sample_email(0)) && !email_taken(
                old(self).rows(),
                sample_email(1),
            ) && email_taken(old(self).rows(), sample_email(2)) ==> {
                let n = old(self).rows().len() as int;
                &&& final(self).rows().len() == n + 2
                &&& final(self).rows().subrange(0, n) == old(self).rows()
                &&& sample_row(final(self).rows()[n], old(self).next_id_spec(), 0)
                &&& sample_row(final(self).rows()[n + 1], (old(self).next_id_spec() + 1) as u64, 1)
                &&& final(self).next_id_spec() == old(self).next_id_spec() + 2
            },
    {
        proof {
            lemma_sample_fixtures_distinct();
        }
        let ghost rows0 = self.rows();
        match self.insert_user("Alice Johnson", "alice@example.com", "Admin", "Active") {
            Ok(_) => {},
            Err(e) => {
                proof {
                    lemma_sample_fixtures_distinct();
                }
                return Err(e);
            },
        }
        let ghost rows1 = self.rows();
        proof {
            lemma_sample_fixtures_distinct();
            assert(rows1.last().email@ == sample_email(0));
            lemma_email_taken_push(rows0, rows1.last(), sample_email(1));
            lemma_email_taken_push(rows0, rows1.last(), sample_email(2));
            assert(rows1.subrange(0, rows0.len() as int) =~= rows0);
        }
        match self.insert_user("Bob Smith", "bob@example.com", "User", "Active") {
            Ok(_) => {},
            Err(e) => {
                proof {
                    lemma_sample_fixtures_distinct();
                    assert(self.rows().subrange(0, rows0.len() as int) =~= rows0);
                }
                return Err(e);
            },
        }
        let ghost rows2 = self.rows();
        proof {
            lemma_sample_fixtures_distinct();
            assert(rows2.last().email@ == sample_email(1));
            lemma_email_taken_push(rows1, rows2.last(), sample_email(2));
            assert(rows2.subrange(0, rows0.len() as int) =~= rows0);
        }
        match self.insert_user("Charlie Davis", "charlie@example.com", "User", "Inactive") {
            Ok(_) => {},
            Err(e) => {
                proof {
                    lemma_sample_fixtures_distinct();
                    assert(self.rows().subrange(0, rows0.len() as int) =~= rows0);
                }
                return Err(e);
            },
        }
        proof {
            lemma_sample_fixtures_distinct();
            assert(self.rows().subrange(0, rows0.len() as int) =~= rows0);
        }
        Ok(())
    }
}

/// A supplied replacement email collides with a different existing row.
pub open spec fn update_conflict(s: Seq<User>, id: u64, email: Option<String>) -> bool {
    email matches Some(e) && exists|j: int|
        0 <= j < s.len() && (#[trigger] s[j]).id != id && s[j].email@ == e@
}

} // verus!

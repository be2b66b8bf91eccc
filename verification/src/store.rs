//! A model of the persisted state the core touches: the course rows it
//! reads and the enrollment rows it writes. The uniqueness of
//! enrollment keys — one row per (user, course) pair, whatever the
//! store around it — is this type's invariant; the process around the
//! library keeps the same rows in its relational store.
use vstd::prelude::*;
use crate::price::Price;
use crate::bytestr::str_eq;

verus! {

/// A user row as the login flow reads it.
pub struct UserRecord {
    pub id: String,
    pub password_hash: String,
    pub role: Option<String>,
}

/// A course row: the core reads id, title and price, and bumps the
/// popularity counter.
pub struct CourseRecord {
    pub id: String,
    pub title: String,
    pub price: Price,
    pub students_count: u64,
}

/// An enrollment row, unique on (user id, course id).
pub struct Enrollment {
    pub user_id: String,
    pub course_id: String,
    pub session_id: String,
    pub amount_cents: i64,
    pub currency: String,
}

pub open spec fn course_model(c: CourseRecord) -> (Seq<char>, Seq<char>, Price, u64) {
    (c.id@, c.title@, c.price, c.students_count)
}

pub open spec fn enroll_model(e: Enrollment) -> (Seq<char>, Seq<char>, Seq<char>, i64, Seq<char>) {
    (e.user_id@, e.course_id@, e.session_id@, e.amount_cents, e.currency@)
}

/// Insert an enrollment row unless one with the same (user, course)
/// key exists; redelivery of the same event is then a no-op.
pub open spec fn insert_enroll(
    es: Seq<(Seq<char>, Seq<char>, Seq<char>, i64, Seq<char>)>,
    e: (Seq<char>, Seq<char>, Seq<char>, i64, Seq<char>),
) -> Seq<(Seq<char>, Seq<char>, Seq<char>, i64, Seq<char>)> {
    if exists|i: int| 0 <= i < es.len() && (#[trigger] es[i]).0 == e.0 && es[i].1 == e.1 {
        es
    } else {
        es.push(e)
    }
}

pub struct Store {
    pub courses: Vec<CourseRecord>,
    pub enrollments: Vec<Enrollment>,
}

impl Store {
    pub open spec fn courses_m(self) -> Seq<(Seq<char>, Seq<char>, Price, u64)> {
        self.courses@.map_values(|c: CourseRecord| course_model(c))
    }

    pub open spec fn enrolls_m(self) -> Seq<(Seq<char>, Seq<char>, Seq<char>, i64, Seq<char>)> {
        self.enrollments@.map_values(|e: Enrollment| enroll_model(e))
    }

    pub open spec fn has_enrollment(self, u: Seq<char>, c: Seq<char>) -> bool {
        exists|i: int|
            0 <= i < self.enrolls_m().len() && (#[trigger] self.enrolls_m()[i]).0 == u
                && self.enrolls_m()[i].1 == c
    }

    /// Number of enrollment rows for a (user, course) pair.
    pub open spec fn enroll_count(self, u: Seq<char>, c: Seq<char>) -> nat {
        self.enrolls_m().filter(|t: (Seq<char>, Seq<char>, Seq<char>, i64, Seq<char>)| t.0 == u
            && t.1 == c).len()
    }

    pub open spec fn has_course(self, id: Seq<char>) -> bool {
        exists|i: int| 0 <= i < self.courses_m().len() && (#[trigger] self.courses_m()[i]).0 == id
    }

    /// Course ids unique, enrollment keys unique, prices well-formed.
    pub open spec fn wf(self) -> bool {
        &&& forall|i: int, j: int|
            0 <= i < j < self.courses_m().len() ==> (#[trigger] self.courses_m()[i]).0 != (
            #[trigger] self.courses_m()[j]).0
        &&& forall|i: int, j: int|
            0 <= i < j < self.enrolls_m().len() ==> !((#[trigger] self.enrolls_m()[i]).0 == (
            #[trigger] self.enrolls_m()[j]).0 && self.enrolls_m()[i].1 == self.enrolls_m()[j].1)
        &&& forall|i: int|
            0 <= i < self.courses_m().len() ==> (#[trigger] self.courses_m()[i]).2.wf()
    }

    pub fn new() -> (s: Store)
        ensures
            s.wf(),
            s.courses_m() == Seq::<(Seq<char>, Seq<char>, Price, u64)>::empty(),
            s.enrolls_m() == Seq::<(Seq<char>, Seq<char>, Seq<char>, i64, Seq<char>)>::empty(),
    {
        let s = Store { courses: Vec::new(), enrollments: Vec::new() };
        proof {
            assert(s.courses_m() =~= Seq::<(Seq<char>, Seq<char>, Price, u64)>::empty());
            assert(s.enrolls_m() =~= Seq::<
                (Seq<char>, Seq<char>, Seq<char>, i64, Seq<char>),
            >::empty());
        }
        s
    }

    /// Add a course row; its id must be new.
    pub fn add_course(&mut self, c: CourseRecord)
        requires
            old(self).wf(),
            c.price.wf(),
            !old(self).has_course(c.id@),
        ensures
            final(self).wf(),
            final(self).courses_m() == old(self).courses_m().push(course_model(c)),
            final(self).enrolls_m() == old(self).enrolls_m(),
    {
        proof {
            assert(self.courses@.push(c).map_values(|x: CourseRecord| course_model(x))
                =~= self.courses_m().push(course_model(c)));
        }
        self.courses.push(c);
        proof {
            let m1 = old(self).courses_m();
            let m2 = self.courses_m();
            assert(m2 =~= m1.push(course_model(c)));
            assert forall|i: int, j: int| 0 <= i < j < m2.len() implies (#[trigger] m2[i]).0 != (
            #[trigger] m2[j]).0 by {
                if j < m1.len() {
                    assert(m2[i] == m1[i] && m2[j] == m1[j]);
                } else {
                    assert(m2[j] == course_model(c));
                    assert(m2[i] == m1[i]);
                    if m1[i].0 == c.id@ {
                        assert(old(self).has_course(c.id@));
                    }
                }
            }
            assert forall|i: int| 0 <= i < m2.len() implies (#[trigger] m2[i]).2.wf() by {
                if i < m1.len() {
                    assert(m2[i] == m1[i]);
                } else {
                    assert(m2[i] == course_model(c));
                }
            }
            assert(self.enrolls_m() =~= old(self).enrolls_m());
            assert forall|i: int, j: int|
                0 <= i < j < self.enrolls_m().len() implies !((#[trigger] self.enrolls_m()[i]).0
                == (#[trigger] self.enrolls_m()[j]).0 && self.enrolls_m()[i].1
                == self.enrolls_m()[j].1) by {
                assert(self.enrolls_m()[i] == old(self).enrolls_m()[i]);
                assert(self.enrolls_m()[j] == old(self).enrolls_m()[j]);
            }
        }
    }

    /// Look up a course by id.
    pub fn find_course(&self, id: &str) -> (r: Option<&CourseRecord>)
        ensures
            r is Some <==> self.has_course(id@),
            r matches Some(c) ==> c.id@ == id@ && (exists|i: int|
                0 <= i < self.courses_m().len() && #[trigger] self.courses_m()[i] == course_model(
                    *c,
                )),
    {
        let mut i: usize = 0;
        while i < self.courses.len()
            invariant
                0 <= i <= self.courses@.len(),
                forall|j: int| 0 <= j < i ==> (#[trigger] self.courses_m()[j]).0 != id@,
            decreases self.courses@.len() - i,
        {
            let c = &self.courses[i];
            if str_eq(c.id.as_str(), id) {
                proof {
                    assert(self.courses_m()[i as int] == course_model(*c));
                }
                return Some(c);
            }
            proof {
                assert(self.courses_m()[i as int] == course_model(self.courses@[i as int]));
            }
            i = i + 1;
        }
        None
    }

    /// Insert an enrollment row; a row with the same (user, course) key
    /// makes the insert a no-op, not an error.
    pub fn insert_enrollment(&mut self, e: Enrollment)
        requires
            old(self).wf(),
        ensures
            final(self).wf(),
            final(self).courses_m() == old(self).courses_m(),
            final(self).enrolls_m() == insert_enroll(old(self).enrolls_m(), enroll_model(e)),
    {
        let ghost em = enroll_model(e);
        let mut i: usize = 0;
        while i < self.enrollments.len()
            invariant
                old(self).wf(),
                self.courses@ == old(self).courses@,
                self.enrollments@ == old(self).enrollments@,
                0 <= i <= self.enrollments@.len(),
                forall|j: int|
                    0 <= j < i ==> !((#[trigger] self.enrolls_m()[j]).0 == em.0
                        && self.enrolls_m()[j].1 == em.1),
                em == enroll_model(e),
            decreases self.enrollments@.len() - i,
        {
            let row = &self.enrollments[i];
            proof {
                assert(self.enrolls_m()[i as int] == enroll_model(self.enrollments@[i as int]));
            }
            if str_eq(row.user_id.as_str(), e.user_id.as_str()) && str_eq(
                row.course_id.as_str(),
                e.course_id.as_str(),
            ) {
                proof {
                    assert((self.enrolls_m()[i as int]).0 == em.0 && self.enrolls_m()[i as int].1
                        == em.1);
                    assert(self.enrolls_m() == insert_enroll(old(self).enrolls_m(), em));
                    lemma_wf_transfer(*old(self), *self);
                }
                return ;
            }
            i = i + 1;
        }
        proof {
            assert(self.enrollments@.push(e).map_values(|x: Enrollment| enroll_model(x))
                =~= self.enrolls_m().push(em));
            assert(!(exists|j: int|
                0 <= j < self.enrolls_m().len() && (#[trigger] self.enrolls_m()[j]).0 == em.0
                    && self.enrolls_m()[j].1 == em.1));
        }
        self.enrollments.push(e);
        proof {
            let m1 = old(self).enrolls_m();
            let m2 = self.enrolls_m();
            assert(m2 =~= m1.push(em));
            assert forall|i: int, j: int| 0 <= i < j < m2.len() implies !((#[trigger] m2[i]).0 == (
            #[trigger] m2[j]).0 && m2[i].1 == m2[j].1) by {
                if j < m1.len() {
                    assert(m2[i] == m1[i] && m2[j] == m1[j]);
                } else {
                    assert(m2[j] == em);
                    assert(m2[i] == m1[i]);
                }
            }
            assert(self.courses_m() == old(self).courses_m());
            assert forall|i: int, j: int|
                0 <= i < j < self.courses_m().len() implies (#[trigger] self.courses_m()[i]).0
                != (#[trigger] self.courses_m()[j]).0 by {
                assert(self.courses_m()[i] == old(self).courses_m()[i]);
                assert(self.courses_m()[j] == old(self).courses_m()[j]);
            }
            assert forall|i: int|
                0 <= i < self.courses_m().len() implies (#[trigger] self.courses_m()[i]).2
                .wf() by {
                assert(self.courses_m()[i] == old(self).courses_m()[i]);
            }
        }
    }

    /// Bump the popularity counter of the course with the given id; a
    /// missing id changes nothing, and the counter saturates rather
    /// than wrapping.
    pub fn bump_students(&mut self, course_id: &str)
        requires
            old(self).wf(),
        ensures
            final(self).wf(),
            final(self).enrolls_m() == old(self).enrolls_m(),
            final(self).courses_m().len() == old(self).courses_m().len(),
            forall|i: int|
                0 <= i < old(self).courses_m().len() && (#[trigger] old(self).courses_m()[i]).0
                    != course_id@ ==> final(self).courses_m()[i] == old(self).courses_m()[i],
            forall|i: int|
                0 <= i < old(self).courses_m().len() && (#[trigger] old(self).courses_m()[i]).0
                    == course_id@ ==> final(self).courses_m()[i] == ((
                old(self).courses_m()[i].0,
                old(self).courses_m()[i].1,
                old(self).courses_m()[i].2,
                (if old(self).courses_m()[i].3 < u64::MAX {
                    (old(self).courses_m()[i].3 + 1) as u64
                } else {
                    u64::MAX
                }),
            )),
    {
        let n = self.courses.len();
        let mut i: usize = 0;
        while i < n
            invariant
                0 <= i <= n == self.courses@.len(),
                old(self).courses_m().len() == n,
                self.enrollments == old(self).enrollments,
                forall|j: int|
                    0 <= j < n && !(0 <= j < i && (#[trigger] old(self).courses_m()[j]).0
                        == course_id@) ==> self.courses_m()[j] == old(self).courses_m()[j],
                forall|j: int|
                    0 <= j < i && (#[trigger] old(self).courses_m()[j]).0 == course_id@
                        ==> self.courses_m()[j] == ((
                        old(self).courses_m()[j].0,
                        old(self).courses_m()[j].1,
                        old(self).courses_m()[j].2,
                        (if old(self).courses_m()[j].3 < u64::MAX {
                            (old(self).courses_m()[j].3 + 1) as u64
                        } else {
                            u64::MAX
                        }),
                    )),
            decreases n - i,
        {
            proof {
                assert(self.courses_m()[i as int] == course_model(self.courses@[i as int]));
            }
            let hit = str_eq(self.courses[i].id.as_str(), course_id);
            if hit {
                let cur = self.courses[i].students_count;
                let bumped: u64 = if cur < u64::MAX {
                    cur + 1
                } else {
                    u64::MAX
                };
                let old_row = &self.courses[i];
                let row = CourseRecord {
                    id: old_row.id.clone(),
                    title: old_row.title.clone(),
                    price: old_row.price,
                    students_count: bumped,
                };
                proof {
                    assert(row.id@ == self.courses@[i as int].id@);
                    assert(row.title@ == self.courses@[i as int].title@);
                }
                self.courses.set(i, row);
                proof {
                    assert forall|j: int| 0 <= j < n implies #[trigger] self.courses_m()[j]
                        == course_model(self.courses@[j]) by {}
                }
            }
            i = i + 1;
        }
        proof {
            assert(self.enrolls_m() == old(self).enrolls_m());
            let m1 = old(self).courses_m();
            let m2 = self.courses_m();
            assert forall|i: int, j: int| 0 <= i < j < m2.len() implies (#[trigger] m2[i]).0 != (
            #[trigger] m2[j]).0 by {
                assert(m2[i].0 == m1[i].0 && m2[j].0 == m1[j].0);
            }
            assert forall|i: int| 0 <= i < m2.len() implies (#[trigger] m2[i]).2.wf() by {
                assert(m2[i].2 == m1[i].2);
            }
        }
    }
}

/// Well-formedness carries over between stores with equal models.
pub proof fn lemma_wf_transfer(s1: Store, s2: Store)
    requires
        s1.wf(),
        s2.courses_m() == s1.courses_m(),
        s2.enrolls_m() == s1.enrolls_m(),
    ensures
        s2.wf(),
{
    assert forall|i: int, j: int|
        0 <= i < j < s2.courses_m().len() implies (#[trigger] s2.courses_m()[i]).0 != (
    #[trigger] s2.courses_m()[j]).0 by {
        assert(s2.courses_m()[i] == s1.courses_m()[i]);
        assert(s2.courses_m()[j] == s1.courses_m()[j]);
    }
    assert forall|i: int, j: int|
        0 <= i < j < s2.enrolls_m().len() implies !((#[trigger] s2.enrolls_m()[i]).0 == (
    #[trigger] s2.enrolls_m()[j]).0 && s2.enrolls_m()[i].1 == s2.enrolls_m()[j].1) by {
        assert(s2.enrolls_m()[i] == s1.enrolls_m()[i]);
        assert(s2.enrolls_m()[j] == s1.enrolls_m()[j]);
    }
    assert forall|i: int| 0 <= i < s2.courses_m().len() implies (#[trigger] s2.courses_m()[i]).2
        .wf() by {
        assert(s2.courses_m()[i] == s1.courses_m()[i]);
    }
}

/// Re-delivering the same completion event cannot add a second row:
/// inserting the same enrollment twice equals inserting it once, and a
/// pair absent beforehand has exactly one row afterwards.
pub proof fn lemma_enroll_idempotent(
    es: Seq<(Seq<char>, Seq<char>, Seq<char>, i64, Seq<char>)>,
    e: (Seq<char>, Seq<char>, Seq<char>, i64, Seq<char>),
)
    ensures
        insert_enroll(insert_enroll(es, e), e) == insert_enroll(es, e),
        count_key(es, e.0, e.1) == 0 ==> count_key(insert_enroll(insert_enroll(es, e), e), e.0, e.1)
            == 1,
{
    let once = insert_enroll(es, e);
    if exists|i: int| 0 <= i < es.len() && (#[trigger] es[i]).0 == e.0 && es[i].1 == e.1 {
        assert(once == es);
    } else {
        assert(once == es.push(e));
        assert(once[es.len() as int] == e);
        assert(insert_enroll(once, e) == once);
    }
    if count_key(es, e.0, e.1) == 0 {
        let pred = |t: (Seq<char>, Seq<char>, Seq<char>, i64, Seq<char>)| t.0 == e.0 && t.1 == e.1;
        lemma_count_key_zero_no_match(es, e.0, e.1);
        assert(!(exists|i: int| 0 <= i < es.len() && (#[trigger] es[i]).0 == e.0 && es[i].1
            == e.1));
        assert(once == es.push(e));
        reveal(Seq::filter);
        assert(es.push(e).drop_last() =~= es);
        assert(once.filter(pred) == es.filter(pred).push(e));
    }
}

/// Rows with a (user, course) key.
pub open spec fn count_key(
    es: Seq<(Seq<char>, Seq<char>, Seq<char>, i64, Seq<char>)>,
    u: Seq<char>,
    c: Seq<char>,
) -> nat {
    es.filter(|t: (Seq<char>, Seq<char>, Seq<char>, i64, Seq<char>)| t.0 == u && t.1 == c).len()
}

/// A pair with no matching row has count zero.
proof fn lemma_no_match_count_zero(
    es: Seq<(Seq<char>, Seq<char>, Seq<char>, i64, Seq<char>)>,
    u: Seq<char>,
    c: Seq<char>,
)
    requires
        forall|i: int| 0 <= i < es.len() ==> !((#[trigger] es[i]).0 == u && es[i].1 == c),
    ensures
        count_key(es, u, c) == 0,
    decreases es.len(),
{
    reveal(Seq::filter);
    if es.len() > 0 {
        assert forall|i: int|
            0 <= i < es.drop_last().len() implies !((#[trigger] es.drop_last()[i]).0 == u
            && es.drop_last()[i].1 == c) by {
            assert(es.drop_last()[i] == es[i]);
        }
        lemma_no_match_count_zero(es.drop_last(), u, c);
        assert(es.last() == es[es.len() - 1]);
    }
}

/// In a table whose (user, course) keys are pairwise distinct, a pair
/// that is enrolled at all has exactly one row: the "exactly once"
/// half of the idempotence story, tied to the store's invariant.
pub proof fn lemma_unique_key_count(
    es: Seq<(Seq<char>, Seq<char>, Seq<char>, i64, Seq<char>)>,
    u: Seq<char>,
    c: Seq<char>,
)
    requires
        forall|i: int, j: int|
            0 <= i < j < es.len() ==> !((#[trigger] es[i]).0 == (#[trigger] es[j]).0 && es[i].1
                == es[j].1),
        exists|i: int| 0 <= i < es.len() && (#[trigger] es[i]).0 == u && es[i].1 == c,
    ensures
        count_key(es, u, c) == 1,
    decreases es.len(),
{
    reveal(Seq::filter);
    let w = choose|i: int| 0 <= i < es.len() && (#[trigger] es[i]).0 == u && es[i].1 == c;
    assert(es.last() == es[es.len() - 1]);
    if w == es.len() - 1 {
        assert forall|i: int|
            0 <= i < es.drop_last().len() implies !((#[trigger] es.drop_last()[i]).0 == u
            && es.drop_last()[i].1 == c) by {
            assert(es.drop_last()[i] == es[i]);
            if es[i].0 == u && es[i].1 == c {
                assert(!((es[i]).0 == (es[w]).0 && es[i].1 == es[w].1));
            }
        }
        lemma_no_match_count_zero(es.drop_last(), u, c);
    } else {
        assert(!((es[w]).0 == (es[es.len() - 1]).0 && es[w].1 == es[es.len() - 1].1));
        assert forall|i: int, j: int|
            0 <= i < j < es.drop_last().len() implies !((#[trigger] es.drop_last()[i]).0 == (
        #[trigger] es.drop_last()[j]).0 && es.drop_last()[i].1 == es.drop_last()[j].1) by {
            assert(es.drop_last()[i] == es[i]);
            assert(es.drop_last()[j] == es[j]);
        }
        assert(es.drop_last()[w] == es[w]);
        lemma_unique_key_count(es.drop_last(), u, c);
    }
}

/// A well-formed store that has an enrollment for a pair has exactly
/// one row for it.
pub proof fn lemma_store_one_row(s: Store, u: Seq<char>, c: Seq<char>)
    requires
        s.wf(),
        s.has_enrollment(u, c),
    ensures
        s.enroll_count(u, c) == 1,
{
    lemma_unique_key_count(s.enrolls_m(), u, c);
}

proof fn lemma_count_key_zero_no_match(
    es: Seq<(Seq<char>, Seq<char>, Seq<char>, i64, Seq<char>)>,
    u: Seq<char>,
    c: Seq<char>,
)
    requires
        count_key(es, u, c) == 0,
    ensures
        forall|i: int| 0 <= i < es.len() ==> !((#[trigger] es[i]).0 == u && es[i].1 == c),
    decreases es.len(),
{
    reveal(Seq::filter);
    if es.len() > 0 {
        let pred = |t: (Seq<char>, Seq<char>, Seq<char>, i64, Seq<char>)| t.0 == u && t.1 == c;
        assert(es.filter(pred).len() >= es.drop_last().filter(pred).len());
        lemma_count_key_zero_no_match(es.drop_last(), u, c);
        assert forall|i: int| 0 <= i < es.len() implies !((#[trigger] es[i]).0 == u && es[i].1
            == c) by {
            if i < es.len() - 1 {
                assert(es[i] == es.drop_last()[i]);
            } else {
                if pred(es.last()) {
                    assert(es.filter(pred).len() > 0);
                }
            }
        }
    }
}

} // verus!

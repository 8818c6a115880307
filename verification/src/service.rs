//! Decisions of the LAN realtime entry service: listing classes for the
//! active academic year, reading a class's roster, and the all-or-nothing
//! grade batch upsert. The HTTP plumbing around these lives outside the
//! library; every function here is a pure state transition or query on the
//! entity store.

use vstd::prelude::*;
use crate::model::{Class, Grade, Store, Student, Subject, MAX_LOCAL_ID, ids_below, student_of_class, wf_store};
use crate::store::{Row, has_id, rows_ts_ok, ts_ok, unique_ids};

verus! {

/// A class as listed to LAN clients.
pub struct ClassResponse {
    pub id: i64,
    pub name: String,
    pub level: String,
    pub option: String,
    pub section: String,
}

/// A student as listed in a class roster.
pub struct StudentResponse {
    pub id: i64,
    pub first_name: String,
    pub last_name: String,
    pub post_name: String,
}

/// A subject as listed in a class roster, with per-period maxima.
pub struct SubjectResponse {
    pub id: i64,
    pub name: String,
    pub code: String,
    pub max_p1: i64,
    pub max_p2: i64,
    pub max_exam1: i64,
    pub max_p3: i64,
    pub max_p4: i64,
    pub max_exam2: i64,
}

/// A grade as listed in a class roster; the value is the store's opaque
/// 64-bit encoding.
pub struct GradeResponse {
    pub student_id: i64,
    pub subject_id: i64,
    pub period: String,
    pub value: u64,
}

/// A class's full roster: students, subjects, and grades.
pub struct ClassFullResponse {
    pub students: Vec<StudentResponse>,
    pub subjects: Vec<SubjectResponse>,
    pub grades: Vec<GradeResponse>,
}

/// One grade mutation of a batch, keyed by (student, subject, period).
pub struct GradeUpdate {
    pub student_id: i64,
    pub subject_id: i64,
    pub period: String,
    pub value: u64,
}

/// A batch of grade mutations, tagged with the sender that originated it so
/// listeners can deduplicate their own writes.
pub struct BatchGradeRequest {
    pub updates: Vec<GradeUpdate>,
    pub sender_id: Option<String>,
}

/// Why a batch was rejected: a mutation violated a constraint (a reference
/// to a student or subject that does not exist).
#[derive(Clone, Copy, PartialEq, Eq, Structural, Debug)]
pub enum ServiceError {
    Constraint,
}

/// The identifier of the first academic year marked active, if any.
pub open spec fn first_active_year(rows: Seq<Row<crate::model::AcademicYear>>) -> Option<i64>
    decreases rows.len(),
{
    if rows.len() == 0 {
        None
    } else if rows[0].data.is_active {
        Some(rows[0].local_id)
    } else {
        first_active_year(rows.drop_first())
    }
}

/// Whether a class falls under the selection: under `None` every class does;
/// under an active year only that year's classes do.
pub open spec fn class_selected(sel: Option<i64>, r: Row<Class>) -> bool {
    match sel {
        None => true,
        Some(y) => r.data.academic_year_id == y,
    }
}

/// The classes that fall under the selection, in table order.
pub open spec fn spec_class_list(rows: Seq<Row<Class>>, sel: Option<i64>) -> Seq<Row<Class>>
    decreases rows.len(),
{
    if rows.len() == 0 {
        Seq::empty()
    } else {
        let p = spec_class_list(rows.drop_last(), sel);
        if class_selected(sel, rows.last()) {
            p.push(rows.last())
        } else {
            p
        }
    }
}

/// A listed class mirrors a stored class row.
pub open spec fn class_resp_matches(c: ClassResponse, r: Row<Class>) -> bool {
    &&& c.id == r.local_id
    &&& c.name == r.data.name
    &&& c.level == r.data.level
    &&& c.option == r.data.option
    &&& c.section == r.data.section
}

fn find_active_year(rows: &Vec<Row<crate::model::AcademicYear>>) -> (r: Option<i64>)
    ensures
        r == first_active_year(rows@),
{
    let mut i: usize = 0;
    proof {
        assert(rows@.skip(0) =~= rows@);
    }
    while i < rows.len()
        invariant
            i <= rows@.len(),
            first_active_year(rows@) == first_active_year(rows@.skip(i as int)),
        decreases rows@.len() - i,
    {
        proof {
            assert(rows@.skip(i as int)[0] == rows@[i as int]);
            assert(rows@.skip(i as int).drop_first() =~= rows@.skip(i + 1));
        }
        if rows[i].data.is_active {
            return Some(rows[i].local_id);
        }
        i = i + 1;
    }
    proof {
        assert(rows@.skip(rows@.len() as int).len() == 0);
    }
    None
}

/// Lists classes for LAN clients: when an academic year is marked active,
/// only that year's classes; when none is, every class.
pub fn list_classes(store: &Store) -> (r: Vec<ClassResponse>)
    ensures
        ({
            let sel = first_active_year(store.academic_years@);
            &&& r@.len() == spec_class_list(store.classes@, sel).len()
            &&& forall|k: int|
                0 <= k < r@.len() ==> class_resp_matches(
                    #[trigger] r@[k],
                    spec_class_list(store.classes@, sel)[k],
                )
        }),
{
    let sel = find_active_year(&store.academic_years);
    let rows = &store.classes;
    let mut out: Vec<ClassResponse> = Vec::new();
    let mut i: usize = 0;
    while i < rows.len()
        invariant
            i <= rows@.len(),
            out@.len() == spec_class_list(rows@.take(i as int), sel).len(),
            forall|k: int|
                0 <= k < out@.len() ==> class_resp_matches(
                    #[trigger] out@[k],
                    spec_class_list(rows@.take(i as int), sel)[k],
                ),
        decreases rows@.len() - i,
    {
        proof {
            assert(rows@.take(i + 1).drop_last() =~= rows@.take(i as int));
            assert(rows@.take(i + 1).last() == rows@[i as int]);
        }
        let row = &rows[i];
        let keep = match sel {
            Some(y) => row.data.academic_year_id == y,
            None => true,
        };
        if keep {
            out.push(
                ClassResponse {
                    id: row.local_id,
                    name: row.data.name.clone(),
                    level: row.data.level.clone(),
                    option: row.data.option.clone(),
                    section: row.data.section.clone(),
                },
            );
        }
        i = i + 1;
    }
    proof {
        assert(rows@.take(rows@.len() as int) =~= rows@);
    }
    out
}

/// Whether a student belongs to the class's visible roster (enrolled there
/// and not marked abandoned).
pub open spec fn student_in_class(r: Row<Student>, class_id: i64) -> bool {
    r.data.class_id == class_id && !r.data.is_abandoned
}

/// The visible students of a class, in table order.
pub open spec fn spec_class_students(rows: Seq<Row<Student>>, class_id: i64) -> Seq<Row<Student>>
    decreases rows.len(),
{
    if rows.len() == 0 {
        Seq::empty()
    } else {
        let p = spec_class_students(rows.drop_last(), class_id);
        if student_in_class(rows.last(), class_id) {
            p.push(rows.last())
        } else {
            p
        }
    }
}

/// The subjects of a class, in table order.
pub open spec fn spec_class_subjects(rows: Seq<Row<Subject>>, class_id: i64) -> Seq<Row<Subject>>
    decreases rows.len(),
{
    if rows.len() == 0 {
        Seq::empty()
    } else {
        let p = spec_class_subjects(rows.drop_last(), class_id);
        if rows.last().data.class_id == class_id {
            p.push(rows.last())
        } else {
            p
        }
    }
}

/// Whether a grade belongs to the class: its student is enrolled there
/// (abandoned or not).
pub open spec fn grade_in_class(
    students: Seq<Row<Student>>,
    g: Row<Grade>,
    class_id: i64,
) -> bool {
    student_of_class(students, g.data.student_id, class_id)
}

/// The grades of a class, in table order.
pub open spec fn spec_class_grades(
    students: Seq<Row<Student>>,
    rows: Seq<Row<Grade>>,
    class_id: i64,
) -> Seq<Row<Grade>>
    decreases rows.len(),
{
    if rows.len() == 0 {
        Seq::empty()
    } else {
        let p = spec_class_grades(students, rows.drop_last(), class_id);
        if grade_in_class(students, rows.last(), class_id) {
            p.push(rows.last())
        } else {
            p
        }
    }
}

/// A roster student mirrors a stored student row.
pub open spec fn student_resp_matches(s: StudentResponse, r: Row<Student>) -> bool {
    &&& s.id == r.local_id
    &&& s.first_name == r.data.first_name
    &&& s.last_name == r.data.last_name
    &&& s.post_name == r.data.post_name
}

/// A roster subject mirrors a stored subject row.
pub open spec fn subject_resp_matches(s: SubjectResponse, r: Row<Subject>) -> bool {
    &&& s.id == r.local_id
    &&& s.name == r.data.name
    &&& s.code == r.data.code
    &&& s.max_p1 == r.data.max_p1
    &&& s.max_p2 == r.data.max_p2
    &&& s.max_exam1 == r.data.max_exam1
    &&& s.max_p3 == r.data.max_p3
    &&& s.max_p4 == r.data.max_p4
    &&& s.max_exam2 == r.data.max_exam2
}

/// A roster grade mirrors a stored grade row.
pub open spec fn grade_resp_matches(g: GradeResponse, r: Row<Grade>) -> bool {
    &&& g.student_id == r.data.student_id
    &&& g.subject_id == r.data.subject_id
    &&& g.period == r.data.period
    &&& g.value == r.data.value
}

/// Reads a class's full roster: its visible students, its subjects, and the
/// grades of every student enrolled in it, each in table order.
pub fn class_full(store: &Store, class_id: i64) -> (r: ClassFullResponse)
    requires
        wf_store(*store),
    ensures
        r.students@.len() == spec_class_students(store.students@, class_id).len(),
        forall|k: int|
            0 <= k < r.students@.len() ==> student_resp_matches(
                #[trigger] r.students@[k],
                spec_class_students(store.students@, class_id)[k],
            ),
        r.subjects@.len() == spec_class_subjects(store.subjects@, class_id).len(),
        forall|k: int|
            0 <= k < r.subjects@.len() ==> subject_resp_matches(
                #[trigger] r.subjects@[k],
                spec_class_subjects(store.subjects@, class_id)[k],
            ),
        r.grades@.len() == spec_class_grades(store.students@, store.grades@, class_id).len(),
        forall|k: int|
            0 <= k < r.grades@.len() ==> grade_resp_matches(
                #[trigger] r.grades@[k],
                spec_class_grades(store.students@, store.grades@, class_id)[k],
            ),
{
    let mut students: Vec<StudentResponse> = Vec::new();
    let srows = &store.students;
    let mut i: usize = 0;
    while i < srows.len()
        invariant
            i <= srows@.len(),
            students@.len() == spec_class_students(srows@.take(i as int), class_id).len(),
            forall|k: int|
                0 <= k < students@.len() ==> student_resp_matches(
                    #[trigger] students@[k],
                    spec_class_students(srows@.take(i as int), class_id)[k],
                ),
        decreases srows@.len() - i,
    {
        proof {
            assert(srows@.take(i + 1).drop_last() =~= srows@.take(i as int));
            assert(srows@.take(i + 1).last() == srows@[i as int]);
        }
        let row = &srows[i];
        if row.data.class_id == class_id && !row.data.is_abandoned {
            students.push(
                StudentResponse {
                    id: row.local_id,
                    first_name: row.data.first_name.clone(),
                    last_name: row.data.last_name.clone(),
                    post_name: row.data.post_name.clone(),
                },
            );
        }
        i = i + 1;
    }
    proof {
        assert(srows@.take(srows@.len() as int) =~= srows@);
    }
    let mut subjects: Vec<SubjectResponse> = Vec::new();
    let urows = &store.subjects;
    let mut i: usize = 0;
    while i < urows.len()
        invariant
            i <= urows@.len(),
            subjects@.len() == spec_class_subjects(urows@.take(i as int), class_id).len(),
            forall|k: int|
                0 <= k < subjects@.len() ==> subject_resp_matches(
                    #[trigger] subjects@[k],
                    spec_class_subjects(urows@.take(i as int), class_id)[k],
                ),
        decreases urows@.len() - i,
    {
        proof {
            assert(urows@.take(i + 1).drop_last() =~= urows@.take(i as int));
            assert(urows@.take(i + 1).last() == urows@[i as int]);
        }
        let row = &urows[i];
        if row.data.class_id == class_id {
            subjects.push(
                SubjectResponse {
                    id: row.local_id,
                    name: row.data.name.clone(),
                    code: row.data.code.clone(),
                    max_p1: row.data.max_p1,
                    max_p2: row.data.max_p2,
                    max_exam1: row.data.max_exam1,
                    max_p3: row.data.max_p3,
                    max_p4: row.data.max_p4,
                    max_exam2: row.data.max_exam2,
                },
            );
        }
        i = i + 1;
    }
    proof {
        assert(urows@.take(urows@.len() as int) =~= urows@);
    }
    let mut grades: Vec<GradeResponse> = Vec::new();
    let grows = &store.grades;
    let mut i: usize = 0;
    while i < grows.len()
        invariant
            i <= grows@.len(),
            unique_ids(store.students@),
            grades@.len() == spec_class_grades(
                store.students@,
                grows@.take(i as int),
                class_id,
            ).len(),
            forall|k: int|
                0 <= k < grades@.len() ==> grade_resp_matches(
                    #[trigger] grades@[k],
                    spec_class_grades(store.students@, grows@.take(i as int), class_id)[k],
                ),
        decreases grows@.len() - i,
    {
        proof {
            assert(grows@.take(i + 1).drop_last() =~= grows@.take(i as int));
            assert(grows@.take(i + 1).last() == grows@[i as int]);
        }
        let row = &grows[i];
        let keep = crate::model::student_in(&store.students, row.data.student_id, class_id);
        proof {
            assert(keep == grade_in_class(store.students@, grows@[i as int], class_id));
        }
        if keep {
            grades.push(
                GradeResponse {
                    student_id: row.data.student_id,
                    subject_id: row.data.subject_id,
                    period: row.data.period.clone(),
                    value: row.data.value,
                },
            );
        }
        i = i + 1;
    }
    proof {
        assert(grows@.take(grows@.len() as int) =~= grows@);
    }
    ClassFullResponse { students, subjects, grades }
}

/// Whether two grade rows carry the same (student, subject, period) key.
pub open spec fn same_grade_key(a: Row<Grade>, b: Row<Grade>) -> bool {
    a.data.student_id == b.data.student_id && a.data.subject_id == b.data.subject_id
        && a.data.period@ == b.data.period@
}

/// Whether a grade row carries the given key.
pub open spec fn grade_key_matches(
    r: Row<Grade>,
    student_id: i64,
    subject_id: i64,
    period: Seq<char>,
) -> bool {
    r.data.student_id == student_id && r.data.subject_id == subject_id && r.data.period@ == period
}

/// Whether some grade row carries the given key.
pub open spec fn has_grade_key(
    rows: Seq<Row<Grade>>,
    student_id: i64,
    subject_id: i64,
    period: Seq<char>,
) -> bool {
    exists|i: int|
        0 <= i < rows.len() && grade_key_matches(#[trigger] rows[i], student_id, subject_id, period)
}

/// No two grade rows carry the same key: the store's uniqueness constraint
/// on grades.
pub open spec fn unique_grade_keys(rows: Seq<Row<Grade>>) -> bool {
    forall|i: int, j: int|
        0 <= i < j < rows.len() ==> !same_grade_key(#[trigger] rows[i], #[trigger] rows[j])
}

/// A grade row after an in-place upsert hit: the value overwritten, the row
/// dirty, the modification timestamp refreshed; key and identifiers kept.
pub open spec fn grade_updated_row(r: Row<Grade>, value: u64, now: i64) -> Row<Grade> {
    Row { is_dirty: true, last_modified_at: now, data: Grade { value, ..r.data }, ..r }
}

/// The grade row an upsert miss inserts: a fresh local identifier, no remote
/// identifier yet, dirty from birth.
pub open spec fn grade_new_row(u: GradeUpdate, now: i64, fresh: i64) -> Row<Grade> {
    Row {
        local_id: fresh,
        server_id: None,
        is_dirty: true,
        updated_at: 0,
        last_modified_at: now,
        data: Grade {
            student_id: u.student_id,
            subject_id: u.subject_id,
            period: u.period,
            value: u.value,
        },
    }
}

/// The grade table after one upsert: the first row with the key is
/// overwritten in place; if none carries it, a fresh row is appended.
pub open spec fn spec_upsert_grade(
    rows: Seq<Row<Grade>>,
    u: GradeUpdate,
    now: i64,
    fresh: i64,
) -> Seq<Row<Grade>>
    decreases rows.len(),
{
    if rows.len() == 0 {
        seq![grade_new_row(u, now, fresh)]
    } else if grade_key_matches(rows[0], u.student_id, u.subject_id, u.period@) {
        seq![grade_updated_row(rows[0], u.value, now)] + rows.drop_first()
    } else {
        seq![rows[0]] + spec_upsert_grade(rows.drop_first(), u, now, fresh)
    }
}

/// When the first key hit is at index `i`, the upsert is exactly an in-place
/// update there.
pub proof fn lemma_upsert_at(rows: Seq<Row<Grade>>, u: GradeUpdate, now: i64, fresh: i64, i: int)
    requires
        0 <= i < rows.len(),
        grade_key_matches(rows[i], u.student_id, u.subject_id, u.period@),
        forall|j: int|
            0 <= j < i ==> !grade_key_matches(#[trigger] rows[j], u.student_id, u.subject_id,
            u.period@),
    ensures
        spec_upsert_grade(rows, u, now, fresh) =~= rows.update(
            i,
            grade_updated_row(rows[i], u.value, now),
        ),
    decreases rows.len(),
{
    if i == 0 {
    } else {
        let rest = rows.drop_first();
        assert forall|j: int|
            0 <= j < i - 1 implies !grade_key_matches(#[trigger] rest[j], u.student_id,
            u.subject_id, u.period@) by {
            assert(rest[j] == rows[j + 1]);
            assert(!grade_key_matches(rows[j + 1], u.student_id, u.subject_id, u.period@));
        }
        assert(rest[i - 1] == rows[i]);
        lemma_upsert_at(rest, u, now, fresh, i - 1);
    }
}

/// When no row carries the key, the upsert is exactly an append.
pub proof fn lemma_upsert_none(rows: Seq<Row<Grade>>, u: GradeUpdate, now: i64, fresh: i64)
    requires
        !has_grade_key(rows, u.student_id, u.subject_id, u.period@),
    ensures
        spec_upsert_grade(rows, u, now, fresh) =~= rows.push(grade_new_row(u, now, fresh)),
    decreases rows.len(),
{
    if rows.len() > 0 {
        let rest = rows.drop_first();
        assert(!grade_key_matches(rows[0], u.student_id, u.subject_id, u.period@));
        assert(!has_grade_key(rest, u.student_id, u.subject_id, u.period@)) by {
            if has_grade_key(rest, u.student_id, u.subject_id, u.period@) {
                let j = choose|j: int|
                    0 <= j < rest.len() && grade_key_matches(
                        #[trigger] rest[j],
                        u.student_id,
                        u.subject_id,
                        u.period@,
                    );
                assert(rows[j + 1] == rest[j]);
                assert(has_grade_key(rows, u.student_id, u.subject_id, u.period@));
            }
        }
        lemma_upsert_none(rest, u, now, fresh);
    }
}

/// The upsert resolves duplicate keys to update-in-place, never duplicate
/// rows: if grade keys were unique before, they are unique after, the
/// written key is present, every row carrying it holds the written value
/// (dirty, freshly stamped), and the table grew only on a miss. Every
/// resulting row carries either the written key or the key of an original
/// row.
pub proof fn lemma_upsert_key_unique(rows: Seq<Row<Grade>>, u: GradeUpdate, now: i64, fresh: i64)
    requires
        unique_grade_keys(rows),
    ensures
        unique_grade_keys(spec_upsert_grade(rows, u, now, fresh)),
        has_grade_key(spec_upsert_grade(rows, u, now, fresh), u.student_id, u.subject_id,
        u.period@),
        forall|i: int|
            0 <= i < spec_upsert_grade(rows, u, now, fresh).len() && grade_key_matches(
                #[trigger] spec_upsert_grade(rows, u, now, fresh)[i],
                u.student_id,
                u.subject_id,
                u.period@,
            ) ==> {
                let o = spec_upsert_grade(rows, u, now, fresh)[i];
                o.data.value == u.value && o.is_dirty && o.last_modified_at == now
            },
        spec_upsert_grade(rows, u, now, fresh).len() == if has_grade_key(
            rows,
            u.student_id,
            u.subject_id,
            u.period@,
        ) {
            rows.len()
        } else {
            rows.len() + 1
        },
        forall|i: int|
            0 <= i < spec_upsert_grade(rows, u, now, fresh).len() ==> grade_key_matches(
                #[trigger] spec_upsert_grade(rows, u, now, fresh)[i],
                u.student_id,
                u.subject_id,
                u.period@,
            ) || (exists|j: int|
                0 <= j < rows.len() && same_grade_key(
                    spec_upsert_grade(rows, u, now, fresh)[i],
                    #[trigger] rows[j],
                )),
    decreases rows.len(),
{
    let out = spec_upsert_grade(rows, u, now, fresh);
    if rows.len() == 0 {
        assert(out == seq![grade_new_row(u, now, fresh)]);
        assert(grade_key_matches(out[0], u.student_id, u.subject_id, u.period@));
    } else if grade_key_matches(rows[0], u.student_id, u.subject_id, u.period@) {
        let rest = rows.drop_first();
        assert(out == seq![grade_updated_row(rows[0], u.value, now)] + rest);
        assert(grade_key_matches(out[0], u.student_id, u.subject_id, u.period@));
        assert(has_grade_key(rows, u.student_id, u.subject_id, u.period@)) by {
            assert(grade_key_matches(rows[0], u.student_id, u.subject_id, u.period@));
        }
        assert forall|i: int, j: int| 0 <= i < j < out.len() implies !same_grade_key(
            #[trigger] out[i],
            #[trigger] out[j],
        ) by {
            if i == 0 {
                assert(out[j] == rows[j]);
                assert(!same_grade_key(rows[0], rows[j]));
                assert(same_grade_key(out[0], rows[0]));
            } else {
                assert(out[i] == rows[i] && out[j] == rows[j]);
                assert(!same_grade_key(rows[i], rows[j]));
            }
        }
        assert forall|i: int|
            0 <= i < out.len() && grade_key_matches(
                #[trigger] out[i],
                u.student_id,
                u.subject_id,
                u.period@,
            ) implies {
            let o = out[i];
            o.data.value == u.value && o.is_dirty && o.last_modified_at == now
        } by {
            if i > 0 {
                assert(out[i] == rows[i]);
                assert(same_grade_key(rows[0], rows[i]));
                assert(false);
            }
        }
        assert forall|i: int| 0 <= i < out.len() implies grade_key_matches(
            #[trigger] out[i],
            u.student_id,
            u.subject_id,
            u.period@,
        ) || (exists|j: int|
            0 <= j < rows.len() && same_grade_key(out[i], #[trigger] rows[j])) by {
            if i > 0 {
                assert(out[i] == rows[i]);
                assert(same_grade_key(out[i], rows[i]));
            }
        }
    } else {
        let rest = rows.drop_first();
        assert(out == seq![rows[0]] + spec_upsert_grade(rest, u, now, fresh));
        let out_rest = spec_upsert_grade(rest, u, now, fresh);
        assert(unique_grade_keys(rest)) by {
            assert forall|i: int, j: int| 0 <= i < j < rest.len() implies !same_grade_key(
                #[trigger] rest[i],
                #[trigger] rest[j],
            ) by {
                assert(rest[i] == rows[i + 1] && rest[j] == rows[j + 1]);
                assert(!same_grade_key(rows[i + 1], rows[j + 1]));
            }
        }
        lemma_upsert_key_unique(rest, u, now, fresh);
        assert(has_grade_key(out, u.student_id, u.subject_id, u.period@)) by {
            let j = choose|j: int|
                0 <= j < out_rest.len() && grade_key_matches(
                    #[trigger] out_rest[j],
                    u.student_id,
                    u.subject_id,
                    u.period@,
                );
            assert(out[j + 1] == out_rest[j]);
        }
        assert(has_grade_key(rows, u.student_id, u.subject_id, u.period@) == has_grade_key(
            rest,
            u.student_id,
            u.subject_id,
            u.period@,
        )) by {
            if has_grade_key(rows, u.student_id, u.subject_id, u.period@) {
                let j = choose|j: int|
                    0 <= j < rows.len() && grade_key_matches(
                        #[trigger] rows[j],
                        u.student_id,
                        u.subject_id,
                        u.period@,
                    );
                assert(j != 0);
                assert(rest[j - 1] == rows[j]);
                assert(has_grade_key(rest, u.student_id, u.subject_id, u.period@));
            }
            if has_grade_key(rest, u.student_id, u.subject_id, u.period@) {
                let j = choose|j: int|
                    0 <= j < rest.len() && grade_key_matches(
                        #[trigger] rest[j],
                        u.student_id,
                        u.subject_id,
                        u.period@,
                    );
                assert(rows[j + 1] == rest[j]);
                assert(has_grade_key(rows, u.student_id, u.subject_id, u.period@));
            }
        }
        assert forall|i: int, j: int| 0 <= i < j < out.len() implies !same_grade_key(
            #[trigger] out[i],
            #[trigger] out[j],
        ) by {
            if i == 0 {
                assert(out[j] == out_rest[j - 1]);
                if grade_key_matches(out_rest[j - 1], u.student_id, u.subject_id, u.period@) {
                    assert(!same_grade_key(rows[0], out[j]));
                } else {
                    let m = choose|m: int|
                        0 <= m < rest.len() && same_grade_key(out_rest[j - 1], #[trigger] rest[m]);
                    assert(rest[m] == rows[m + 1]);
                    assert(!same_grade_key(rows[0], rows[m + 1]));
                }
            } else {
                assert(out[i] == out_rest[i - 1] && out[j] == out_rest[j - 1]);
                assert(!same_grade_key(out_rest[i - 1], out_rest[j - 1]));
            }
        }
        assert forall|i: int|
            0 <= i < out.len() && grade_key_matches(
                #[trigger] out[i],
                u.student_id,
                u.subject_id,
                u.period@,
            ) implies {
            let o = out[i];
            o.data.value == u.value && o.is_dirty && o.last_modified_at == now
        } by {
            if i == 0 {
                assert(false);
            } else {
                assert(out[i] == out_rest[i - 1]);
            }
        }
        assert forall|i: int| 0 <= i < out.len() implies grade_key_matches(
            #[trigger] out[i],
            u.student_id,
            u.subject_id,
            u.period@,
        ) || (exists|j: int|
            0 <= j < rows.len() && same_grade_key(out[i], #[trigger] rows[j])) by {
            if i == 0 {
                assert(same_grade_key(out[0], rows[0]));
            } else {
                assert(out[i] == out_rest[i - 1]);
                if !grade_key_matches(out_rest[i - 1], u.student_id, u.subject_id, u.period@) {
                    let m = choose|m: int|
                        0 <= m < rest.len() && same_grade_key(out_rest[i - 1], #[trigger] rest[m]);
                    assert(rest[m] == rows[m + 1]);
                    assert(same_grade_key(out[i], rows[m + 1]));
                }
            }
        }
    }
}

fn find_grade_key(rows: &Vec<Row<Grade>>, student_id: i64, subject_id: i64, period: &String) -> (r:
    Option<usize>)
    ensures
        match r {
            Some(i) => i < rows@.len() && grade_key_matches(
                rows@[i as int],
                student_id,
                subject_id,
                period@,
            ) && (forall|j: int|
                0 <= j < i ==> !grade_key_matches(#[trigger] rows@[j], student_id, subject_id,
                period@)),
            None => !has_grade_key(rows@, student_id, subject_id, period@),
        },
{
    let mut i: usize = 0;
    while i < rows.len()
        invariant
            i <= rows@.len(),
            forall|j: int|
                0 <= j < i ==> !grade_key_matches(#[trigger] rows@[j], student_id, subject_id,
                period@),
        decreases rows@.len() - i,
    {
        let row = &rows[i];
        if row.data.student_id == student_id && row.data.subject_id == subject_id
            && row.data.period.eq(period) {
            return Some(i);
        }
        i = i + 1;
    }
    None
}

/// The grade table and fresh-identifier counter after a whole batch of
/// upserts, applied in batch order.
pub open spec fn spec_apply_updates(
    rows: Seq<Row<Grade>>,
    ups: Seq<GradeUpdate>,
    now: i64,
    fresh: i64,
) -> (Seq<Row<Grade>>, i64)
    decreases ups.len(),
{
    if ups.len() == 0 {
        (rows, fresh)
    } else {
        let u = ups[0];
        let hit = has_grade_key(rows, u.student_id, u.subject_id, u.period@);
        let r1 = spec_upsert_grade(rows, u, now, fresh);
        let f1 = if hit {
            fresh
        } else {
            (fresh + 1) as i64
        };
        spec_apply_updates(r1, ups.drop_first(), now, f1)
    }
}

/// Whether one mutation's references exist in the store.
pub open spec fn update_refs_ok(s: Store, u: GradeUpdate) -> bool {
    has_id(s.students@, u.student_id) && has_id(s.subjects@, u.subject_id)
}

/// Whether every mutation of a batch has valid references: the condition
/// under which the batch commits.
pub open spec fn batch_refs_ok(s: Store, ups: Seq<GradeUpdate>) -> bool {
    forall|j: int| 0 <= j < ups.len() ==> update_refs_ok(s, #[trigger] ups[j])
}

/// Valid references depend only on the student and subject tables, so any
/// operation that leaves those tables unchanged preserves a batch's
/// validity.
pub proof fn lemma_batch_refs_stable(s1: Store, s2: Store, ups: Seq<GradeUpdate>)
    requires
        s1.students@ == s2.students@,
        s1.subjects@ == s2.subjects@,
        batch_refs_ok(s1, ups),
    ensures
        batch_refs_ok(s2, ups),
{
    assert forall|j: int| 0 <= j < ups.len() implies update_refs_ok(s2, #[trigger] ups[j]) by {
        assert(update_refs_ok(s1, ups[j]));
    }
}

/// Applies a grade batch all-or-nothing. The batch commits exactly when
/// every mutation's references exist; a rejected batch leaves the store
/// untouched. A committed batch performs each upsert in order (overwrite on
/// key hit, fresh dirty row on miss) and touches nothing but the grade table
/// and the identifier counter.
pub fn apply_grade_batch(store: &mut Store, updates: &Vec<GradeUpdate>, now: i64) -> (r: Result<
    (),
    ServiceError,
>)
    requires
        wf_store(*old(store)),
        ts_ok(now),
        old(store).next_local_id + updates@.len() <= MAX_LOCAL_ID + 1,
    ensures
        wf_store(*final(store)),
        r is Ok <==> batch_refs_ok(*old(store), updates@),
        r is Err ==> *final(store) == *old(store) && r == Result::<(), ServiceError>::Err(
            ServiceError::Constraint,
        ),
        r is Ok ==> {
            let applied = spec_apply_updates(
                old(store).grades@,
                updates@,
                now,
                old(store).next_local_id,
            );
            &&& final(store).grades@ == applied.0
            &&& final(store).next_local_id == applied.1
        },
        final(store).academic_years@ == old(store).academic_years@,
        final(store).classes@ == old(store).classes@,
        final(store).students@ == old(store).students@,
        final(store).subjects@ == old(store).subjects@,
        final(store).notes@ == old(store).notes@,
        final(store).domains@ == old(store).domains@,
        final(store).repechages@ == old(store).repechages@,
        final(store).tombstones@ == old(store).tombstones@,
        unique_grade_keys(old(store).grades@) ==> unique_grade_keys(final(store).grades@),
{
    let mut i: usize = 0;
    while i < updates.len()
        invariant
            i <= updates@.len(),
            *store == *old(store),
            wf_store(*old(store)),
            forall|j: int| 0 <= j < i ==> update_refs_ok(*store, #[trigger] updates@[j]),
        decreases updates@.len() - i,
    {
        let u = &updates[i];
        let s_ok = crate::store::find_index(&store.students, u.student_id);
        let j_ok = crate::store::find_index(&store.subjects, u.subject_id);
        if s_ok.is_none() || j_ok.is_none() {
            return Err(ServiceError::Constraint);
        }
        i = i + 1;
    }
    let ghost orig_grades = store.grades@;
    let ghost orig_next = store.next_local_id;
    let ghost orig_unique = unique_grade_keys(store.grades@);
    proof {
        assert(updates@.skip(0) =~= updates@);
    }
    let mut j: usize = 0;
    while j < updates.len()
        invariant
            j <= updates@.len(),
            wf_store(*old(store)),
            orig_grades == old(store).grades@,
            orig_next == old(store).next_local_id,
            store.academic_years@ == old(store).academic_years@,
            store.classes@ == old(store).classes@,
            store.students@ == old(store).students@,
            store.subjects@ == old(store).subjects@,
            store.notes@ == old(store).notes@,
            store.domains@ == old(store).domains@,
            store.repechages@ == old(store).repechages@,
            store.tombstones@ == old(store).tombstones@,
            unique_ids(store.grades@),
            rows_ts_ok(store.grades@),
            ids_below(store.grades@, store.next_local_id),
            ts_ok(now),
            orig_next <= store.next_local_id,
            store.next_local_id + (updates@.len() - j) <= MAX_LOCAL_ID + 1,
            spec_apply_updates(store.grades@, updates@.skip(j as int), now, store.next_local_id)
                == spec_apply_updates(orig_grades, updates@, now, orig_next),
            orig_unique ==> unique_grade_keys(store.grades@),
        decreases updates@.len() - j,
    {
        proof {
            assert(updates@.skip(j as int)[0] == updates@[j as int]);
            assert(updates@.skip(j as int).drop_first() =~= updates@.skip(j + 1));
        }
        let u = &updates[j];
        let ghost prev = store.grades@;
        let ghost fresh = store.next_local_id;
        proof {
            if orig_unique {
                lemma_upsert_key_unique(prev, *u, now, fresh);
            }
        }
        match find_grade_key(&store.grades, u.student_id, u.subject_id, &u.period) {
            Some(i) => {
                proof {
                    lemma_upsert_at(prev, *u, now, fresh, i as int);
                    assert(has_grade_key(prev, u.student_id, u.subject_id, u.period@));
                }
                let mut row = store.grades.remove(i);
                row.data.value = u.value;
                row.is_dirty = true;
                row.last_modified_at = now;
                store.grades.insert(i, row);
                proof {
                    assert(store.grades@ =~= prev.update(
                        i as int,
                        grade_updated_row(prev[i as int], u.value, now),
                    ));
                    assert(store.grades@ =~= spec_upsert_grade(prev, *u, now, fresh));
                    assert forall|p: int, q: int|
                        0 <= p < q < store.grades@.len() implies #[trigger] store.grades@[p].local_id
                        != #[trigger] store.grades@[q].local_id by {
                        assert(prev[p].local_id != prev[q].local_id);
                    }
                    assert forall|k: int|
                        0 <= k < store.grades@.len() implies ts_ok(
                        #[trigger] store.grades@[k].updated_at,
                    ) && ts_ok(store.grades@[k].last_modified_at) by {
                        crate::store::lemma_rows_ts_ok_at(prev, k);
                    }
                    assert forall|k: int|
                        0 <= k < store.grades@.len() implies #[trigger] store.grades@[k].local_id
                        < store.next_local_id by {
                        crate::model::lemma_ids_below_at(prev, store.next_local_id, k);
                    }
                }
            },
            None => {
                proof {
                    lemma_upsert_none(prev, *u, now, fresh);
                }
                store.grades.push(
                    Row {
                        local_id: store.next_local_id,
                        server_id: None,
                        is_dirty: true,
                        updated_at: 0,
                        last_modified_at: now,
                        data: Grade {
                            student_id: u.student_id,
                            subject_id: u.subject_id,
                            period: u.period.clone(),
                            value: u.value,
                        },
                    },
                );
                store.next_local_id = store.next_local_id + 1;
                proof {
                    assert(store.grades@ =~= spec_upsert_grade(prev, *u, now, fresh));
                    assert forall|p: int, q: int|
                        0 <= p < q < store.grades@.len() implies #[trigger] store.grades@[p].local_id
                        != #[trigger] store.grades@[q].local_id by {
                        if q == prev.len() {
                            crate::model::lemma_ids_below_at(prev, fresh, p);
                        } else {
                            assert(prev[p].local_id != prev[q].local_id);
                        }
                    }
                    assert forall|k: int|
                        0 <= k < store.grades@.len() implies ts_ok(
                        #[trigger] store.grades@[k].updated_at,
                    ) && ts_ok(store.grades@[k].last_modified_at) by {
                        if k < prev.len() {
                            crate::store::lemma_rows_ts_ok_at(prev, k);
                        }
                    }
                    assert forall|k: int|
                        0 <= k < store.grades@.len() implies #[trigger] store.grades@[k].local_id
                        < store.next_local_id by {
                        if k < prev.len() {
                            crate::model::lemma_ids_below_at(prev, fresh, k);
                        }
                    }
                }
            },
        }
        j = j + 1;
    }
    proof {
        assert(updates@.skip(updates@.len() as int).len() == 0);
        crate::model::lemma_ids_below_mono(
            store.academic_years@,
            old(store).next_local_id,
            store.next_local_id,
        );
        crate::model::lemma_ids_below_mono(
            store.classes@,
            old(store).next_local_id,
            store.next_local_id,
        );
        crate::model::lemma_ids_below_mono(
            store.students@,
            old(store).next_local_id,
            store.next_local_id,
        );
        crate::model::lemma_ids_below_mono(
            store.subjects@,
            old(store).next_local_id,
            store.next_local_id,
        );
        crate::model::lemma_ids_below_mono(
            store.notes@,
            old(store).next_local_id,
            store.next_local_id,
        );
        crate::model::lemma_ids_below_mono(
            store.domains@,
            old(store).next_local_id,
            store.next_local_id,
        );
        crate::model::lemma_ids_below_mono(
            store.repechages@,
            old(store).next_local_id,
            store.next_local_id,
        );
        crate::model::lemma_tombs_ok_mono(
            store.tombstones@,
            old(store).next_local_id,
            store.next_local_id,
        );
    }
    Ok(())
}

/// Two concurrent batch submissions with valid references both commit: a
/// committed batch touches only the grade table, so a second batch that was
/// valid against the same snapshot is still valid after the first commits,
/// whichever of the two goes first.
pub proof fn lemma_concurrent_batches(
    s0: Store,
    s1: Store,
    b1: Seq<GradeUpdate>,
    b2: Seq<GradeUpdate>,
)
    requires
        batch_refs_ok(s0, b1),
        batch_refs_ok(s0, b2),
        s1.students@ == s0.students@,
        s1.subjects@ == s0.subjects@,
    ensures
        batch_refs_ok(s1, b1),
        batch_refs_ok(s1, b2),
{
    lemma_batch_refs_stable(s0, s1, b1);
    lemma_batch_refs_stable(s0, s1, b2);
}

/// Handles one grade batch end to end: applies it all-or-nothing and, only
/// when it committed, builds the change notification to broadcast, tagged
/// with the batch's sender. A rejected batch leaves the store untouched and
/// produces no notification.
pub fn handle_grade_batch(store: &mut Store, req: &BatchGradeRequest, now: i64) -> (r: Result<
    crate::broadcast::ChangeEvent,
    ServiceError,
>)
    requires
        wf_store(*old(store)),
        crate::store::ts_ok(now),
        old(store).next_local_id + req.updates@.len() <= MAX_LOCAL_ID + 1,
    ensures
        wf_store(*final(store)),
        r is Ok <==> batch_refs_ok(*old(store), req.updates@),
        r is Err ==> *final(store) == *old(store),
        r matches Ok(n) ==> {
            let applied = spec_apply_updates(
                old(store).grades@,
                req.updates@,
                now,
                old(store).next_local_id,
            );
            &&& final(store).grades@ == applied.0
            &&& final(store).next_local_id == applied.1
            &&& n.sender_id == req.sender_id
            &&& n.updates@ == req.updates@
            &&& n.event@ == "db:changed"@
            &&& n.change_type@ == "grade_update"@
        },
        final(store).students@ == old(store).students@,
        final(store).subjects@ == old(store).subjects@,
        final(store).academic_years@ == old(store).academic_years@,
        final(store).classes@ == old(store).classes@,
        final(store).notes@ == old(store).notes@,
        final(store).domains@ == old(store).domains@,
        final(store).repechages@ == old(store).repechages@,
        final(store).tombstones@ == old(store).tombstones@,
        unique_grade_keys(old(store).grades@) ==> unique_grade_keys(final(store).grades@),
{
    match apply_grade_batch(store, &req.updates, now) {
        Ok(()) => Ok(crate::broadcast::batch_notification(req)),
        Err(e) => Err(e),
    }
}

} // verus!

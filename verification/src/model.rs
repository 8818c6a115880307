//! The entity types of the store and the store itself.
//!
//! Grade-like numeric values are carried as opaque 64-bit encodings chosen by
//! the caller (the store never does arithmetic on them); timestamps are
//! milliseconds since the epoch; identifiers are process-local integers drawn
//! from a single counter, so fresh identifiers never collide with any row or
//! tombstone.

use vstd::prelude::*;
use crate::store::{Row, TableId, Tombstone, delete_row, find_index, has_id, idx_of, lemma_row_at_index, remove_flagged, row_at, rows_ts_ok, spec_flag_sids, spec_keep_rows, ts_ok, unique_ids, wf_rows};

verus! {

/// Largest process-local identifier the store hands out or accepts from a
/// pull, leaving headroom below `i64::MAX` for the counter.
pub const MAX_LOCAL_ID: i64 = 0x3fff_ffff_ffff_ffff;

/// An academic year; at most one is expected to be active, and listings fall
/// back to every year when none is.
pub struct AcademicYear {
    pub name: String,
    pub start_date: String,
    pub end_date: String,
    pub is_active: bool,
}

/// A class within an academic year.
pub struct Class {
    pub name: String,
    pub level: String,
    pub option: String,
    pub section: String,
    pub academic_year_id: i64,
}

/// A student enrolled in a class.
pub struct Student {
    pub first_name: String,
    pub last_name: String,
    pub post_name: String,
    pub gender: String,
    pub birth_date: Option<String>,
    pub birthplace: String,
    pub conduite: String,
    pub conduite_p1: String,
    pub conduite_p2: String,
    pub conduite_p3: String,
    pub conduite_p4: String,
    pub is_abandoned: bool,
    pub abandon_reason: String,
    pub class_id: i64,
}

/// A subject taught in a class, with the maximum attainable marks per period.
pub struct Subject {
    pub name: String,
    pub code: String,
    pub max_p1: i64,
    pub max_p2: i64,
    pub max_exam1: i64,
    pub max_p3: i64,
    pub max_p4: i64,
    pub max_exam2: i64,
    pub category: String,
    pub sub_domain: String,
    pub domain_id: Option<i64>,
    pub class_id: i64,
}

/// A grade, uniquely identified by (student, subject, period).
pub struct Grade {
    pub student_id: i64,
    pub subject_id: i64,
    pub period: String,
    pub value: u64,
}

/// A free-form note, optionally attached to an academic year.
pub struct Note {
    pub title: String,
    pub content: String,
    pub academic_year_id: Option<i64>,
}

/// A subject domain (grouping), with a display order.
pub struct Domain {
    pub name: String,
    pub display_order: i64,
}

/// A makeup record, uniquely identified by (student, subject).
pub struct Repechage {
    pub student_id: i64,
    pub subject_id: i64,
    pub value: u64,
    pub percentage: u64,
}

/// The entity store: one table per syncable entity type, the deletion
/// tombstones pending propagation, and the counter for fresh local
/// identifiers.
pub struct Store {
    pub academic_years: Vec<Row<AcademicYear>>,
    pub classes: Vec<Row<Class>>,
    pub students: Vec<Row<Student>>,
    pub subjects: Vec<Row<Subject>>,
    pub grades: Vec<Row<Grade>>,
    pub notes: Vec<Row<Note>>,
    pub domains: Vec<Row<Domain>>,
    pub repechages: Vec<Row<Repechage>>,
    pub tombstones: Vec<Tombstone>,
    pub next_local_id: i64,
}

/// Every row's identifier lies below the fresh-identifier counter.
pub open spec fn ids_below<T>(rows: Seq<Row<T>>, n: i64) -> bool {
    forall|i: int| 0 <= i < rows.len() ==> #[trigger] rows[i].local_id < n
}

/// Pointwise reading of a table's identifier bound.
pub proof fn lemma_ids_below_at<T>(rows: Seq<Row<T>>, n: i64, k: int)
    requires
        ids_below(rows, n),
        0 <= k < rows.len(),
    ensures
        rows[k].local_id < n,
{
}


/// A table's identifier bound is monotone in the counter.
pub proof fn lemma_ids_below_mono<T>(rows: Seq<Row<T>>, n1: i64, n2: i64)
    requires
        ids_below(rows, n1),
        n1 <= n2,
    ensures
        ids_below(rows, n2),
{
    assert forall|i: int| 0 <= i < rows.len() implies #[trigger] rows[i].local_id < n2 by {
        lemma_ids_below_at(rows, n1, i);
    }
}

/// The tombstone log's well-formedness is monotone in the counter.
pub proof fn lemma_tombs_ok_mono(ts: Seq<Tombstone>, n1: i64, n2: i64)
    requires
        tombs_ok(ts, n1),
        n1 <= n2,
    ensures
        tombs_ok(ts, n2),
{
    assert forall|i: int| 0 <= i < ts.len() implies #[trigger] ts[i].local_id < n2 by {
        assert(ts[i].local_id < n1);
    }
}

/// Tombstone log well-formedness: identifiers unique and below the counter.
pub open spec fn tombs_ok(ts: Seq<Tombstone>, n: i64) -> bool {
    &&& forall|i: int, j: int|
        0 <= i < j < ts.len() ==> #[trigger] ts[i].local_id != #[trigger] ts[j].local_id
    &&& forall|i: int| 0 <= i < ts.len() ==> #[trigger] ts[i].local_id < n
}

/// Store well-formedness: every table well-shaped, every identifier (row or
/// tombstone) below the fresh-identifier counter, and the counter in range.
pub open spec fn wf_store(s: Store) -> bool {
    &&& wf_rows(s.academic_years@) && ids_below(s.academic_years@, s.next_local_id)
    &&& wf_rows(s.classes@) && ids_below(s.classes@, s.next_local_id)
    &&& wf_rows(s.students@) && ids_below(s.students@, s.next_local_id)
    &&& wf_rows(s.subjects@) && ids_below(s.subjects@, s.next_local_id)
    &&& wf_rows(s.grades@) && ids_below(s.grades@, s.next_local_id)
    &&& wf_rows(s.notes@) && ids_below(s.notes@, s.next_local_id)
    &&& wf_rows(s.domains@) && ids_below(s.domains@, s.next_local_id)
    &&& wf_rows(s.repechages@) && ids_below(s.repechages@, s.next_local_id)
    &&& tombs_ok(s.tombstones@, s.next_local_id)
    &&& 0 < s.next_local_id <= MAX_LOCAL_ID + 1
}

impl Store {
    /// An empty store.
    pub fn new() -> (s: Store)
        ensures
            wf_store(s),
            s.academic_years@.len() == 0,
            s.classes@.len() == 0,
            s.students@.len() == 0,
            s.subjects@.len() == 0,
            s.grades@.len() == 0,
            s.notes@.len() == 0,
            s.domains@.len() == 0,
            s.repechages@.len() == 0,
            s.tombstones@.len() == 0,
            s.next_local_id == 1,
    {
        Store {
            academic_years: Vec::new(),
            classes: Vec::new(),
            students: Vec::new(),
            subjects: Vec::new(),
            grades: Vec::new(),
            notes: Vec::new(),
            domains: Vec::new(),
            repechages: Vec::new(),
            tombstones: Vec::new(),
            next_local_id: 1,
        }
    }
}



/// Whether a student with this identifier is enrolled in the class
/// (abandoned or not).
pub open spec fn student_of_class(
    students: Seq<Row<Student>>,
    student_id: i64,
    class_id: i64,
) -> bool {
    exists|k: int|
        0 <= k < students.len() && #[trigger] students[k].local_id == student_id
            && students[k].data.class_id == class_id
}

/// Whether a subject with this identifier is taught in the class.
pub open spec fn subject_of_class(
    subjects: Seq<Row<Subject>>,
    subject_id: i64,
    class_id: i64,
) -> bool {
    exists|k: int|
        0 <= k < subjects.len() && #[trigger] subjects[k].local_id == subject_id
            && subjects[k].data.class_id == class_id
}

/// Whether a per-student, per-subject record (a grade or a makeup record)
/// hangs off the class through either of its references.
pub open spec fn record_of_class(
    students: Seq<Row<Student>>,
    subjects: Seq<Row<Subject>>,
    student_id: i64,
    subject_id: i64,
    class_id: i64,
) -> bool {
    student_of_class(students, student_id, class_id) || subject_of_class(
        subjects,
        subject_id,
        class_id,
    )
}

/// Decides whether the student with this identifier is in the class.
pub fn student_in(students: &Vec<Row<Student>>, student_id: i64, class_id: i64) -> (b: bool)
    requires
        unique_ids(students@),
    ensures
        b == student_of_class(students@, student_id, class_id),
{
    match find_index(students, student_id) {
        Some(i) => {
            proof {
                lemma_row_at_index(students@, i as int);
            }
            let b = students[i].data.class_id == class_id;
            proof {
                if !b {
                    assert forall|k: int|
                        0 <= k < students@.len() && #[trigger] students@[k].local_id == student_id
                            implies students@[k].data.class_id != class_id by {
                        if k != i as int {
                            assert(students@[k].local_id != students@[i as int].local_id);
                        }
                    }
                }
            }
            b
        },
        None => {
            proof {
                assert(!has_id(students@, student_id));
            }
            false
        },
    }
}

/// Decides whether the subject with this identifier is in the class.
pub fn subject_in(subjects: &Vec<Row<Subject>>, subject_id: i64, class_id: i64) -> (b: bool)
    requires
        unique_ids(subjects@),
    ensures
        b == subject_of_class(subjects@, subject_id, class_id),
{
    match find_index(subjects, subject_id) {
        Some(i) => {
            proof {
                lemma_row_at_index(subjects@, i as int);
            }
            let b = subjects[i].data.class_id == class_id;
            proof {
                if !b {
                    assert forall|k: int|
                        0 <= k < subjects@.len() && #[trigger] subjects@[k].local_id == subject_id
                            implies subjects@[k].data.class_id != class_id by {
                        if k != i as int {
                            assert(subjects@[k].local_id != subjects@[i as int].local_id);
                        }
                    }
                }
            }
            b
        },
        None => {
            proof {
                assert(!has_id(subjects@, subject_id));
            }
            false
        },
    }
}


fn student_flags(students: &Vec<Row<Student>>, class_id: i64) -> (f: Vec<bool>)
    ensures
        f@ == Seq::new(students@.len(), |i: int| students@[i].data.class_id == class_id),
{
    let ghost target = Seq::new(students@.len(), |i: int| students@[i].data.class_id == class_id);
    let mut f: Vec<bool> = Vec::new();
    let mut i: usize = 0;
    while i < students.len()
        invariant
            i <= students@.len(),
            target == Seq::new(
                students@.len(),
                |k: int| students@[k].data.class_id == class_id,
            ),
            f@ =~= target.take(i as int),
        decreases students@.len() - i,
    {
        f.push(students[i].data.class_id == class_id);
        proof {
            assert(f@ =~= target.take(i + 1));
        }
        i = i + 1;
    }
    proof {
        assert(f@ =~= target);
    }
    f
}

fn subject_flags(subjects: &Vec<Row<Subject>>, class_id: i64) -> (f: Vec<bool>)
    ensures
        f@ == Seq::new(subjects@.len(), |i: int| subjects@[i].data.class_id == class_id),
{
    let ghost target = Seq::new(subjects@.len(), |i: int| subjects@[i].data.class_id == class_id);
    let mut f: Vec<bool> = Vec::new();
    let mut i: usize = 0;
    while i < subjects.len()
        invariant
            i <= subjects@.len(),
            target == Seq::new(
                subjects@.len(),
                |k: int| subjects@[k].data.class_id == class_id,
            ),
            f@ =~= target.take(i as int),
        decreases subjects@.len() - i,
    {
        f.push(subjects[i].data.class_id == class_id);
        proof {
            assert(f@ =~= target.take(i + 1));
        }
        i = i + 1;
    }
    proof {
        assert(f@ =~= target);
    }
    f
}

fn grade_flags(
    students: &Vec<Row<Student>>,
    subjects: &Vec<Row<Subject>>,
    grades: &Vec<Row<Grade>>,
    class_id: i64,
) -> (f: Vec<bool>)
    requires
        unique_ids(students@),
        unique_ids(subjects@),
    ensures
        f@ == Seq::new(
            grades@.len(),
            |i: int|
                record_of_class(
                    students@,
                    subjects@,
                    grades@[i].data.student_id,
                    grades@[i].data.subject_id,
                    class_id,
                ),
        ),
{
    let ghost target = Seq::new(
        grades@.len(),
        |i: int|
            record_of_class(
                students@,
                subjects@,
                grades@[i].data.student_id,
                grades@[i].data.subject_id,
                class_id,
            ),
    );
    let mut f: Vec<bool> = Vec::new();
    let mut i: usize = 0;
    while i < grades.len()
        invariant
            i <= grades@.len(),
            unique_ids(students@),
            unique_ids(subjects@),
            target == Seq::new(
                grades@.len(),
                |k: int|
                    record_of_class(
                        students@,
                        subjects@,
                        grades@[k].data.student_id,
                        grades@[k].data.subject_id,
                        class_id,
                    ),
            ),
            f@ =~= target.take(i as int),
        decreases grades@.len() - i,
    {
        let g = &grades[i];
        let dead = student_in(students, g.data.student_id, class_id) || subject_in(
            subjects,
            g.data.subject_id,
            class_id,
        );
        f.push(dead);
        proof {
            assert(f@ =~= target.take(i + 1));
        }
        i = i + 1;
    }
    proof {
        assert(f@ =~= target);
    }
    f
}

fn repechage_flags(
    students: &Vec<Row<Student>>,
    subjects: &Vec<Row<Subject>>,
    repechages: &Vec<Row<Repechage>>,
    class_id: i64,
) -> (f: Vec<bool>)
    requires
        unique_ids(students@),
        unique_ids(subjects@),
    ensures
        f@ == Seq::new(
            repechages@.len(),
            |i: int|
                record_of_class(
                    students@,
                    subjects@,
                    repechages@[i].data.student_id,
                    repechages@[i].data.subject_id,
                    class_id,
                ),
        ),
{
    let ghost target = Seq::new(
        repechages@.len(),
        |i: int|
            record_of_class(
                students@,
                subjects@,
                repechages@[i].data.student_id,
                repechages@[i].data.subject_id,
                class_id,
            ),
    );
    let mut f: Vec<bool> = Vec::new();
    let mut i: usize = 0;
    while i < repechages.len()
        invariant
            i <= repechages@.len(),
            unique_ids(students@),
            unique_ids(subjects@),
            target == Seq::new(
                repechages@.len(),
                |k: int|
                    record_of_class(
                        students@,
                        subjects@,
                        repechages@[k].data.student_id,
                        repechages@[k].data.subject_id,
                        class_id,
                    ),
            ),
            f@ =~= target.take(i as int),
        decreases repechages@.len() - i,
    {
        let r = &repechages[i];
        let dead = student_in(students, r.data.student_id, class_id) || subject_in(
            subjects,
            r.data.subject_id,
            class_id,
        );
        f.push(dead);
        proof {
            assert(f@ =~= target.take(i + 1));
        }
        i = i + 1;
    }
    proof {
        assert(f@ =~= target);
    }
    f
}

/// Deletes a grade through the change-capture layer: the row leaves the
/// table, and exactly one tombstone is appended when the row carried a
/// remote identifier, none when it carried none. Every other table is
/// untouched.
#[verifier::spinoff_prover]
pub fn delete_grade(store: &mut Store, local_id: i64, now: i64) -> (removed: bool)
    requires
        wf_store(*old(store)),
        ts_ok(now),
        old(store).next_local_id <= MAX_LOCAL_ID,
    ensures
        wf_store(*final(store)),
        removed == has_id(old(store).grades@, local_id),
        !removed ==> final(store).grades@ == old(store).grades@ && final(store).tombstones@
            == old(store).tombstones@ && final(store).next_local_id == old(
            store,
        ).next_local_id,
        removed ==> final(store).grades@ == old(store).grades@.remove(
            idx_of(old(store).grades@, local_id),
        ),
        removed ==> match row_at(old(store).grades@, local_id).server_id {
            Some(sid) => final(store).tombstones@ == old(store).tombstones@.push(
                Tombstone {
                    local_id: old(store).next_local_id,
                    table: TableId::Grades,
                    server_id: sid,
                    deleted_at: now,
                },
            ) && final(store).next_local_id == old(store).next_local_id + 1,
            None => final(store).tombstones@ == old(store).tombstones@ && final(store).next_local_id
                == old(store).next_local_id,
        },
        final(store).academic_years@ == old(store).academic_years@,
        final(store).classes@ == old(store).classes@,
        final(store).students@ == old(store).students@,
        final(store).subjects@ == old(store).subjects@,
        final(store).notes@ == old(store).notes@,
        final(store).domains@ == old(store).domains@,
        final(store).repechages@ == old(store).repechages@,
{
    let before = store.tombstones.len();
    let removed = delete_row(
        &mut store.grades,
        &mut store.tombstones,
        TableId::Grades,
        local_id,
        store.next_local_id,
        now,
    );
    let grew = store.tombstones.len() > before;
    if grew {
        store.next_local_id = store.next_local_id + 1;
    }
    proof {
        let prev = old(store).grades@;
        let out = store.grades@;
        let n0 = old(store).next_local_id;
        let n1 = store.next_local_id;
        if removed {
            let i = idx_of(prev, local_id);
            assert forall|k: int| 0 <= k < out.len() implies ts_ok(#[trigger] out[k].updated_at)
                && ts_ok(out[k].last_modified_at) by {
                let src = if k < i {
                    k
                } else {
                    k + 1
                };
                assert(out[k] == prev[src]);
                crate::store::lemma_rows_ts_ok_at(prev, src);
            }
            assert forall|k: int| 0 <= k < out.len() implies #[trigger] out[k].local_id < n1 by {
                let src = if k < i {
                    k
                } else {
                    k + 1
                };
                assert(out[k] == prev[src]);
                lemma_ids_below_at(prev, n0, src);
            }
            if grew {
                lemma_ids_below_mono(store.academic_years@, n0, n1);
                lemma_ids_below_mono(store.classes@, n0, n1);
                lemma_ids_below_mono(store.students@, n0, n1);
                lemma_ids_below_mono(store.subjects@, n0, n1);
                lemma_ids_below_mono(store.notes@, n0, n1);
                lemma_ids_below_mono(store.domains@, n0, n1);
                lemma_ids_below_mono(store.repechages@, n0, n1);
                let ts = store.tombstones@;
                let ots = old(store).tombstones@;
                assert forall|p: int, q: int| 0 <= p < q < ts.len() implies #[trigger] ts[p].local_id
                    != #[trigger] ts[q].local_id by {
                    if q == ts.len() - 1 {
                        assert(ts[q].local_id == n0);
                        assert(ts[p] == ots[p]);
                        assert(ots[p].local_id < n0);
                    } else {
                        assert(ts[p] == ots[p] && ts[q] == ots[q]);
                        assert(ots[p].local_id != ots[q].local_id);
                    }
                }
                assert forall|p: int| 0 <= p < ts.len() implies #[trigger] ts[p].local_id < n1 by {
                    if p == ts.len() - 1 {
                        assert(ts[p].local_id == n0);
                    } else {
                        assert(ts[p] == ots[p]);
                        assert(ots[p].local_id < n0);
                    }
                }
            }
        }
    }
    removed
}


/// The students a class deletion removes: those enrolled in the class.
pub open spec fn class_student_flags(s: Store, class_id: i64) -> Seq<bool> {
    Seq::new(s.students@.len(), |i: int| s.students@[i].data.class_id == class_id)
}

/// The subjects a class deletion removes: those taught in the class.
pub open spec fn class_subject_flags(s: Store, class_id: i64) -> Seq<bool> {
    Seq::new(s.subjects@.len(), |i: int| s.subjects@[i].data.class_id == class_id)
}

/// The grades a class deletion removes: those referencing a removed student
/// or a removed subject.
pub open spec fn class_grade_flags(s: Store, class_id: i64) -> Seq<bool> {
    Seq::new(
        s.grades@.len(),
        |i: int|
            record_of_class(
                s.students@,
                s.subjects@,
                s.grades@[i].data.student_id,
                s.grades@[i].data.subject_id,
                class_id,
            ),
    )
}

/// The makeup records a class deletion removes.
pub open spec fn class_repechage_flags(s: Store, class_id: i64) -> Seq<bool> {
    Seq::new(
        s.repechages@.len(),
        |i: int|
            record_of_class(
                s.students@,
                s.subjects@,
                s.repechages@[i].data.student_id,
                s.repechages@[i].data.subject_id,
                class_id,
            ),
    )
}

/// Deletes a class and everything that hangs off it: its students and
/// subjects, and the grades and makeup records referencing them. Every
/// removed row the remote knows leaves exactly one tombstone (grades first,
/// then makeup records, students, subjects, and last the class itself);
/// removed rows the remote never saw leave none. Returns whether the class
/// existed.
pub fn delete_class(store: &mut Store, class_id: i64, now: i64) -> (removed: bool)
    requires
        wf_store(*old(store)),
        ts_ok(now),
        old(store).next_local_id + old(store).grades@.len() + old(store).repechages@.len()
            + old(store).students@.len() + old(store).subjects@.len() + 1 <= MAX_LOCAL_ID + 1,
    ensures
        wf_store(*final(store)),
        removed == has_id(old(store).classes@, class_id),
        !removed ==> *final(store) == *old(store),
        final(store).academic_years@ == old(store).academic_years@,
        final(store).notes@ == old(store).notes@,
        final(store).domains@ == old(store).domains@,
        removed ==> ({
            let prev = *old(store);
            let dg = spec_flag_sids(prev.grades@, class_grade_flags(prev, class_id));
            let dr = spec_flag_sids(prev.repechages@, class_repechage_flags(prev, class_id));
            let ds = spec_flag_sids(prev.students@, class_student_flags(prev, class_id));
            let du = spec_flag_sids(prev.subjects@, class_subject_flags(prev, class_id));
            let base = prev.tombstones@.len() as int;
            let class_sid = row_at(prev.classes@, class_id).server_id;
            &&& final(store).classes@ == prev.classes@.remove(idx_of(prev.classes@, class_id))
            &&& final(store).grades@ == spec_keep_rows(
                prev.grades@,
                class_grade_flags(prev, class_id),
            )
            &&& final(store).repechages@ == spec_keep_rows(
                prev.repechages@,
                class_repechage_flags(prev, class_id),
            )
            &&& final(store).students@ == spec_keep_rows(
                prev.students@,
                class_student_flags(prev, class_id),
            )
            &&& final(store).subjects@ == spec_keep_rows(
                prev.subjects@,
                class_subject_flags(prev, class_id),
            )
            &&& final(store).tombstones@.len() == base + dg.len() + dr.len() + ds.len() + du.len()
                + (if class_sid is Some {
                    1int
                } else {
                    0int
                })
            &&& final(store).tombstones@.take(base) == prev.tombstones@
            &&& (forall|k: int|
                0 <= k < dg.len() ==> {
                    let t = #[trigger] final(store).tombstones@[base + k];
                    t.table == TableId::Grades && t.server_id == dg[k] && t.deleted_at == now
                })
            &&& (forall|k: int|
                0 <= k < dr.len() ==> {
                    let t = #[trigger] final(store).tombstones@[base + dg.len() + k];
                    t.table == TableId::Repechages && t.server_id == dr[k] && t.deleted_at == now
                })
            &&& (forall|k: int|
                0 <= k < ds.len() ==> {
                    let t = #[trigger] final(store).tombstones@[base + dg.len() + dr.len() + k];
                    t.table == TableId::Students && t.server_id == ds[k] && t.deleted_at == now
                })
            &&& (forall|k: int|
                0 <= k < du.len() ==> {
                    let t = #[trigger] final(store).tombstones@[base + dg.len() + dr.len()
                        + ds.len() + k];
                    t.table == TableId::Subjects && t.server_id == du[k] && t.deleted_at == now
                })
            &&& (class_sid matches Some(sid) ==> {
                let t = final(store).tombstones@.last();
                t.table == TableId::Classes && t.server_id == sid && t.deleted_at == now
            })
        }),
{
    if find_index(&store.classes, class_id).is_none() {
        return false;
    }
    let gf = grade_flags(&store.students, &store.subjects, &store.grades, class_id);
    let rf = repechage_flags(&store.students, &store.subjects, &store.repechages, class_id);
    let sf = student_flags(&store.students, class_id);
    let uf = subject_flags(&store.subjects, class_id);
    let ghost prev = *old(store);
    let ghost t0 = store.tombstones@;
    let ghost base = store.tombstones@.len() as int;
    remove_flagged(
        &mut store.grades,
        &gf,
        &mut store.tombstones,
        TableId::Grades,
        &mut store.next_local_id,
        now,
    );
    let ghost t1 = store.tombstones@;
    remove_flagged(
        &mut store.repechages,
        &rf,
        &mut store.tombstones,
        TableId::Repechages,
        &mut store.next_local_id,
        now,
    );
    let ghost t2 = store.tombstones@;
    remove_flagged(
        &mut store.students,
        &sf,
        &mut store.tombstones,
        TableId::Students,
        &mut store.next_local_id,
        now,
    );
    let ghost t3 = store.tombstones@;
    remove_flagged(
        &mut store.subjects,
        &uf,
        &mut store.tombstones,
        TableId::Subjects,
        &mut store.next_local_id,
        now,
    );
    let ghost t4 = store.tombstones@;
    let ghost n4 = store.next_local_id;
    let before_class = store.tombstones.len();
    delete_row(
        &mut store.classes,
        &mut store.tombstones,
        TableId::Classes,
        class_id,
        store.next_local_id,
        now,
    );
    if store.tombstones.len() > before_class {
        store.next_local_id = store.next_local_id + 1;
    }
    proof {
        let dg = spec_flag_sids(prev.grades@, class_grade_flags(prev, class_id));
        let dr = spec_flag_sids(prev.repechages@, class_repechage_flags(prev, class_id));
        let ds = spec_flag_sids(prev.students@, class_student_flags(prev, class_id));
        let du = spec_flag_sids(prev.subjects@, class_subject_flags(prev, class_id));
        let t5 = store.tombstones@;
        let n5 = store.next_local_id;
        // every stage only appended, so each earlier segment is stable
        assert forall|idx: int| 0 <= idx < t1.len() implies t2[idx] == t1[idx] by {
            assert(t2.take(t1.len() as int)[idx] == t2[idx]);
        }
        assert forall|idx: int| 0 <= idx < t2.len() implies t3[idx] == t2[idx] by {
            assert(t3.take(t2.len() as int)[idx] == t3[idx]);
        }
        assert forall|idx: int| 0 <= idx < t3.len() implies t4[idx] == t3[idx] by {
            assert(t4.take(t3.len() as int)[idx] == t4[idx]);
        }
        assert forall|idx: int| 0 <= idx < t4.len() implies t5[idx] == t4[idx] by {
            match row_at(prev.classes@, class_id).server_id {
                Some(_) => {
                    assert(t5 == t4.push(t5.last()));
                },
                None => {},
            }
        }
        assert(t5.take(base) =~= prev.tombstones@);
        // the class tombstone, if any, keeps the log well-formed
        match row_at(prev.classes@, class_id).server_id {
            Some(_) => {
                assert forall|p: int, q: int|
                    0 <= p < q < t5.len() implies #[trigger] t5[p].local_id
                    != #[trigger] t5[q].local_id by {
                    if q == t5.len() - 1 {
                        assert(t5[p] == t4[p]);
                        assert(t4[p].local_id < n4);
                        assert(t5[q].local_id == n4);
                    } else {
                        assert(t5[p] == t4[p] && t5[q] == t4[q]);
                        assert(t4[p].local_id != t4[q].local_id);
                    }
                }
                assert forall|p: int| 0 <= p < t5.len() implies #[trigger] t5[p].local_id < n5 by {
                    if p == t5.len() - 1 {
                        assert(t5[p].local_id == n4);
                    } else {
                        assert(t5[p] == t4[p]);
                        assert(t4[p].local_id < n4);
                    }
                }
            },
            None => {},
        }
        // the class table stays well-shaped after the removal
        let ci = idx_of(prev.classes@, class_id);
        let cls = store.classes@;
        assert forall|k: int| 0 <= k < cls.len() implies ts_ok(#[trigger] cls[k].updated_at)
            && ts_ok(cls[k].last_modified_at) && cls[k].local_id < n5 by {
            let src = if k < ci {
                k
            } else {
                k + 1
            };
            assert(cls[k] == prev.classes@[src]);
            crate::store::lemma_rows_ts_ok_at(prev.classes@, src);
            lemma_ids_below_at(prev.classes@, prev.next_local_id, src);
        }
        // the untouched tables stay below the grown counter
        lemma_ids_below_mono(store.academic_years@, prev.next_local_id, n5);
        lemma_ids_below_mono(store.notes@, prev.next_local_id, n5);
        lemma_ids_below_mono(store.domains@, prev.next_local_id, n5);
        lemma_ids_below_mono(store.grades@, n4, n5);
        lemma_ids_below_mono(store.repechages@, n4, n5);
        lemma_ids_below_mono(store.students@, n4, n5);
        lemma_ids_below_mono(store.subjects@, n4, n5);
    }
    true
}

/// Copies an optional string, preserving the value exactly.
pub fn clone_opt_string(o: &Option<String>) -> (r: Option<String>)
    ensures
        r == *o,
{
    match o {
        Some(s) => Some(s.clone()),
        None => None,
    }
}

/// Copies an optional integer, preserving the value exactly.
pub fn clone_opt_i64(o: &Option<i64>) -> (r: Option<i64>)
    ensures
        r == *o,
{
    match o {
        Some(v) => Some(*v),
        None => None,
    }
}

} // verus!

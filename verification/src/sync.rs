//! The pull-then-push reconciliation cycle against the remote authority.
//!
//! A cycle pulls the authoritative snapshot and applies it
//! (replace-by-identifier, clearing dirty flags), collects every dirty row
//! and every tombstone into one outbound batch, and, once the remote
//! acknowledges, records the assigned identifiers, clears dirty flags, and
//! drops acknowledged tombstones. The network itself lives outside the
//! library; the functions here are the local halves of each step.

use vstd::prelude::*;
use crate::model::{
    AcademicYear, Class, Domain, Grade, Note, Repechage, Store, Student, Subject, MAX_LOCAL_ID,
    ids_below, tombs_ok, wf_store,
};
use crate::store::{
    Row, TableId, Tombstone, any_overdue, apply_item, count_dirty, dirty_count, has_id, idx_of,
    lemma_apply_item_shape, rows_ts_ok, spec_apply_list, spec_dirty, spec_overdue, ts_ok,
    unique_ids, wf_rows,
};
use crate::model::{clone_opt_i64, clone_opt_string};
use crate::time::rfc3339_of;

verus! {

/// Outcome of a whole sync cycle, as reported to the caller.
pub struct SyncResult {
    pub success: bool,
    pub error: Option<String>,
}

/// A pushed or pulled academic year.
#[allow(non_snake_case)]
pub struct AcademicYearPush {
    pub localId: i64,
    pub serverId: Option<String>,
    pub name: String,
    pub startDate: String,
    pub endDate: String,
    pub isCurrent: bool,
    pub last_modified_at: String,
}

/// A pushed or pulled class.
#[allow(non_snake_case)]
pub struct ClassPush {
    pub localId: i64,
    pub serverId: Option<String>,
    pub name: String,
    pub level: String,
    pub option: String,
    pub section: String,
    pub academicYearLocalId: i64,
    pub last_modified_at: String,
}

/// A pushed or pulled domain.
#[allow(non_snake_case)]
pub struct DomainPush {
    pub localId: i64,
    pub serverId: Option<String>,
    pub name: String,
    pub displayOrder: i64,
    pub last_modified_at: String,
}

/// A pushed or pulled student.
#[allow(non_snake_case)]
pub struct StudentPush {
    pub localId: i64,
    pub serverId: Option<String>,
    pub firstName: String,
    pub lastName: String,
    pub postName: String,
    pub gender: String,
    pub birthDate: Option<String>,
    pub birthplace: String,
    pub conduite: String,
    pub conduiteP1: String,
    pub conduiteP2: String,
    pub conduiteP3: String,
    pub conduiteP4: String,
    pub isAbandoned: bool,
    pub abandonReason: String,
    pub classLocalId: i64,
    pub last_modified_at: String,
}

/// A pushed or pulled subject.
#[allow(non_snake_case)]
pub struct SubjectPush {
    pub localId: i64,
    pub serverId: Option<String>,
    pub name: String,
    pub code: String,
    pub maxP1: i64,
    pub maxP2: i64,
    pub maxExam1: i64,
    pub maxP3: i64,
    pub maxP4: i64,
    pub maxExam2: i64,
    pub category: String,
    pub subDomain: String,
    pub domainLocalId: Option<i64>,
    pub classLocalId: i64,
    pub last_modified_at: String,
}

/// A pushed or pulled grade. The points are the store's opaque 64-bit
/// encoding of the numeric value.
#[allow(non_snake_case)]
pub struct GradePush {
    pub localId: i64,
    pub serverId: Option<String>,
    pub studentLocalId: i64,
    pub subjectLocalId: i64,
    pub period: String,
    pub points: u64,
    pub last_modified_at: String,
}

/// A pushed or pulled note.
#[allow(non_snake_case)]
pub struct NotePush {
    pub localId: i64,
    pub serverId: Option<String>,
    pub title: String,
    pub content: String,
    pub academicYearLocalId: Option<i64>,
    pub last_modified_at: String,
}

/// A pushed or pulled makeup record, with opaque 64-bit value encodings.
#[allow(non_snake_case)]
pub struct RepechagePush {
    pub localId: i64,
    pub serverId: Option<String>,
    pub studentLocalId: i64,
    pub subjectLocalId: i64,
    pub value: u64,
    pub percentage: u64,
    pub last_modified_at: String,
}

/// A deletion tombstone as pushed to the remote.
#[allow(non_snake_case)]
pub struct DeletionPush {
    pub localId: i64,
    pub tableName: String,
    pub serverId: String,
}

/// The outbound batch of one push: every dirty row per entity type, and
/// every pending deletion tombstone.
pub struct SyncData {
    pub academic_years: Vec<AcademicYearPush>,
    pub classes: Vec<ClassPush>,
    pub domains: Vec<DomainPush>,
    pub students: Vec<StudentPush>,
    pub subjects: Vec<SubjectPush>,
    pub grades: Vec<GradePush>,
    pub repechages: Vec<RepechagePush>,
    pub notes: Vec<NotePush>,
    pub deletions: Vec<DeletionPush>,
}

/// One acknowledgment of a pushed row: the local identifier it was sent
/// under, and the identifier the remote assigned.
#[allow(non_snake_case)]
pub struct ResultItem {
    pub localId: i64,
    pub serverId: String,
}

/// One acknowledgment of a pushed deletion.
#[allow(non_snake_case)]
pub struct DeletionAck {
    pub tableName: String,
    pub localId: i64,
    pub success: bool,
}

/// Per-entity-type acknowledgments of a push.
#[allow(non_snake_case)]
pub struct PushResults {
    pub academicYears: Option<Vec<ResultItem>>,
    pub classes: Option<Vec<ResultItem>>,
    pub domains: Option<Vec<ResultItem>>,
    pub students: Option<Vec<ResultItem>>,
    pub subjects: Option<Vec<ResultItem>>,
    pub grades: Option<Vec<ResultItem>>,
    pub repechages: Option<Vec<ResultItem>>,
    pub notes: Option<Vec<ResultItem>>,
}

/// The remote's response to a push.
pub struct PushResponse {
    pub success: bool,
    pub results: PushResults,
    pub deletions: Option<Vec<DeletionAck>>,
}

/// The authoritative snapshot returned by a pull.
#[allow(non_snake_case)]
pub struct PullData {
    pub academicYears: Vec<AcademicYearPush>,
    pub classes: Vec<ClassPush>,
    pub domains: Vec<DomainPush>,
    pub students: Vec<StudentPush>,
    pub subjects: Vec<SubjectPush>,
    pub grades: Vec<GradePush>,
    pub repechages: Vec<RepechagePush>,
    pub notes: Vec<NotePush>,
}

/// The remote's response to a pull.
pub struct PullResponse {
    pub success: bool,
    pub data: PullData,
}

/// The row a pulled academic year materializes as: never dirty, timestamps
/// at the column default.
pub open spec fn row_of_ay(p: AcademicYearPush) -> Row<AcademicYear> {
    Row {
        local_id: p.localId,
        server_id: p.serverId,
        is_dirty: false,
        updated_at: 0,
        last_modified_at: 0,
        data: AcademicYear {
            name: p.name,
            start_date: p.startDate,
            end_date: p.endDate,
            is_active: p.isCurrent,
        },
    }
}

/// The row a pulled class materializes as.
pub open spec fn row_of_class(p: ClassPush) -> Row<Class> {
    Row {
        local_id: p.localId,
        server_id: p.serverId,
        is_dirty: false,
        updated_at: 0,
        last_modified_at: 0,
        data: Class {
            name: p.name,
            level: p.level,
            option: p.option,
            section: p.section,
            academic_year_id: p.academicYearLocalId,
        },
    }
}

/// The row a pulled domain materializes as.
pub open spec fn row_of_domain(p: DomainPush) -> Row<Domain> {
    Row {
        local_id: p.localId,
        server_id: p.serverId,
        is_dirty: false,
        updated_at: 0,
        last_modified_at: 0,
        data: Domain { name: p.name, display_order: p.displayOrder },
    }
}

/// The row a pulled student materializes as.
pub open spec fn row_of_student(p: StudentPush) -> Row<Student> {
    Row {
        local_id: p.localId,
        server_id: p.serverId,
        is_dirty: false,
        updated_at: 0,
        last_modified_at: 0,
        data: Student {
            first_name: p.firstName,
            last_name: p.lastName,
            post_name: p.postName,
            gender: p.gender,
            birth_date: p.birthDate,
            birthplace: p.birthplace,
            conduite: p.conduite,
            conduite_p1: p.conduiteP1,
            conduite_p2: p.conduiteP2,
            conduite_p3: p.conduiteP3,
            conduite_p4: p.conduiteP4,
            is_abandoned: p.isAbandoned,
            abandon_reason: p.abandonReason,
            class_id: p.classLocalId,
        },
    }
}

/// The row a pulled subject materializes as.
pub open spec fn row_of_subject(p: SubjectPush) -> Row<Subject> {
    Row {
        local_id: p.localId,
        server_id: p.serverId,
        is_dirty: false,
        updated_at: 0,
        last_modified_at: 0,
        data: Subject {
            name: p.name,
            code: p.code,
            max_p1: p.maxP1,
            max_p2: p.maxP2,
            max_exam1: p.maxExam1,
            max_p3: p.maxP3,
            max_p4: p.maxP4,
            max_exam2: p.maxExam2,
            category: p.category,
            sub_domain: p.subDomain,
            domain_id: p.domainLocalId,
            class_id: p.classLocalId,
        },
    }
}

/// The row a pulled grade materializes as.
pub open spec fn row_of_grade(p: GradePush) -> Row<Grade> {
    Row {
        local_id: p.localId,
        server_id: p.serverId,
        is_dirty: false,
        updated_at: 0,
        last_modified_at: 0,
        data: Grade {
            student_id: p.studentLocalId,
            subject_id: p.subjectLocalId,
            period: p.period,
            value: p.points,
        },
    }
}

/// The row a pulled note materializes as.
pub open spec fn row_of_note(p: NotePush) -> Row<Note> {
    Row {
        local_id: p.localId,
        server_id: p.serverId,
        is_dirty: false,
        updated_at: 0,
        last_modified_at: 0,
        data: Note {
            title: p.title,
            content: p.content,
            academic_year_id: p.academicYearLocalId,
        },
    }
}

/// The row a pulled makeup record materializes as.
pub open spec fn row_of_repechage(p: RepechagePush) -> Row<Repechage> {
    Row {
        local_id: p.localId,
        server_id: p.serverId,
        is_dirty: false,
        updated_at: 0,
        last_modified_at: 0,
        data: Repechage {
            student_id: p.studentLocalId,
            subject_id: p.subjectLocalId,
            value: p.value,
            percentage: p.percentage,
        },
    }
}

/// Applies a converted pull payload to one table, row by row in payload
/// order, bumping the fresh-identifier counter past every pulled identifier.
pub fn apply_rows<T>(rows: &mut Vec<Row<T>>, items: Vec<Row<T>>, counter: &mut i64)
    requires
        unique_ids(old(rows)@),
        rows_ts_ok(old(rows)@),
        ids_below(old(rows)@, *old(counter)),
        0 < *old(counter) <= MAX_LOCAL_ID + 1,
        forall|j: int|
            0 <= j < items@.len() ==> 0 <= #[trigger] items@[j].local_id <= MAX_LOCAL_ID,
        forall|j: int|
            0 <= j < items@.len() ==> ts_ok(#[trigger] items@[j].updated_at) && ts_ok(
                items@[j].last_modified_at,
            ),
    ensures
        final(rows)@ == spec_apply_list(old(rows)@, items@),
        unique_ids(final(rows)@),
        rows_ts_ok(final(rows)@),
        ids_below(final(rows)@, *final(counter)),
        *old(counter) <= *final(counter) <= MAX_LOCAL_ID + 1,
{
    let ghost orig_rows = rows@;
    let ghost orig_items = items@;
    let mut items = items;
    while items.len() > 0
        invariant
            unique_ids(rows@),
            rows_ts_ok(rows@),
            ids_below(rows@, *counter),
            0 < *counter <= MAX_LOCAL_ID + 1,
            *old(counter) <= *counter,
            spec_apply_list(rows@, items@) == spec_apply_list(orig_rows, orig_items),
            forall|j: int|
                0 <= j < items@.len() ==> 0 <= #[trigger] items@[j].local_id <= MAX_LOCAL_ID,
            forall|j: int|
                0 <= j < items@.len() ==> ts_ok(#[trigger] items@[j].updated_at) && ts_ok(
                    items@[j].last_modified_at,
                ),
        decreases items@.len(),
    {
        let ghost prev_items = items@;
        let item = items.remove(0);
        proof {
            assert(item == prev_items[0]);
            assert(items@ =~= prev_items.drop_first());
        }
        if item.local_id >= *counter {
            *counter = item.local_id + 1;
        }
        let ghost prev_rows = rows@;
        let ghost cur = *counter;
        proof {
            lemma_apply_item_shape(prev_rows, item);
        }
        apply_item(rows, item);
        proof {
            let out = rows@;
            if has_id(prev_rows, item.local_id) {
                let i = idx_of(prev_rows, item.local_id);
                assert forall|k: int| 0 <= k < out.len() implies ts_ok(
                    #[trigger] out[k].updated_at,
                ) && ts_ok(out[k].last_modified_at) by {
                    if k == i {
                        assert(out[k] == item);
                    } else {
                        assert(out[k] == prev_rows[k]);
                        crate::store::lemma_rows_ts_ok_at(prev_rows, k);
                    }
                }
                assert forall|k: int| 0 <= k < out.len() implies #[trigger] out[k].local_id
                    < cur by {
                    if k == i {
                        assert(out[k] == item);
                    } else {
                        assert(out[k] == prev_rows[k]);
                        crate::model::lemma_ids_below_at(prev_rows, cur, k);
                    }
                }
            } else {
                assert forall|k: int| 0 <= k < out.len() implies ts_ok(
                    #[trigger] out[k].updated_at,
                ) && ts_ok(out[k].last_modified_at) by {
                    if k == prev_rows.len() {
                        assert(out[k] == item);
                    } else {
                        assert(out[k] == prev_rows[k]);
                        crate::store::lemma_rows_ts_ok_at(prev_rows, k);
                    }
                }
                assert forall|k: int| 0 <= k < out.len() implies #[trigger] out[k].local_id
                    < cur by {
                    if k == prev_rows.len() {
                        assert(out[k] == item);
                    } else {
                        assert(out[k] == prev_rows[k]);
                        crate::model::lemma_ids_below_at(prev_rows, cur, k);
                    }
                }
            }
        }
    }
    proof {
        assert(spec_apply_list(rows@, items@) == rows@);
    }
}

/// Whether a pull payload's identifiers are all in the range the store
/// accepts.
pub open spec fn pull_ids_ok(d: PullData) -> bool {
    &&& forall|j: int|
        0 <= j < d.academicYears@.len() ==> 0 <= #[trigger] d.academicYears@[j].localId
            <= MAX_LOCAL_ID
    &&& forall|j: int|
        0 <= j < d.classes@.len() ==> 0 <= #[trigger] d.classes@[j].localId <= MAX_LOCAL_ID
    &&& forall|j: int|
        0 <= j < d.domains@.len() ==> 0 <= #[trigger] d.domains@[j].localId <= MAX_LOCAL_ID
    &&& forall|j: int|
        0 <= j < d.students@.len() ==> 0 <= #[trigger] d.students@[j].localId <= MAX_LOCAL_ID
    &&& forall|j: int|
        0 <= j < d.subjects@.len() ==> 0 <= #[trigger] d.subjects@[j].localId <= MAX_LOCAL_ID
    &&& forall|j: int|
        0 <= j < d.grades@.len() ==> 0 <= #[trigger] d.grades@[j].localId <= MAX_LOCAL_ID
    &&& forall|j: int|
        0 <= j < d.repechages@.len() ==> 0 <= #[trigger] d.repechages@[j].localId <= MAX_LOCAL_ID
    &&& forall|j: int|
        0 <= j < d.notes@.len() ==> 0 <= #[trigger] d.notes@[j].localId <= MAX_LOCAL_ID
}

/// Applies a whole pulled snapshot to the store: every entity type is
/// replaced by identifier, every applied row is clean, rows the snapshot
/// does not name are untouched, and the tombstone log is untouched.
pub fn apply_pull(store: &mut Store, d: PullData)
    requires
        wf_store(*old(store)),
        pull_ids_ok(d),
    ensures
        wf_store(*final(store)),
        final(store).academic_years@ == spec_apply_list(
            old(store).academic_years@,
            d.academicYears@.map_values(|p: AcademicYearPush| row_of_ay(p)),
        ),
        final(store).classes@ == spec_apply_list(
            old(store).classes@,
            d.classes@.map_values(|p: ClassPush| row_of_class(p)),
        ),
        final(store).domains@ == spec_apply_list(
            old(store).domains@,
            d.domains@.map_values(|p: DomainPush| row_of_domain(p)),
        ),
        final(store).students@ == spec_apply_list(
            old(store).students@,
            d.students@.map_values(|p: StudentPush| row_of_student(p)),
        ),
        final(store).subjects@ == spec_apply_list(
            old(store).subjects@,
            d.subjects@.map_values(|p: SubjectPush| row_of_subject(p)),
        ),
        final(store).grades@ == spec_apply_list(
            old(store).grades@,
            d.grades@.map_values(|p: GradePush| row_of_grade(p)),
        ),
        final(store).repechages@ == spec_apply_list(
            old(store).repechages@,
            d.repechages@.map_values(|p: RepechagePush| row_of_repechage(p)),
        ),
        final(store).notes@ == spec_apply_list(
            old(store).notes@,
            d.notes@.map_values(|p: NotePush| row_of_note(p)),
        ),
        final(store).tombstones@ == old(store).tombstones@,
        old(store).next_local_id <= final(store).next_local_id,
{
    let PullData {
        academicYears,
        classes,
        domains,
        students,
        subjects,
        grades,
        repechages,
        notes,
    } = d;
    let ay_rows = convert_ay(academicYears);
    let class_rows = convert_class(classes);
    let domain_rows = convert_domain(domains);
    let student_rows = convert_student(students);
    let subject_rows = convert_subject(subjects);
    let grade_rows = convert_grade(grades);
    let repechage_rows = convert_repechage(repechages);
    let note_rows = convert_note(notes);
    apply_rows(&mut store.academic_years, ay_rows, &mut store.next_local_id);
    apply_rows(&mut store.classes, class_rows, &mut store.next_local_id);
    apply_rows(&mut store.domains, domain_rows, &mut store.next_local_id);
    apply_rows(&mut store.students, student_rows, &mut store.next_local_id);
    apply_rows(&mut store.subjects, subject_rows, &mut store.next_local_id);
    apply_rows(&mut store.grades, grade_rows, &mut store.next_local_id);
    apply_rows(&mut store.repechages, repechage_rows, &mut store.next_local_id);
    apply_rows(&mut store.notes, note_rows, &mut store.next_local_id);
}

/// The shape of a table after a list of push acknowledgments is recorded,
/// in list order.
pub open spec fn spec_ack_list<T>(rows: Seq<Row<T>>, acks: Seq<ResultItem>) -> Seq<Row<T>>
    decreases acks.len(),
{
    if acks.len() == 0 {
        rows
    } else {
        spec_ack_list(
            crate::store::spec_ack_item(rows, acks[0].localId, acks[0].serverId),
            acks.drop_first(),
        )
    }
}

/// Whether some acknowledgment names this local identifier.
pub open spec fn acked_in(acks: Seq<ResultItem>, id: i64) -> bool {
    exists|j: int| 0 <= j < acks.len() && #[trigger] acks[j].localId == id
}

/// The remote identifier of the first acknowledgment naming this local
/// identifier: the one a row without a remote identifier adopts.
pub open spec fn first_ack_sid(acks: Seq<ResultItem>, id: i64) -> String
    decreases acks.len(),
{
    if acks.len() == 0 {
        arbitrary()
    } else if acks[0].localId == id {
        acks[0].serverId
    } else {
        first_ack_sid(acks.drop_first(), id)
    }
}

/// A non-empty acknowledgment list names an identifier iff its head names it
/// or its tail does.
pub proof fn lemma_acked_in_cons(acks: Seq<ResultItem>, id: i64)
    requires
        acks.len() > 0,
    ensures
        acked_in(acks, id) <==> (acks[0].localId == id || acked_in(acks.drop_first(), id)),
{
    let rest = acks.drop_first();
    if acked_in(acks, id) {
        let j = choose|j: int| 0 <= j < acks.len() && #[trigger] acks[j].localId == id;
        if j > 0 {
            assert(rest[j - 1].localId == id);
        }
    }
    if acked_in(rest, id) {
        let j = choose|j: int| 0 <= j < rest.len() && #[trigger] rest[j].localId == id;
        assert(acks[j + 1].localId == id);
    }
    if acks[0].localId == id {
        assert(acked_in(acks, id));
    }
}

/// What recording a list of acknowledgments does, row by row: every
/// acknowledged row becomes clean and, if it had no remote identifier,
/// adopts the first acknowledged one; every other row — in particular every
/// other dirty row — is left exactly as it was.
pub proof fn lemma_ack_list_pointwise<T>(rows: Seq<Row<T>>, acks: Seq<ResultItem>)
    requires
        unique_ids(rows),
    ensures
        spec_ack_list(rows, acks).len() == rows.len(),
        forall|k: int|
            0 <= k < rows.len() && !acked_in(acks, #[trigger] rows[k].local_id) ==> spec_ack_list(
                rows,
                acks,
            )[k] == rows[k],
        forall|k: int|
            0 <= k < rows.len() && acked_in(acks, #[trigger] rows[k].local_id) ==> {
                let out = spec_ack_list(rows, acks)[k];
                &&& out.local_id == rows[k].local_id
                &&& !out.is_dirty
                &&& out.server_id == (if rows[k].server_id is Some {
                    rows[k].server_id
                } else {
                    Some(first_ack_sid(acks, rows[k].local_id))
                })
                &&& out.updated_at == rows[k].updated_at
                &&& out.last_modified_at == rows[k].last_modified_at
                &&& out.data == rows[k].data
            },
        unique_ids(spec_ack_list(rows, acks)),
    decreases acks.len(),
{
    if acks.len() > 0 {
        let a = acks[0];
        let rest = acks.drop_first();
        let r1 = crate::store::spec_ack_item(rows, a.localId, a.serverId);
        crate::store::lemma_ack_item_shape(rows, a.localId, a.serverId);
        lemma_ack_list_pointwise(r1, rest);
        let out = spec_ack_list(rows, acks);
        assert(out == spec_ack_list(r1, rest));
        assert forall|k: int|
            0 <= k < rows.len() && !acked_in(acks, #[trigger] rows[k].local_id) implies out[k]
            == rows[k] by {
            lemma_acked_in_cons(acks, rows[k].local_id);
            assert(r1[k] == rows[k]);
            assert(!acked_in(rest, r1[k].local_id));
        }
        assert forall|k: int|
            0 <= k < rows.len() && acked_in(acks, #[trigger] rows[k].local_id) implies {
            let o = out[k];
            &&& o.local_id == rows[k].local_id
            &&& !o.is_dirty
            &&& o.server_id == (if rows[k].server_id is Some {
                rows[k].server_id
            } else {
                Some(first_ack_sid(acks, rows[k].local_id))
            })
            &&& o.updated_at == rows[k].updated_at
            &&& o.last_modified_at == rows[k].last_modified_at
            &&& o.data == rows[k].data
        } by {
            let id = rows[k].local_id;
            lemma_acked_in_cons(acks, id);
            assert(r1[k].local_id == id);
            if a.localId == id {
                assert(r1[k] == crate::store::acked_row(rows[k], a.serverId));
                assert(first_ack_sid(acks, id) == a.serverId);
                if acked_in(rest, id) {
                    assert(r1[k].server_id is Some);
                } else {
                    assert(out[k] == r1[k]);
                }
            } else {
                assert(r1[k] == rows[k]);
                assert(acked_in(rest, id));
                assert(first_ack_sid(acks, id) == first_ack_sid(rest, id));
            }
        }
    }
}

/// Records a list of push acknowledgments on one table, in list order.
pub fn ack_rows<T>(rows: &mut Vec<Row<T>>, acks: Vec<ResultItem>)
    requires
        unique_ids(old(rows)@),
    ensures
        final(rows)@ == spec_ack_list(old(rows)@, acks@),
        unique_ids(final(rows)@),
{
    let ghost orig_rows = rows@;
    let ghost orig_acks = acks@;
    let mut acks = acks;
    while acks.len() > 0
        invariant
            unique_ids(rows@),
            spec_ack_list(rows@, acks@) == spec_ack_list(orig_rows, orig_acks),
        decreases acks@.len(),
    {
        let ghost prev = acks@;
        let a = acks.remove(0);
        proof {
            assert(a == prev[0]);
            assert(acks@ =~= prev.drop_first());
        }
        crate::store::ack_item(rows, a.localId, a.serverId);
    }
    proof {
        assert(spec_ack_list(rows@, acks@) == rows@);
    }
}

/// Whether some deletion acknowledgment reports this tombstone as
/// successfully propagated.
pub open spec fn del_acked(acks: Seq<DeletionAck>, id: i64) -> bool {
    exists|j: int| 0 <= j < acks.len() && #[trigger] acks[j].localId == id && acks[j].success
}

/// The tombstones that remain after the acknowledged ones are cleared, in
/// log order.
pub open spec fn spec_keep_tombs(ts: Seq<Tombstone>, acks: Seq<DeletionAck>) -> Seq<Tombstone>
    decreases ts.len(),
{
    if ts.len() == 0 {
        Seq::empty()
    } else {
        let rest = spec_keep_tombs(ts.drop_first(), acks);
        if del_acked(acks, ts[0].local_id) {
            rest
        } else {
            seq![ts[0]] + rest
        }
    }
}

fn del_ack_match(acks: &Vec<DeletionAck>, id: i64) -> (b: bool)
    ensures
        b == del_acked(acks@, id),
{
    let mut j: usize = 0;
    while j < acks.len()
        invariant
            j <= acks@.len(),
            !(exists|i: int| 0 <= i < j && #[trigger] acks@[i].localId == id && acks@[i].success),
        decreases acks@.len() - j,
    {
        if acks[j].localId == id && acks[j].success {
            return true;
        }
        j = j + 1;
    }
    false
}

/// Clears every tombstone that a deletion acknowledgment reports as
/// propagated; the rest stay, in order.
pub fn clear_acked_tombstones(tombstones: &mut Vec<Tombstone>, acks: &Vec<DeletionAck>)
    ensures
        final(tombstones)@ == spec_keep_tombs(old(tombstones)@, acks@),
{
    let ghost orig = tombstones@;
    let mut kept: Vec<Tombstone> = Vec::new();
    while tombstones.len() > 0
        invariant
            kept@ + spec_keep_tombs(tombstones@, acks@) =~= spec_keep_tombs(orig, acks@),
        decreases tombstones@.len(),
    {
        let ghost prev = tombstones@;
        let t = tombstones.remove(0);
        proof {
            assert(t == prev[0]);
            assert(tombstones@ =~= prev.drop_first());
        }
        if !del_ack_match(acks, t.local_id) {
            kept.push(t);
            proof {
                assert(kept@ + spec_keep_tombs(tombstones@, acks@) =~= spec_keep_tombs(
                    orig,
                    acks@,
                ));
            }
        }
    }
    proof {
        assert(tombstones@.len() == 0);
        assert(spec_keep_tombs(tombstones@, acks@) =~= Seq::<Tombstone>::empty());
        assert(kept@ =~= spec_keep_tombs(orig, acks@));
    }
    let mut kept = kept;
    core::mem::swap(tombstones, &mut kept);
}

/// Clearing acknowledged tombstones keeps the log well-formed: every
/// survivor is one of the original tombstones, so identifiers stay unique
/// and below the counter.
pub proof fn lemma_keep_tombs_ok(ts: Seq<Tombstone>, acks: Seq<DeletionAck>, n: i64)
    requires
        tombs_ok(ts, n),
    ensures
        tombs_ok(spec_keep_tombs(ts, acks), n),
        forall|k: int|
            0 <= k < spec_keep_tombs(ts, acks).len() ==> exists|i: int|
                0 <= i < ts.len() && #[trigger] spec_keep_tombs(ts, acks)[k] == ts[i],
    decreases ts.len(),
{
    if ts.len() > 0 {
        let rest = ts.drop_first();
        let kept_rest = spec_keep_tombs(rest, acks);
        assert(tombs_ok(rest, n)) by {
            assert forall|i: int, j: int|
                0 <= i < j < rest.len() implies #[trigger] rest[i].local_id
                != #[trigger] rest[j].local_id by {
                assert(rest[i] == ts[i + 1] && rest[j] == ts[j + 1]);
                assert(ts[i + 1].local_id != ts[j + 1].local_id);
            }
            assert forall|i: int| 0 <= i < rest.len() implies #[trigger] rest[i].local_id < n by {
                assert(rest[i] == ts[i + 1]);
                assert(ts[i + 1].local_id < n);
            }
        }
        lemma_keep_tombs_ok(rest, acks, n);
        let out = spec_keep_tombs(ts, acks);
        if del_acked(acks, ts[0].local_id) {
            assert forall|k: int| 0 <= k < out.len() implies exists|i: int|
                0 <= i < ts.len() && #[trigger] out[k] == ts[i] by {
                let i = choose|i: int| 0 <= i < rest.len() && #[trigger] kept_rest[k] == rest[i];
                assert(out[k] == ts[i + 1]);
            }
        } else {
            assert(out == seq![ts[0]] + kept_rest);
            assert forall|k: int| 0 <= k < out.len() implies exists|i: int|
                0 <= i < ts.len() && #[trigger] out[k] == ts[i] by {
                if k == 0 {
                    assert(out[0] == ts[0]);
                } else {
                    let i = choose|i: int|
                        0 <= i < rest.len() && #[trigger] kept_rest[k - 1] == rest[i];
                    assert(out[k] == ts[i + 1]);
                }
            }
            assert forall|p: int, q: int|
                0 <= p < q < out.len() implies #[trigger] out[p].local_id
                != #[trigger] out[q].local_id by {
                if p == 0 {
                    let j = choose|j: int|
                        0 <= j < rest.len() && #[trigger] kept_rest[q - 1] == rest[j];
                    assert(out[q] == ts[j + 1]);
                    assert(ts[0].local_id != ts[j + 1].local_id);
                } else {
                    assert(out[p] == kept_rest[p - 1] && out[q] == kept_rest[q - 1]);
                    assert(kept_rest[p - 1].local_id != kept_rest[q - 1].local_id);
                }
            }
            assert forall|k: int| 0 <= k < out.len() implies #[trigger] out[k].local_id < n by {
                if k == 0 {
                    assert(out[0] == ts[0]);
                } else {
                    assert(out[k] == kept_rest[k - 1]);
                    assert(kept_rest[k - 1].local_id < n);
                }
            }
        }
    }
}

/// The acknowledgments a push response carries for one entity type, absent
/// lists counting as empty.
pub open spec fn acks_of(o: Option<Vec<ResultItem>>) -> Seq<ResultItem> {
    match o {
        Some(v) => v@,
        None => Seq::empty(),
    }
}

/// The deletion acknowledgments of a response, absent lists counting as
/// empty.
pub open spec fn del_acks_of(o: Option<Vec<DeletionAck>>) -> Seq<DeletionAck> {
    match o {
        Some(v) => v@,
        None => Seq::empty(),
    }
}

/// Reconciles a push response into the store. On a successful response,
/// every acknowledged row becomes clean and adopts its assigned remote
/// identifier if it had none (a remote identifier, once set, never changes);
/// every unacknowledged row — dirty or not — is untouched; and every
/// tombstone reported as propagated is cleared. On an unsuccessful response
/// nothing changes.
pub fn process_push_response(store: &mut Store, response: PushResponse)
    requires
        wf_store(*old(store)),
    ensures
        wf_store(*final(store)),
        !response.success ==> *final(store) == *old(store),
        response.success ==> {
            &&& final(store).academic_years@ == spec_ack_list(
                old(store).academic_years@,
                acks_of(response.results.academicYears),
            )
            &&& final(store).classes@ == spec_ack_list(
                old(store).classes@,
                acks_of(response.results.classes),
            )
            &&& final(store).students@ == spec_ack_list(
                old(store).students@,
                acks_of(response.results.students),
            )
            &&& final(store).domains@ == spec_ack_list(
                old(store).domains@,
                acks_of(response.results.domains),
            )
            &&& final(store).subjects@ == spec_ack_list(
                old(store).subjects@,
                acks_of(response.results.subjects),
            )
            &&& final(store).grades@ == spec_ack_list(
                old(store).grades@,
                acks_of(response.results.grades),
            )
            &&& final(store).repechages@ == spec_ack_list(
                old(store).repechages@,
                acks_of(response.results.repechages),
            )
            &&& final(store).notes@ == spec_ack_list(
                old(store).notes@,
                acks_of(response.results.notes),
            )
            &&& final(store).tombstones@ == spec_keep_tombs(
                old(store).tombstones@,
                del_acks_of(response.deletions),
            )
            &&& final(store).next_local_id == old(store).next_local_id
        },
{
    if !response.success {
        return ;
    }
    let PushResponse { success: _, results, deletions } = response;
    let PushResults {
        academicYears,
        classes,
        domains,
        students,
        subjects,
        grades,
        repechages,
        notes,
    } = results;
    ack_table(&mut store.academic_years, academicYears, Ghost(store.next_local_id));
    ack_table(&mut store.classes, classes, Ghost(store.next_local_id));
    ack_table(&mut store.domains, domains, Ghost(store.next_local_id));
    ack_table(&mut store.students, students, Ghost(store.next_local_id));
    ack_table(&mut store.subjects, subjects, Ghost(store.next_local_id));
    ack_table(&mut store.grades, grades, Ghost(store.next_local_id));
    ack_table(&mut store.repechages, repechages, Ghost(store.next_local_id));
    ack_table(&mut store.notes, notes, Ghost(store.next_local_id));
    match deletions {
        Some(acks) => {
            let ghost orig_ts = store.tombstones@;
            clear_acked_tombstones(&mut store.tombstones, &acks);
            proof {
                lemma_keep_tombs_ok(orig_ts, acks@, store.next_local_id);
            }
        },
        None => {
            proof {
                assert(spec_keep_tombs(store.tombstones@, del_acks_of(None::<Vec<DeletionAck>>))
                    =~= store.tombstones@) by {
                    lemma_keep_no_acks(store.tombstones@);
                }
            }
        },
    }
}

/// With no acknowledgments, every tombstone stays.
proof fn lemma_keep_no_acks(ts: Seq<Tombstone>)
    ensures
        spec_keep_tombs(ts, Seq::empty()) =~= ts,
    decreases ts.len(),
{
    if ts.len() > 0 {
        lemma_keep_no_acks(ts.drop_first());
    }
}

/// Records one entity type's acknowledgments, treating an absent list as
/// empty, and carrying the table's well-formedness along.
fn ack_table<T>(rows: &mut Vec<Row<T>>, acks: Option<Vec<ResultItem>>, Ghost(bound): Ghost<i64>)
    requires
        wf_rows(old(rows)@),
        ids_below(old(rows)@, bound),
    ensures
        final(rows)@ == spec_ack_list(old(rows)@, acks_of(acks)),
        wf_rows(final(rows)@),
        ids_below(final(rows)@, bound),
{
    proof {
        lemma_ack_list_pointwise(old(rows)@, acks_of(acks));
    }
    match acks {
        Some(v) => {
            ack_rows(rows, v);
        },
        None => {},
    }
    proof {
        let out = rows@;
        let prev = old(rows)@;
        let a = acks_of(acks);
        assert(rows_ts_ok(prev) && unique_ids(prev));
        assert(out == spec_ack_list(prev, a));
        assert(out.len() == prev.len());
        assert forall|k: int| 0 <= k < out.len() implies ts_ok(#[trigger] out[k].updated_at)
            && ts_ok(out[k].last_modified_at) by {
            crate::store::lemma_rows_ts_ok_at(prev, k);
            if acked_in(a, prev[k].local_id) {
                assert(out[k].updated_at == prev[k].updated_at && out[k].last_modified_at
                    == prev[k].last_modified_at);
            } else {
                assert(out[k] == prev[k]);
            }
        }
        assert forall|k: int| 0 <= k < out.len() implies #[trigger] out[k].local_id < bound by {
            crate::model::lemma_ids_below_at(prev, bound, k);
            if acked_in(a, prev[k].local_id) {
                assert(out[k].local_id == prev[k].local_id);
            } else {
                assert(out[k] == prev[k]);
            }
        }
    }
}

fn convert_ay(mut v: Vec<AcademicYearPush>) -> (r: Vec<Row<AcademicYear>>)
    ensures
        r@ == v@.map_values(|p: AcademicYearPush| row_of_ay(p)),
{
    let ghost orig = v@;
    let mut r: Vec<Row<AcademicYear>> = Vec::new();
    while v.len() > 0
        invariant
            r@ + v@.map_values(|p: AcademicYearPush| row_of_ay(p)) =~= orig.map_values(
                |p: AcademicYearPush| row_of_ay(p),
            ),
        decreases v@.len(),
    {
        let ghost prev = v@;
        let p = v.remove(0);
        let AcademicYearPush { localId, serverId, name, startDate, endDate, isCurrent, last_modified_at: _ } =
            p;
        r.push(
            Row {
                local_id: localId,
                server_id: serverId,
                is_dirty: false,
                updated_at: 0,
                last_modified_at: 0,
                data: AcademicYear {
                    name,
                    start_date: startDate,
                    end_date: endDate,
                    is_active: isCurrent,
                },
            },
        );
        proof {
            assert(v@ =~= prev.drop_first());
            assert(r@.last() == row_of_ay(p));
            assert(r@ + v@.map_values(|q: AcademicYearPush| row_of_ay(q)) =~= orig.map_values(
                |q: AcademicYearPush| row_of_ay(q),
            ));
        }
    }
    proof {
        assert(r@ =~= orig.map_values(|p: AcademicYearPush| row_of_ay(p)));
    }
    r
}

fn convert_class(mut v: Vec<ClassPush>) -> (r: Vec<Row<Class>>)
    ensures
        r@ == v@.map_values(|p: ClassPush| row_of_class(p)),
{
    let ghost orig = v@;
    let mut r: Vec<Row<Class>> = Vec::new();
    while v.len() > 0
        invariant
            r@ + v@.map_values(|p: ClassPush| row_of_class(p)) =~= orig.map_values(
                |p: ClassPush| row_of_class(p),
            ),
        decreases v@.len(),
    {
        let ghost prev = v@;
        let p = v.remove(0);
        let ClassPush { localId, serverId, name, level, option, section, academicYearLocalId, last_modified_at: _ } =
            p;
        r.push(
            Row {
                local_id: localId,
                server_id: serverId,
                is_dirty: false,
                updated_at: 0,
                last_modified_at: 0,
                data: Class { name, level, option, section, academic_year_id: academicYearLocalId },
            },
        );
        proof {
            assert(v@ =~= prev.drop_first());
            assert(r@.last() == row_of_class(p));
            assert(r@ + v@.map_values(|q: ClassPush| row_of_class(q)) =~= orig.map_values(
                |q: ClassPush| row_of_class(q),
            ));
        }
    }
    proof {
        assert(r@ =~= orig.map_values(|p: ClassPush| row_of_class(p)));
    }
    r
}

fn convert_domain(mut v: Vec<DomainPush>) -> (r: Vec<Row<Domain>>)
    ensures
        r@ == v@.map_values(|p: DomainPush| row_of_domain(p)),
{
    let ghost orig = v@;
    let mut r: Vec<Row<Domain>> = Vec::new();
    while v.len() > 0
        invariant
            r@ + v@.map_values(|p: DomainPush| row_of_domain(p)) =~= orig.map_values(
                |p: DomainPush| row_of_domain(p),
            ),
        decreases v@.len(),
    {
        let ghost prev = v@;
        let p = v.remove(0);
        let DomainPush { localId, serverId, name, displayOrder, last_modified_at: _ } = p;
        r.push(
            Row {
                local_id: localId,
                server_id: serverId,
                is_dirty: false,
                updated_at: 0,
                last_modified_at: 0,
                data: Domain { name, display_order: displayOrder },
            },
        );
        proof {
            assert(v@ =~= prev.drop_first());
            assert(r@.last() == row_of_domain(p));
            assert(r@ + v@.map_values(|q: DomainPush| row_of_domain(q)) =~= orig.map_values(
                |q: DomainPush| row_of_domain(q),
            ));
        }
    }
    proof {
        assert(r@ =~= orig.map_values(|p: DomainPush| row_of_domain(p)));
    }
    r
}

fn convert_student(mut v: Vec<StudentPush>) -> (r: Vec<Row<Student>>)
    ensures
        r@ == v@.map_values(|p: StudentPush| row_of_student(p)),
{
    let ghost orig = v@;
    let mut r: Vec<Row<Student>> = Vec::new();
    while v.len() > 0
        invariant
            r@ + v@.map_values(|p: StudentPush| row_of_student(p)) =~= orig.map_values(
                |p: StudentPush| row_of_student(p),
            ),
        decreases v@.len(),
    {
        let ghost prev = v@;
        let p = v.remove(0);
        let StudentPush {
            localId,
            serverId,
            firstName,
            lastName,
            postName,
            gender,
            birthDate,
            birthplace,
            conduite,
            conduiteP1,
            conduiteP2,
            conduiteP3,
            conduiteP4,
            isAbandoned,
            abandonReason,
            classLocalId,
            last_modified_at: _,
        } = p;
        r.push(
            Row {
                local_id: localId,
                server_id: serverId,
                is_dirty: false,
                updated_at: 0,
                last_modified_at: 0,
                data: Student {
                    first_name: firstName,
                    last_name: lastName,
                    post_name: postName,
                    gender,
                    birth_date: birthDate,
                    birthplace,
                    conduite,
                    conduite_p1: conduiteP1,
                    conduite_p2: conduiteP2,
                    conduite_p3: conduiteP3,
                    conduite_p4: conduiteP4,
                    is_abandoned: isAbandoned,
                    abandon_reason: abandonReason,
                    class_id: classLocalId,
                },
            },
        );
        proof {
            assert(v@ =~= prev.drop_first());
            assert(r@.last() == row_of_student(p));
            assert(r@ + v@.map_values(|q: StudentPush| row_of_student(q)) =~= orig.map_values(
                |q: StudentPush| row_of_student(q),
            ));
        }
    }
    proof {
        assert(r@ =~= orig.map_values(|p: StudentPush| row_of_student(p)));
    }
    r
}

fn convert_subject(mut v: Vec<SubjectPush>) -> (r: Vec<Row<Subject>>)
    ensures
        r@ == v@.map_values(|p: SubjectPush| row_of_subject(p)),
{
    let ghost orig = v@;
    let mut r: Vec<Row<Subject>> = Vec::new();
    while v.len() > 0
        invariant
            r@ + v@.map_values(|p: SubjectPush| row_of_subject(p)) =~= orig.map_values(
                |p: SubjectPush| row_of_subject(p),
            ),
        decreases v@.len(),
    {
        let ghost prev = v@;
        let p = v.remove(0);
        let SubjectPush {
            localId,
            serverId,
            name,
            code,
            maxP1,
            maxP2,
            maxExam1,
            maxP3,
            maxP4,
            maxExam2,
            category,
            subDomain,
            domainLocalId,
            classLocalId,
            last_modified_at: _,
        } = p;
        r.push(
            Row {
                local_id: localId,
                server_id: serverId,
                is_dirty: false,
                updated_at: 0,
                last_modified_at: 0,
                data: Subject {
                    name,
                    code,
                    max_p1: maxP1,
                    max_p2: maxP2,
                    max_exam1: maxExam1,
                    max_p3: maxP3,
                    max_p4: maxP4,
                    max_exam2: maxExam2,
                    category,
                    sub_domain: subDomain,
                    domain_id: domainLocalId,
                    class_id: classLocalId,
                },
            },
        );
        proof {
            assert(v@ =~= prev.drop_first());
            assert(r@.last() == row_of_subject(p));
            assert(r@ + v@.map_values(|q: SubjectPush| row_of_subject(q)) =~= orig.map_values(
                |q: SubjectPush| row_of_subject(q),
            ));
        }
    }
    proof {
        assert(r@ =~= orig.map_values(|p: SubjectPush| row_of_subject(p)));
    }
    r
}

fn convert_grade(mut v: Vec<GradePush>) -> (r: Vec<Row<Grade>>)
    ensures
        r@ == v@.map_values(|p: GradePush| row_of_grade(p)),
{
    let ghost orig = v@;
    let mut r: Vec<Row<Grade>> = Vec::new();
    while v.len() > 0
        invariant
            r@ + v@.map_values(|p: GradePush| row_of_grade(p)) =~= orig.map_values(
                |p: GradePush| row_of_grade(p),
            ),
        decreases v@.len(),
    {
        let ghost prev = v@;
        let p = v.remove(0);
        let GradePush { localId, serverId, studentLocalId, subjectLocalId, period, points, last_modified_at: _ } =
            p;
        r.push(
            Row {
                local_id: localId,
                server_id: serverId,
                is_dirty: false,
                updated_at: 0,
                last_modified_at: 0,
                data: Grade {
                    student_id: studentLocalId,
                    subject_id: subjectLocalId,
                    period,
                    value: points,
                },
            },
        );
        proof {
            assert(v@ =~= prev.drop_first());
            assert(r@.last() == row_of_grade(p));
            assert(r@ + v@.map_values(|q: GradePush| row_of_grade(q)) =~= orig.map_values(
                |q: GradePush| row_of_grade(q),
            ));
        }
    }
    proof {
        assert(r@ =~= orig.map_values(|p: GradePush| row_of_grade(p)));
    }
    r
}

fn convert_repechage(mut v: Vec<RepechagePush>) -> (r: Vec<Row<Repechage>>)
    ensures
        r@ == v@.map_values(|p: RepechagePush| row_of_repechage(p)),
{
    let ghost orig = v@;
    let mut r: Vec<Row<Repechage>> = Vec::new();
    while v.len() > 0
        invariant
            r@ + v@.map_values(|p: RepechagePush| row_of_repechage(p)) =~= orig.map_values(
                |p: RepechagePush| row_of_repechage(p),
            ),
        decreases v@.len(),
    {
        let ghost prev = v@;
        let p = v.remove(0);
        let RepechagePush { localId, serverId, studentLocalId, subjectLocalId, value, percentage, last_modified_at: _ } =
            p;
        r.push(
            Row {
                local_id: localId,
                server_id: serverId,
                is_dirty: false,
                updated_at: 0,
                last_modified_at: 0,
                data: Repechage {
                    student_id: studentLocalId,
                    subject_id: subjectLocalId,
                    value,
                    percentage,
                },
            },
        );
        proof {
            assert(v@ =~= prev.drop_first());
            assert(r@.last() == row_of_repechage(p));
            assert(r@ + v@.map_values(|q: RepechagePush| row_of_repechage(q)) =~= orig.map_values(
                |q: RepechagePush| row_of_repechage(q),
            ));
        }
    }
    proof {
        assert(r@ =~= orig.map_values(|p: RepechagePush| row_of_repechage(p)));
    }
    r
}

fn convert_note(mut v: Vec<NotePush>) -> (r: Vec<Row<Note>>)
    ensures
        r@ == v@.map_values(|p: NotePush| row_of_note(p)),
{
    let ghost orig = v@;
    let mut r: Vec<Row<Note>> = Vec::new();
    while v.len() > 0
        invariant
            r@ + v@.map_values(|p: NotePush| row_of_note(p)) =~= orig.map_values(
                |p: NotePush| row_of_note(p),
            ),
        decreases v@.len(),
    {
        let ghost prev = v@;
        let p = v.remove(0);
        let NotePush { localId, serverId, title, content, academicYearLocalId, last_modified_at: _ } =
            p;
        r.push(
            Row {
                local_id: localId,
                server_id: serverId,
                is_dirty: false,
                updated_at: 0,
                last_modified_at: 0,
                data: Note { title, content, academic_year_id: academicYearLocalId },
            },
        );
        proof {
            assert(v@ =~= prev.drop_first());
            assert(r@.last() == row_of_note(p));
            assert(r@ + v@.map_values(|q: NotePush| row_of_note(q)) =~= orig.map_values(
                |q: NotePush| row_of_note(q),
            ));
        }
    }
    proof {
        assert(r@ =~= orig.map_values(|p: NotePush| row_of_note(p)));
    }
    r
}

/// The printable name of a table, as the remote knows it.
pub open spec fn spec_table_name(t: TableId) -> Seq<char> {
    match t {
        TableId::AcademicYears => "academic_years"@,
        TableId::Classes => "classes"@,
        TableId::Students => "students"@,
        TableId::Subjects => "subjects"@,
        TableId::Grades => "grades"@,
        TableId::Notes => "notes"@,
        TableId::Domains => "domains"@,
        TableId::Repechages => "repechages"@,
    }
}

/// Renders a table identifier as its table name.
pub fn table_name(t: TableId) -> (r: String)
    ensures
        r@ == spec_table_name(t),
{
    let r: &'static str = match t {
        TableId::AcademicYears => "academic_years",
        TableId::Classes => "classes",
        TableId::Students => "students",
        TableId::Subjects => "subjects",
        TableId::Grades => "grades",
        TableId::Notes => "notes",
        TableId::Domains => "domains",
        TableId::Repechages => "repechages",
    };
    r.to_owned()
}

/// A pushed academic year mirrors a dirty row.
pub open spec fn ay_push_matches(p: AcademicYearPush, r: Row<AcademicYear>) -> bool {
    &&& p.localId == r.local_id
    &&& p.serverId == r.server_id
    &&& p.name == r.data.name
    &&& p.startDate == r.data.start_date
    &&& p.endDate == r.data.end_date
    &&& p.isCurrent == r.data.is_active
    &&& p.last_modified_at@ == rfc3339_of(r.last_modified_at)
}

/// A pushed class mirrors a dirty row.
pub open spec fn class_push_matches(p: ClassPush, r: Row<Class>) -> bool {
    &&& p.localId == r.local_id
    &&& p.serverId == r.server_id
    &&& p.name == r.data.name
    &&& p.level == r.data.level
    &&& p.option == r.data.option
    &&& p.section == r.data.section
    &&& p.academicYearLocalId == r.data.academic_year_id
    &&& p.last_modified_at@ == rfc3339_of(r.last_modified_at)
}

/// A pushed domain mirrors a dirty row.
pub open spec fn domain_push_matches(p: DomainPush, r: Row<Domain>) -> bool {
    &&& p.localId == r.local_id
    &&& p.serverId == r.server_id
    &&& p.name == r.data.name
    &&& p.displayOrder == r.data.display_order
    &&& p.last_modified_at@ == rfc3339_of(r.last_modified_at)
}

/// A pushed student mirrors a dirty row.
pub open spec fn student_push_matches(p: StudentPush, r: Row<Student>) -> bool {
    &&& p.localId == r.local_id
    &&& p.serverId == r.server_id
    &&& p.firstName == r.data.first_name
    &&& p.lastName == r.data.last_name
    &&& p.postName == r.data.post_name
    &&& p.gender == r.data.gender
    &&& p.birthDate == r.data.birth_date
    &&& p.birthplace == r.data.birthplace
    &&& p.conduite == r.data.conduite
    &&& p.conduiteP1 == r.data.conduite_p1
    &&& p.conduiteP2 == r.data.conduite_p2
    &&& p.conduiteP3 == r.data.conduite_p3
    &&& p.conduiteP4 == r.data.conduite_p4
    &&& p.isAbandoned == r.data.is_abandoned
    &&& p.abandonReason == r.data.abandon_reason
    &&& p.classLocalId == r.data.class_id
    &&& p.last_modified_at@ == rfc3339_of(r.last_modified_at)
}

/// A pushed subject mirrors a dirty row.
pub open spec fn subject_push_matches(p: SubjectPush, r: Row<Subject>) -> bool {
    &&& p.localId == r.local_id
    &&& p.serverId == r.server_id
    &&& p.name == r.data.name
    &&& p.code == r.data.code
    &&& p.maxP1 == r.data.max_p1
    &&& p.maxP2 == r.data.max_p2
    &&& p.maxExam1 == r.data.max_exam1
    &&& p.maxP3 == r.data.max_p3
    &&& p.maxP4 == r.data.max_p4
    &&& p.maxExam2 == r.data.max_exam2
    &&& p.category == r.data.category
    &&& p.subDomain == r.data.sub_domain
    &&& p.domainLocalId == r.data.domain_id
    &&& p.classLocalId == r.data.class_id
    &&& p.last_modified_at@ == rfc3339_of(r.last_modified_at)
}

/// A pushed grade mirrors a dirty row.
pub open spec fn grade_push_matches(p: GradePush, r: Row<Grade>) -> bool {
    &&& p.localId == r.local_id
    &&& p.serverId == r.server_id
    &&& p.studentLocalId == r.data.student_id
    &&& p.subjectLocalId == r.data.subject_id
    &&& p.period == r.data.period
    &&& p.points == r.data.value
    &&& p.last_modified_at@ == rfc3339_of(r.last_modified_at)
}

/// A pushed note mirrors a dirty row.
pub open spec fn note_push_matches(p: NotePush, r: Row<Note>) -> bool {
    &&& p.localId == r.local_id
    &&& p.serverId == r.server_id
    &&& p.title == r.data.title
    &&& p.content == r.data.content
    &&& p.academicYearLocalId == r.data.academic_year_id
    &&& p.last_modified_at@ == rfc3339_of(r.last_modified_at)
}

/// A pushed makeup record mirrors a dirty row.
pub open spec fn repechage_push_matches(p: RepechagePush, r: Row<Repechage>) -> bool {
    &&& p.localId == r.local_id
    &&& p.serverId == r.server_id
    &&& p.studentLocalId == r.data.student_id
    &&& p.subjectLocalId == r.data.subject_id
    &&& p.value == r.data.value
    &&& p.percentage == r.data.percentage
    &&& p.last_modified_at@ == rfc3339_of(r.last_modified_at)
}

/// A pushed deletion mirrors a tombstone.
pub open spec fn del_push_matches(p: DeletionPush, t: Tombstone) -> bool {
    &&& p.localId == t.local_id
    &&& p.serverId == t.server_id
    &&& p.tableName@ == spec_table_name(t.table)
}

fn collect_ay(rows: &Vec<Row<AcademicYear>>) -> (r: Vec<AcademicYearPush>)
    ensures
        r@.len() == spec_dirty(rows@).len(),
        forall|k: int|
            0 <= k < r@.len() ==> ay_push_matches(#[trigger] r@[k], spec_dirty(rows@)[k]),
{
    let mut out: Vec<AcademicYearPush> = Vec::new();
    let mut i: usize = 0;
    while i < rows.len()
        invariant
            i <= rows@.len(),
            out@.len() == spec_dirty(rows@.take(i as int)).len(),
            forall|k: int|
                0 <= k < out@.len() ==> ay_push_matches(
                    #[trigger] out@[k],
                    spec_dirty(rows@.take(i as int))[k],
                ),
        decreases rows@.len() - i,
    {
        proof {
            assert(rows@.take(i + 1).drop_last() =~= rows@.take(i as int));
            assert(rows@.take(i + 1).last() == rows@[i as int]);
        }
        let row = &rows[i];
        if row.is_dirty {
            let lm = crate::time::format_rfc3339_ms(row.last_modified_at);
            out.push(
                AcademicYearPush {
                    localId: row.local_id,
                    serverId: clone_opt_string(&row.server_id),
                    name: row.data.name.clone(),
                    startDate: row.data.start_date.clone(),
                    endDate: row.data.end_date.clone(),
                    isCurrent: row.data.is_active,
                    last_modified_at: lm,
                },
            );
        }
        i = i + 1;
    }
    proof {
        assert(rows@.take(rows@.len() as int) =~= rows@);
    }
    out
}

fn collect_class(rows: &Vec<Row<Class>>) -> (r: Vec<ClassPush>)
    ensures
        r@.len() == spec_dirty(rows@).len(),
        forall|k: int|
            0 <= k < r@.len() ==> class_push_matches(#[trigger] r@[k], spec_dirty(rows@)[k]),
{
    let mut out: Vec<ClassPush> = Vec::new();
    let mut i: usize = 0;
    while i < rows.len()
        invariant
            i <= rows@.len(),
            out@.len() == spec_dirty(rows@.take(i as int)).len(),
            forall|k: int|
                0 <= k < out@.len() ==> class_push_matches(
                    #[trigger] out@[k],
                    spec_dirty(rows@.take(i as int))[k],
                ),
        decreases rows@.len() - i,
    {
        proof {
            assert(rows@.take(i + 1).drop_last() =~= rows@.take(i as int));
            assert(rows@.take(i + 1).last() == rows@[i as int]);
        }
        let row = &rows[i];
        if row.is_dirty {
            let lm = crate::time::format_rfc3339_ms(row.last_modified_at);
            out.push(
                ClassPush {
                    localId: row.local_id,
                    serverId: clone_opt_string(&row.server_id),
                    name: row.data.name.clone(),
                    level: row.data.level.clone(),
                    option: row.data.option.clone(),
                    section: row.data.section.clone(),
                    academicYearLocalId: row.data.academic_year_id,
                    last_modified_at: lm,
                },
            );
        }
        i = i + 1;
    }
    proof {
        assert(rows@.take(rows@.len() as int) =~= rows@);
    }
    out
}

fn collect_domain(rows: &Vec<Row<Domain>>) -> (r: Vec<DomainPush>)
    ensures
        r@.len() == spec_dirty(rows@).len(),
        forall|k: int|
            0 <= k < r@.len() ==> domain_push_matches(#[trigger] r@[k], spec_dirty(rows@)[k]),
{
    let mut out: Vec<DomainPush> = Vec::new();
    let mut i: usize = 0;
    while i < rows.len()
        invariant
            i <= rows@.len(),
            out@.len() == spec_dirty(rows@.take(i as int)).len(),
            forall|k: int|
                0 <= k < out@.len() ==> domain_push_matches(
                    #[trigger] out@[k],
                    spec_dirty(rows@.take(i as int))[k],
                ),
        decreases rows@.len() - i,
    {
        proof {
            assert(rows@.take(i + 1).drop_last() =~= rows@.take(i as int));
            assert(rows@.take(i + 1).last() == rows@[i as int]);
        }
        let row = &rows[i];
        if row.is_dirty {
            let lm = crate::time::format_rfc3339_ms(row.last_modified_at);
            out.push(
                DomainPush {
                    localId: row.local_id,
                    serverId: clone_opt_string(&row.server_id),
                    name: row.data.name.clone(),
                    displayOrder: row.data.display_order,
                    last_modified_at: lm,
                },
            );
        }
        i = i + 1;
    }
    proof {
        assert(rows@.take(rows@.len() as int) =~= rows@);
    }
    out
}

fn collect_student(rows: &Vec<Row<Student>>) -> (r: Vec<StudentPush>)
    ensures
        r@.len() == spec_dirty(rows@).len(),
        forall|k: int|
            0 <= k < r@.len() ==> student_push_matches(#[trigger] r@[k], spec_dirty(rows@)[k]),
{
    let mut out: Vec<StudentPush> = Vec::new();
    let mut i: usize = 0;
    while i < rows.len()
        invariant
            i <= rows@.len(),
            out@.len() == spec_dirty(rows@.take(i as int)).len(),
            forall|k: int|
                0 <= k < out@.len() ==> student_push_matches(
                    #[trigger] out@[k],
                    spec_dirty(rows@.take(i as int))[k],
                ),
        decreases rows@.len() - i,
    {
        proof {
            assert(rows@.take(i + 1).drop_last() =~= rows@.take(i as int));
            assert(rows@.take(i + 1).last() == rows@[i as int]);
        }
        let row = &rows[i];
        if row.is_dirty {
            let lm = crate::time::format_rfc3339_ms(row.last_modified_at);
            out.push(
                StudentPush {
                    localId: row.local_id,
                    serverId: clone_opt_string(&row.server_id),
                    firstName: row.data.first_name.clone(),
                    lastName: row.data.last_name.clone(),
                    postName: row.data.post_name.clone(),
                    gender: row.data.gender.clone(),
                    birthDate: clone_opt_string(&row.data.birth_date),
                    birthplace: row.data.birthplace.clone(),
                    conduite: row.data.conduite.clone(),
                    conduiteP1: row.data.conduite_p1.clone(),
                    conduiteP2: row.data.conduite_p2.clone(),
                    conduiteP3: row.data.conduite_p3.clone(),
                    conduiteP4: row.data.conduite_p4.clone(),
                    isAbandoned: row.data.is_abandoned,
                    abandonReason: row.data.abandon_reason.clone(),
                    classLocalId: row.data.class_id,
                    last_modified_at: lm,
                },
            );
        }
        i = i + 1;
    }
    proof {
        assert(rows@.take(rows@.len() as int) =~= rows@);
    }
    out
}

fn collect_subject(rows: &Vec<Row<Subject>>) -> (r: Vec<SubjectPush>)
    ensures
        r@.len() == spec_dirty(rows@).len(),
        forall|k: int|
            0 <= k < r@.len() ==> subject_push_matches(#[trigger] r@[k], spec_dirty(rows@)[k]),
{
    let mut out: Vec<SubjectPush> = Vec::new();
    let mut i: usize = 0;
    while i < rows.len()
        invariant
            i <= rows@.len(),
            out@.len() == spec_dirty(rows@.take(i as int)).len(),
            forall|k: int|
                0 <= k < out@.len() ==> subject_push_matches(
                    #[trigger] out@[k],
                    spec_dirty(rows@.take(i as int))[k],
                ),
        decreases rows@.len() - i,
    {
        proof {
            assert(rows@.take(i + 1).drop_last() =~= rows@.take(i as int));
            assert(rows@.take(i + 1).last() == rows@[i as int]);
        }
        let row = &rows[i];
        if row.is_dirty {
            let lm = crate::time::format_rfc3339_ms(row.last_modified_at);
            out.push(
                SubjectPush {
                    localId: row.local_id,
                    serverId: clone_opt_string(&row.server_id),
                    name: row.data.name.clone(),
                    code: row.data.code.clone(),
                    maxP1: row.data.max_p1,
                    maxP2: row.data.max_p2,
                    maxExam1: row.data.max_exam1,
                    maxP3: row.data.max_p3,
                    maxP4: row.data.max_p4,
                    maxExam2: row.data.max_exam2,
                    category: row.data.category.clone(),
                    subDomain: row.data.sub_domain.clone(),
                    domainLocalId: clone_opt_i64(&row.data.domain_id),
                    classLocalId: row.data.class_id,
                    last_modified_at: lm,
                },
            );
        }
        i = i + 1;
    }
    proof {
        assert(rows@.take(rows@.len() as int) =~= rows@);
    }
    out
}

fn collect_grade(rows: &Vec<Row<Grade>>) -> (r: Vec<GradePush>)
    ensures
        r@.len() == spec_dirty(rows@).len(),
        forall|k: int|
            0 <= k < r@.len() ==> grade_push_matches(#[trigger] r@[k], spec_dirty(rows@)[k]),
{
    let mut out: Vec<GradePush> = Vec::new();
    let mut i: usize = 0;
    while i < rows.len()
        invariant
            i <= rows@.len(),
            out@.len() == spec_dirty(rows@.take(i as int)).len(),
            forall|k: int|
                0 <= k < out@.len() ==> grade_push_matches(
                    #[trigger] out@[k],
                    spec_dirty(rows@.take(i as int))[k],
                ),
        decreases rows@.len() - i,
    {
        proof {
            assert(rows@.take(i + 1).drop_last() =~= rows@.take(i as int));
            assert(rows@.take(i + 1).last() == rows@[i as int]);
        }
        let row = &rows[i];
        if row.is_dirty {
            let lm = crate::time::format_rfc3339_ms(row.last_modified_at);
            out.push(
                GradePush {
                    localId: row.local_id,
                    serverId: clone_opt_string(&row.server_id),
                    studentLocalId: row.data.student_id,
                    subjectLocalId: row.data.subject_id,
                    period: row.data.period.clone(),
                    points: row.data.value,
                    last_modified_at: lm,
                },
            );
        }
        i = i + 1;
    }
    proof {
        assert(rows@.take(rows@.len() as int) =~= rows@);
    }
    out
}

fn collect_note(rows: &Vec<Row<Note>>) -> (r: Vec<NotePush>)
    ensures
        r@.len() == spec_dirty(rows@).len(),
        forall|k: int|
            0 <= k < r@.len() ==> note_push_matches(#[trigger] r@[k], spec_dirty(rows@)[k]),
{
    let mut out: Vec<NotePush> = Vec::new();
    let mut i: usize = 0;
    while i < rows.len()
        invariant
            i <= rows@.len(),
            out@.len() == spec_dirty(rows@.take(i as int)).len(),
            forall|k: int|
                0 <= k < out@.len() ==> note_push_matches(
                    #[trigger] out@[k],
                    spec_dirty(rows@.take(i as int))[k],
                ),
        decreases rows@.len() - i,
    {
        proof {
            assert(rows@.take(i + 1).drop_last() =~= rows@.take(i as int));
            assert(rows@.take(i + 1).last() == rows@[i as int]);
        }
        let row = &rows[i];
        if row.is_dirty {
            let lm = crate::time::format_rfc3339_ms(row.last_modified_at);
            out.push(
                NotePush {
                    localId: row.local_id,
                    serverId: clone_opt_string(&row.server_id),
                    title: row.data.title.clone(),
                    content: row.data.content.clone(),
                    academicYearLocalId: clone_opt_i64(&row.data.academic_year_id),
                    last_modified_at: lm,
                },
            );
        }
        i = i + 1;
    }
    proof {
        assert(rows@.take(rows@.len() as int) =~= rows@);
    }
    out
}

fn collect_repechage(rows: &Vec<Row<Repechage>>) -> (r: Vec<RepechagePush>)
    ensures
        r@.len() == spec_dirty(rows@).len(),
        forall|k: int|
            0 <= k < r@.len() ==> repechage_push_matches(#[trigger] r@[k], spec_dirty(rows@)[k]),
{
    let mut out: Vec<RepechagePush> = Vec::new();
    let mut i: usize = 0;
    while i < rows.len()
        invariant
            i <= rows@.len(),
            out@.len() == spec_dirty(rows@.take(i as int)).len(),
            forall|k: int|
                0 <= k < out@.len() ==> repechage_push_matches(
                    #[trigger] out@[k],
                    spec_dirty(rows@.take(i as int))[k],
                ),
        decreases rows@.len() - i,
    {
        proof {
            assert(rows@.take(i + 1).drop_last() =~= rows@.take(i as int));
            assert(rows@.take(i + 1).last() == rows@[i as int]);
        }
        let row = &rows[i];
        if row.is_dirty {
            let lm = crate::time::format_rfc3339_ms(row.last_modified_at);
            out.push(
                RepechagePush {
                    localId: row.local_id,
                    serverId: clone_opt_string(&row.server_id),
                    studentLocalId: row.data.student_id,
                    subjectLocalId: row.data.subject_id,
                    value: row.data.value,
                    percentage: row.data.percentage,
                    last_modified_at: lm,
                },
            );
        }
        i = i + 1;
    }
    proof {
        assert(rows@.take(rows@.len() as int) =~= rows@);
    }
    out
}

fn collect_deletions(ts: &Vec<Tombstone>) -> (r: Vec<DeletionPush>)
    ensures
        r@.len() == ts@.len(),
        forall|k: int| 0 <= k < r@.len() ==> del_push_matches(#[trigger] r@[k], ts@[k]),
{
    let mut out: Vec<DeletionPush> = Vec::new();
    let mut i: usize = 0;
    while i < ts.len()
        invariant
            i <= ts@.len(),
            out@.len() == i,
            forall|k: int| 0 <= k < i ==> del_push_matches(#[trigger] out@[k], ts@[k]),
        decreases ts@.len() - i,
    {
        let t = &ts[i];
        out.push(
            DeletionPush {
                localId: t.local_id,
                tableName: table_name(t.table),
                serverId: t.server_id.clone(),
            },
        );
        i = i + 1;
    }
    out
}

/// Collects the outbound batch of one push: exactly the dirty rows of every
/// table, in table order, and every pending tombstone.
pub fn collect_push_data(store: &Store) -> (d: SyncData)
    ensures
        d.academic_years@.len() == spec_dirty(store.academic_years@).len(),
        forall|k: int|
            0 <= k < d.academic_years@.len() ==> ay_push_matches(
                #[trigger] d.academic_years@[k],
                spec_dirty(store.academic_years@)[k],
            ),
        d.classes@.len() == spec_dirty(store.classes@).len(),
        forall|k: int|
            0 <= k < d.classes@.len() ==> class_push_matches(
                #[trigger] d.classes@[k],
                spec_dirty(store.classes@)[k],
            ),
        d.domains@.len() == spec_dirty(store.domains@).len(),
        forall|k: int|
            0 <= k < d.domains@.len() ==> domain_push_matches(
                #[trigger] d.domains@[k],
                spec_dirty(store.domains@)[k],
            ),
        d.students@.len() == spec_dirty(store.students@).len(),
        forall|k: int|
            0 <= k < d.students@.len() ==> student_push_matches(
                #[trigger] d.students@[k],
                spec_dirty(store.students@)[k],
            ),
        d.subjects@.len() == spec_dirty(store.subjects@).len(),
        forall|k: int|
            0 <= k < d.subjects@.len() ==> subject_push_matches(
                #[trigger] d.subjects@[k],
                spec_dirty(store.subjects@)[k],
            ),
        d.grades@.len() == spec_dirty(store.grades@).len(),
        forall|k: int|
            0 <= k < d.grades@.len() ==> grade_push_matches(
                #[trigger] d.grades@[k],
                spec_dirty(store.grades@)[k],
            ),
        d.repechages@.len() == spec_dirty(store.repechages@).len(),
        forall|k: int|
            0 <= k < d.repechages@.len() ==> repechage_push_matches(
                #[trigger] d.repechages@[k],
                spec_dirty(store.repechages@)[k],
            ),
        d.notes@.len() == spec_dirty(store.notes@).len(),
        forall|k: int|
            0 <= k < d.notes@.len() ==> note_push_matches(
                #[trigger] d.notes@[k],
                spec_dirty(store.notes@)[k],
            ),
        d.deletions@.len() == store.tombstones@.len(),
        forall|k: int|
            0 <= k < d.deletions@.len() ==> del_push_matches(
                #[trigger] d.deletions@[k],
                store.tombstones@[k],
            ),
{
    SyncData {
        academic_years: collect_ay(&store.academic_years),
        classes: collect_class(&store.classes),
        domains: collect_domain(&store.domains),
        students: collect_student(&store.students),
        subjects: collect_subject(&store.subjects),
        grades: collect_grade(&store.grades),
        repechages: collect_repechage(&store.repechages),
        notes: collect_note(&store.notes),
        deletions: collect_deletions(&store.tombstones),
    }
}

/// The dirty count and overdue flag reported to the caller.
#[allow(non_snake_case)]
pub struct SyncStatusResult {
    pub overdue: bool,
    pub dirtyCount: i32,
}

/// The dirty rows counted by the status query, over the tables it inspects.
pub open spec fn total_dirty(s: Store) -> int {
    dirty_count(s.academic_years@) + dirty_count(s.classes@) + dirty_count(s.students@)
        + dirty_count(s.subjects@) + dirty_count(s.grades@) + dirty_count(s.notes@) + dirty_count(
        s.domains@,
    ) as int
}

/// Whether any inspected table has a dirty row more than a day old at `now`.
pub open spec fn any_table_overdue(s: Store, now: i64) -> bool {
    ||| spec_overdue(s.academic_years@, now)
    ||| spec_overdue(s.classes@, now)
    ||| spec_overdue(s.students@, now)
    ||| spec_overdue(s.subjects@, now)
    ||| spec_overdue(s.grades@, now)
    ||| spec_overdue(s.notes@, now)
    ||| spec_overdue(s.domains@, now)
}

/// Reports how much local state awaits a push and whether any of it has been
/// waiting more than a day.
pub fn check_sync_status(store: &Store, now: i64) -> (r: SyncStatusResult)
    requires
        wf_store(*store),
        ts_ok(now),
        total_dirty(*store) <= i32::MAX,
    ensures
        r.dirtyCount == total_dirty(*store),
        r.overdue == any_table_overdue(*store, now),
{
    let c1 = count_dirty(&store.academic_years);
    let c2 = count_dirty(&store.classes);
    let c3 = count_dirty(&store.students);
    let c4 = count_dirty(&store.subjects);
    let c5 = count_dirty(&store.grades);
    let c6 = count_dirty(&store.notes);
    let c7 = count_dirty(&store.domains);
    let total: usize = c1 + c2 + c3 + c4 + c5 + c6 + c7;
    let overdue = any_overdue(&store.academic_years, now) || any_overdue(&store.classes, now)
        || any_overdue(&store.students, now) || any_overdue(&store.subjects, now) || any_overdue(
        &store.grades,
        now,
    ) || any_overdue(&store.notes, now) || any_overdue(&store.domains, now);
    SyncStatusResult { overdue, dirtyCount: total as i32 }
}

/// The states of one reconciliation cycle.
#[derive(Clone, Copy, PartialEq, Eq, Structural, Debug)]
pub enum SyncPhase {
    Idle,
    Authenticating,
    Pulling,
    Applying,
    Collecting,
    Pushing,
    Reconciling,
    Failed,
}

/// The cycle's transition relation: each step on success moves to the next
/// phase (back to idle after reconciling); a failure in any working phase
/// moves to the failed state.
pub open spec fn spec_advance_phase(p: SyncPhase, ok: bool) -> SyncPhase {
    if ok {
        match p {
            SyncPhase::Idle => SyncPhase::Authenticating,
            SyncPhase::Authenticating => SyncPhase::Pulling,
            SyncPhase::Pulling => SyncPhase::Applying,
            SyncPhase::Applying => SyncPhase::Collecting,
            SyncPhase::Collecting => SyncPhase::Pushing,
            SyncPhase::Pushing => SyncPhase::Reconciling,
            SyncPhase::Reconciling => SyncPhase::Idle,
            SyncPhase::Failed => SyncPhase::Failed,
        }
    } else {
        match p {
            SyncPhase::Idle => SyncPhase::Idle,
            SyncPhase::Failed => SyncPhase::Failed,
            _ => SyncPhase::Failed,
        }
    }
}

/// Advances the cycle's phase by one step's outcome.
pub fn advance_phase(p: SyncPhase, ok: bool) -> (n: SyncPhase)
    ensures
        n == spec_advance_phase(p, ok),
{
    if ok {
        match p {
            SyncPhase::Idle => SyncPhase::Authenticating,
            SyncPhase::Authenticating => SyncPhase::Pulling,
            SyncPhase::Pulling => SyncPhase::Applying,
            SyncPhase::Applying => SyncPhase::Collecting,
            SyncPhase::Collecting => SyncPhase::Pushing,
            SyncPhase::Pushing => SyncPhase::Reconciling,
            SyncPhase::Reconciling => SyncPhase::Idle,
            SyncPhase::Failed => SyncPhase::Failed,
        }
    } else {
        match p {
            SyncPhase::Idle => SyncPhase::Idle,
            SyncPhase::Failed => SyncPhase::Failed,
            _ => SyncPhase::Failed,
        }
    }
}

/// Decides whether a cycle may start: both the school identity and the
/// bearer token must be present, else the caller reports the not-linked
/// failure and retries nothing.
pub fn check_credentials(school_id: Option<String>, token: Option<String>) -> (r: Option<
    (String, String),
>)
    ensures
        (r is Some) == (school_id is Some && token is Some),
        r matches Some(c) ==> (school_id matches Some(s) && c.0 == s) && (token matches Some(t)
            && c.1 == t),
{
    match (school_id, token) {
        (Some(s), Some(t)) => Some((s, t)),
        _ => None,
    }
}

} // verus!

use schoolsync::model::Store;
use schoolsync::store::Row;
use schoolsync::sync::{
    advance_phase, apply_pull, check_credentials, check_sync_status, collect_push_data,
    process_push_response, AcademicYearPush, ClassPush, DeletionAck, GradePush, PullData,
    PushResponse, PushResults, ResultItem, StudentPush, SubjectPush, SyncPhase,
};

fn empty_pull() -> PullData {
    PullData {
        academicYears: Vec::new(),
        classes: Vec::new(),
        domains: Vec::new(),
        students: Vec::new(),
        subjects: Vec::new(),
        grades: Vec::new(),
        repechages: Vec::new(),
        notes: Vec::new(),
    }
}

fn ay(id: i64, name: &str, active: bool) -> AcademicYearPush {
    AcademicYearPush {
        localId: id,
        serverId: Some(format!("srv-ay-{id}")),
        name: name.to_string(),
        startDate: "2024-09-01".to_string(),
        endDate: "2025-06-30".to_string(),
        isCurrent: active,
        last_modified_at: "1970-01-01 00:00:00".to_string(),
    }
}

fn class(id: i64, name: &str, year: i64) -> ClassPush {
    ClassPush {
        localId: id,
        serverId: Some(format!("srv-cl-{id}")),
        name: name.to_string(),
        level: "3".to_string(),
        option: "A".to_string(),
        section: "Primaire".to_string(),
        academicYearLocalId: year,
        last_modified_at: "1970-01-01 00:00:00".to_string(),
    }
}

fn student(id: i64, class_id: i64) -> StudentPush {
    StudentPush {
        localId: id,
        serverId: None,
        firstName: format!("First{id}"),
        lastName: format!("Last{id}"),
        postName: String::new(),
        gender: "F".to_string(),
        birthDate: None,
        birthplace: String::new(),
        conduite: String::new(),
        conduiteP1: String::new(),
        conduiteP2: String::new(),
        conduiteP3: String::new(),
        conduiteP4: String::new(),
        isAbandoned: false,
        abandonReason: String::new(),
        classLocalId: class_id,
        last_modified_at: "1970-01-01 00:00:00".to_string(),
    }
}

fn subject(id: i64, class_id: i64) -> SubjectPush {
    SubjectPush {
        localId: id,
        serverId: None,
        name: format!("Subject{id}"),
        code: String::new(),
        maxP1: 10,
        maxP2: 10,
        maxExam1: 20,
        maxP3: 10,
        maxP4: 10,
        maxExam2: 20,
        category: String::new(),
        subDomain: String::new(),
        domainLocalId: None,
        classLocalId: class_id,
        last_modified_at: "1970-01-01 00:00:00".to_string(),
    }
}

fn grade(id: i64, student: i64, subject: i64, period: &str, value: u64) -> GradePush {
    GradePush {
        localId: id,
        serverId: None,
        studentLocalId: student,
        subjectLocalId: subject,
        period: period.to_string(),
        points: value,
        last_modified_at: "1970-01-01 00:00:00".to_string(),
    }
}

fn grade_fields(r: &Row<schoolsync::model::Grade>) -> (i64, Option<String>, bool, i64, i64, u64) {
    (
        r.local_id,
        r.server_id.clone(),
        r.is_dirty,
        r.data.student_id,
        r.data.subject_id,
        r.data.value,
    )
}

#[test]
fn pull_materializes_clean_rows() {
    let mut store = Store::new();
    let mut d = empty_pull();
    d.academicYears.push(ay(1, "2024-2025", true));
    d.classes.push(class(2, "3A", 1));
    apply_pull(&mut store, d);
    assert_eq!(store.academic_years.len(), 1);
    assert_eq!(store.classes.len(), 1);
    assert!(!store.academic_years[0].is_dirty);
    assert!(!store.classes[0].is_dirty);
    assert_eq!(store.academic_years[0].server_id.as_deref(), Some("srv-ay-1"));
    assert!(store.next_local_id > 2);
}

#[test]
fn pull_apply_twice_is_idempotent() {
    let make = || {
        let mut d = empty_pull();
        d.academicYears.push(ay(1, "2024-2025", true));
        d.classes.push(class(2, "3A", 1));
        d.classes.push(class(3, "4B", 1));
        d.students.push(student(4, 2));
        d.grades.push(grade(5, 4, 6, "P1", 12));
        d.subjects.push(subject(6, 2));
        d
    };
    let mut once = Store::new();
    apply_pull(&mut once, make());
    let mut twice = Store::new();
    apply_pull(&mut twice, make());
    apply_pull(&mut twice, make());
    assert_eq!(once.academic_years.len(), twice.academic_years.len());
    assert_eq!(once.classes.len(), twice.classes.len());
    assert_eq!(once.students.len(), twice.students.len());
    assert_eq!(once.subjects.len(), twice.subjects.len());
    assert_eq!(once.grades.len(), twice.grades.len());
    for (a, b) in once.classes.iter().zip(twice.classes.iter()) {
        assert_eq!(a.local_id, b.local_id);
        assert_eq!(a.data.name, b.data.name);
        assert_eq!(a.is_dirty, b.is_dirty);
    }
    for (a, b) in once.grades.iter().zip(twice.grades.iter()) {
        assert_eq!(grade_fields(a), grade_fields(b));
    }
    assert_eq!(once.tombstones.len(), twice.tombstones.len());
}

#[test]
fn pull_overwrites_by_identifier() {
    let mut store = Store::new();
    let mut d1 = empty_pull();
    d1.classes.push(class(2, "Old name", 1));
    apply_pull(&mut store, d1);
    let mut d2 = empty_pull();
    d2.classes.push(class(2, "New name", 1));
    apply_pull(&mut store, d2);
    assert_eq!(store.classes.len(), 1);
    assert_eq!(store.classes[0].data.name, "New name");
}

#[test]
fn collect_gathers_exactly_dirty_rows() {
    let mut store = Store::new();
    let mut d = empty_pull();
    d.classes.push(class(2, "3A", 1));
    d.students.push(student(3, 2));
    d.subjects.push(subject(4, 2));
    apply_pull(&mut store, d);
    // pulled rows are clean: nothing to push yet
    let batch = collect_push_data(&store);
    assert_eq!(batch.classes.len(), 0);
    assert_eq!(batch.students.len(), 0);
    assert_eq!(batch.subjects.len(), 0);
    // a local grade entry is dirty and gets collected
    let req = schoolsync::service::BatchGradeRequest {
        updates: vec![schoolsync::service::GradeUpdate {
            student_id: 3,
            subject_id: 4,
            period: "P1".to_string(),
            value: 14,
        }],
        sender_id: None,
    };
    schoolsync::service::handle_grade_batch(&mut store, &req, 0).unwrap();
    let batch = collect_push_data(&store);
    assert_eq!(batch.grades.len(), 1);
    assert_eq!(batch.grades[0].studentLocalId, 3);
    assert_eq!(batch.grades[0].subjectLocalId, 4);
    assert_eq!(batch.grades[0].points, 14);
    assert_eq!(batch.grades[0].serverId, None);
    // last_modified_at is rendered through the clock formatting, not echoed
    assert_eq!(batch.grades[0].last_modified_at, "1970-01-01T00:00:00+00:00");
}

fn store_with_three_dirty_grades() -> (Store, Vec<i64>) {
    let mut store = Store::new();
    let mut d = empty_pull();
    d.classes.push(class(2, "3A", 1));
    d.students.push(student(3, 2));
    d.subjects.push(subject(4, 2));
    apply_pull(&mut store, d);
    let req = schoolsync::service::BatchGradeRequest {
        updates: vec![
            schoolsync::service::GradeUpdate {
                student_id: 3,
                subject_id: 4,
                period: "P1".to_string(),
                value: 10,
            },
            schoolsync::service::GradeUpdate {
                student_id: 3,
                subject_id: 4,
                period: "P2".to_string(),
                value: 11,
            },
            schoolsync::service::GradeUpdate {
                student_id: 3,
                subject_id: 4,
                period: "P3".to_string(),
                value: 12,
            },
        ],
        sender_id: None,
    };
    schoolsync::service::handle_grade_batch(&mut store, &req, 0).unwrap();
    let ids: Vec<i64> = store.grades.iter().map(|g| g.local_id).collect();
    (store, ids)
}

#[test]
fn push_ack_clears_dirty_and_sets_server_id() {
    let (mut store, ids) = store_with_three_dirty_grades();
    assert_eq!(ids.len(), 3);
    let response = PushResponse {
        success: true,
        results: PushResults {
            academicYears: None,
            classes: None,
            domains: None,
            students: None,
            subjects: None,
            grades: Some(vec![
                ResultItem { localId: ids[0], serverId: "srv-1".to_string() },
                ResultItem { localId: ids[1], serverId: "srv-2".to_string() },
            ]),
            repechages: None,
            notes: None,
        },
        deletions: None,
    };
    process_push_response(&mut store, response);
    let g0 = store.grades.iter().find(|g| g.local_id == ids[0]).unwrap();
    let g1 = store.grades.iter().find(|g| g.local_id == ids[1]).unwrap();
    let g2 = store.grades.iter().find(|g| g.local_id == ids[2]).unwrap();
    assert!(!g0.is_dirty);
    assert!(!g1.is_dirty);
    assert_eq!(g0.server_id.as_deref(), Some("srv-1"));
    assert_eq!(g1.server_id.as_deref(), Some("srv-2"));
    // the unacknowledged row stays dirty, with no server identifier
    assert!(g2.is_dirty);
    assert_eq!(g2.server_id, None);
}

#[test]
fn push_ack_never_changes_existing_server_id() {
    let (mut store, ids) = store_with_three_dirty_grades();
    let ack = |sid: &str, id: i64| PushResponse {
        success: true,
        results: PushResults {
            academicYears: None,
            classes: None,
            domains: None,
            students: None,
            subjects: None,
            grades: Some(vec![ResultItem { localId: id, serverId: sid.to_string() }]),
            repechages: None,
            notes: None,
        },
        deletions: None,
    };
    process_push_response(&mut store, ack("srv-first", ids[0]));
    process_push_response(&mut store, ack("srv-second", ids[0]));
    let g0 = store.grades.iter().find(|g| g.local_id == ids[0]).unwrap();
    assert_eq!(g0.server_id.as_deref(), Some("srv-first"));
}

#[test]
fn failed_push_response_changes_nothing() {
    let (mut store, ids) = store_with_three_dirty_grades();
    let response = PushResponse {
        success: false,
        results: PushResults {
            academicYears: None,
            classes: None,
            domains: None,
            students: None,
            subjects: None,
            grades: Some(vec![ResultItem {
                localId: ids[0],
                serverId: "srv-1".to_string(),
            }]),
            repechages: None,
            notes: None,
        },
        deletions: None,
    };
    process_push_response(&mut store, response);
    assert!(store.grades.iter().all(|g| g.is_dirty));
}

#[test]
fn deletion_produces_one_tombstone_for_synced_rows_only() {
    let (mut store, ids) = store_with_three_dirty_grades();
    // give the first grade a server identifier through an acknowledgment
    let response = PushResponse {
        success: true,
        results: PushResults {
            academicYears: None,
            classes: None,
            domains: None,
            students: None,
            subjects: None,
            grades: Some(vec![ResultItem {
                localId: ids[0],
                serverId: "srv-1".to_string(),
            }]),
            repechages: None,
            notes: None,
        },
        deletions: None,
    };
    process_push_response(&mut store, response);
    assert_eq!(store.tombstones.len(), 0);
    // deleting the synced row appends exactly one tombstone
    assert!(schoolsync::model::delete_grade(&mut store, ids[0], 1_000));
    assert_eq!(store.tombstones.len(), 1);
    assert_eq!(store.tombstones[0].server_id, "srv-1");
    assert_eq!(store.tombstones[0].deleted_at, 1_000);
    // deleting a never-pushed row appends none
    assert!(schoolsync::model::delete_grade(&mut store, ids[1], 1_000));
    assert_eq!(store.tombstones.len(), 1);
    // deleting a missing row does nothing
    assert!(!schoolsync::model::delete_grade(&mut store, 9_999, 1_000));
    assert_eq!(store.tombstones.len(), 1);
    assert_eq!(store.grades.len(), 1);
}

#[test]
fn acknowledged_tombstones_are_cleared() {
    let (mut store, ids) = store_with_three_dirty_grades();
    let response = PushResponse {
        success: true,
        results: PushResults {
            academicYears: None,
            classes: None,
            domains: None,
            students: None,
            subjects: None,
            grades: Some(vec![
                ResultItem { localId: ids[0], serverId: "srv-1".to_string() },
                ResultItem { localId: ids[1], serverId: "srv-2".to_string() },
            ]),
            repechages: None,
            notes: None,
        },
        deletions: None,
    };
    process_push_response(&mut store, response);
    schoolsync::model::delete_grade(&mut store, ids[0], 0);
    schoolsync::model::delete_grade(&mut store, ids[1], 0);
    assert_eq!(store.tombstones.len(), 2);
    let t0 = store.tombstones[0].local_id;
    // the outbound batch carries the pending deletions
    let batch = collect_push_data(&store);
    assert_eq!(batch.deletions.len(), 2);
    assert_eq!(batch.deletions[0].tableName, "grades");
    assert_eq!(batch.deletions[0].serverId, "srv-1");
    // only the acknowledged tombstone is cleared
    let response = PushResponse {
        success: true,
        results: PushResults {
            academicYears: None,
            classes: None,
            domains: None,
            students: None,
            subjects: None,
            grades: None,
            repechages: None,
            notes: None,
        },
        deletions: Some(vec![DeletionAck {
            tableName: "grades".to_string(),
            localId: t0,
            success: true,
        }]),
    };
    process_push_response(&mut store, response);
    assert_eq!(store.tombstones.len(), 1);
    assert_eq!(store.tombstones[0].server_id, "srv-2");
}

#[test]
fn sync_status_counts_dirty_rows() {
    let (store, _) = store_with_three_dirty_grades();
    let status = check_sync_status(&store, 1_000);
    assert_eq!(status.dirtyCount, 3);
    assert!(!status.overdue);
    // more than a day after the writes, the dirty rows count as overdue
    let status = check_sync_status(&store, 86_400_001);
    assert_eq!(status.dirtyCount, 3);
    assert!(status.overdue);
}

#[test]
fn phase_machine_walks_the_cycle() {
    let mut p = SyncPhase::Idle;
    for expected in [
        SyncPhase::Authenticating,
        SyncPhase::Pulling,
        SyncPhase::Applying,
        SyncPhase::Collecting,
        SyncPhase::Pushing,
        SyncPhase::Reconciling,
        SyncPhase::Idle,
    ] {
        p = advance_phase(p, true);
        assert_eq!(p, expected);
    }
    let failed = advance_phase(SyncPhase::Pushing, false);
    assert_eq!(failed, SyncPhase::Failed);
    assert_eq!(advance_phase(SyncPhase::Idle, false), SyncPhase::Idle);
}

#[test]
fn credentials_must_both_be_present() {
    assert!(check_credentials(None, None).is_none());
    assert!(check_credentials(Some("school".to_string()), None).is_none());
    assert!(check_credentials(None, Some("token".to_string())).is_none());
    let (s, t) =
        check_credentials(Some("school".to_string()), Some("token".to_string())).unwrap();
    assert_eq!(s, "school");
    assert_eq!(t, "token");
}

#[test]
fn external_updates_are_captured_as_dirty() {
    let mut store = Store::new();
    let mut d = empty_pull();
    d.classes.push(class(2, "3A", 1));
    apply_pull(&mut store, d);
    assert!(!store.classes[0].is_dirty);
    // an external edit of a clean row is re-marked dirty, timestamps stamped
    let edited = schoolsync::model::Class {
        name: "3A renamed".to_string(),
        level: "3".to_string(),
        option: "A".to_string(),
        section: "Primaire".to_string(),
        academic_year_id: 1,
    };
    assert!(schoolsync::store::update_row_data(&mut store.classes, 2, edited, 5_000));
    assert!(store.classes[0].is_dirty);
    assert_eq!(store.classes[0].data.name, "3A renamed");
    assert_eq!(store.classes[0].last_modified_at, 5_000);
    assert_eq!(store.classes[0].updated_at, 5_000);
    // a second edit of the already-dirty row does not re-fire the capture:
    // the timestamps stay as the capture wrote them
    let edited = schoolsync::model::Class {
        name: "3A again".to_string(),
        level: "3".to_string(),
        option: "A".to_string(),
        section: "Primaire".to_string(),
        academic_year_id: 1,
    };
    assert!(schoolsync::store::update_row_data(&mut store.classes, 2, edited, 9_000));
    assert!(store.classes[0].is_dirty);
    assert_eq!(store.classes[0].data.name, "3A again");
    assert_eq!(store.classes[0].last_modified_at, 5_000);
    // an edit of a missing row changes nothing
    assert!(!schoolsync::store::update_row_data(&mut store.classes, 99, schoolsync::model::Class {
        name: String::new(),
        level: String::new(),
        option: String::new(),
        section: String::new(),
        academic_year_id: 1,
    }, 9_000));
    assert_eq!(store.classes.len(), 1);
}

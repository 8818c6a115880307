use schoolsync::broadcast::{get_server_info, ListenerRegistry, ServerState};
use schoolsync::model::Store;
use schoolsync::service::{
    handle_grade_batch, list_classes, BatchGradeRequest, GradeUpdate, ServiceError,
};
use schoolsync::sync::{apply_pull, AcademicYearPush, ClassPush, PullData, StudentPush, SubjectPush};

fn empty_pull() -> PullData {
    PullData {
        academicYears: Vec::new(),
        classes: Vec::new(),
        domains: Vec::new(),
        students: Vec::new(),
        subjects: Vec::new(),
        grades: Vec::new(),
        repechages: Vec::new(),
        notes: Vec::new(),
    }
}

fn ay(id: i64, active: bool) -> AcademicYearPush {
    AcademicYearPush {
        localId: id,
        serverId: None,
        name: format!("Year {id}"),
        startDate: "2024-09-01".to_string(),
        endDate: "2025-06-30".to_string(),
        isCurrent: active,
        last_modified_at: "1970-01-01 00:00:00".to_string(),
    }
}

fn class(id: i64, name: &str, year: i64) -> ClassPush {
    ClassPush {
        localId: id,
        serverId: None,
        name: name.to_string(),
        level: "3".to_string(),
        option: "A".to_string(),
        section: "Primaire".to_string(),
        academicYearLocalId: year,
        last_modified_at: "1970-01-01 00:00:00".to_string(),
    }
}

fn student(id: i64, class_id: i64, abandoned: bool) -> StudentPush {
    StudentPush {
        localId: id,
        serverId: None,
        firstName: format!("First{id}"),
        lastName: format!("Last{id}"),
        postName: String::new(),
        gender: "M".to_string(),
        birthDate: None,
        birthplace: String::new(),
        conduite: String::new(),
        conduiteP1: String::new(),
        conduiteP2: String::new(),
        conduiteP3: String::new(),
        conduiteP4: String::new(),
        isAbandoned: abandoned,
        abandonReason: String::new(),
        classLocalId: class_id,
        last_modified_at: "1970-01-01 00:00:00".to_string(),
    }
}

fn subject(id: i64, class_id: i64) -> SubjectPush {
    SubjectPush {
        localId: id,
        serverId: None,
        name: format!("Subject{id}"),
        code: String::new(),
        maxP1: 10,
        maxP2: 10,
        maxExam1: 20,
        maxP3: 10,
        maxP4: 10,
        maxExam2: 20,
        category: String::new(),
        subDomain: String::new(),
        domainLocalId: None,
        classLocalId: class_id,
        last_modified_at: "1970-01-01 00:00:00".to_string(),
    }
}

fn classroom_store() -> Store {
    // students 5 and 6 in class 2, subject 9 in class 2; student 6 abandoned
    let mut store = Store::new();
    let mut d = empty_pull();
    d.academicYears.push(ay(1, true));
    d.classes.push(class(2, "3A", 1));
    d.students.push(student(5, 2, false));
    d.students.push(student(6, 2, true));
    d.subjects.push(subject(9, 2));
    apply_pull(&mut store, d);
    store
}

fn upd(student: i64, subject: i64, period: &str, value: u64) -> GradeUpdate {
    GradeUpdate { student_id: student, subject_id: subject, period: period.to_string(), value }
}

#[test]
fn grade_upsert_overwrites_in_place() {
    let mut store = classroom_store();
    let first = BatchGradeRequest {
        updates: vec![upd(5, 9, "P1", 14)],
        sender_id: None,
    };
    handle_grade_batch(&mut store, &first, 0).unwrap();
    let second = BatchGradeRequest {
        updates: vec![upd(5, 9, "P1", 16)],
        sender_id: None,
    };
    handle_grade_batch(&mut store, &second, 0).unwrap();
    let matching: Vec<_> = store
        .grades
        .iter()
        .filter(|g| g.data.student_id == 5 && g.data.subject_id == 9 && g.data.period == "P1")
        .collect();
    assert_eq!(matching.len(), 1);
    assert_eq!(matching[0].data.value, 16);
    assert!(matching[0].is_dirty);
    assert_eq!(store.grades.len(), 1);
}

#[test]
fn failing_batch_commits_nothing_and_emits_nothing() {
    let mut store = classroom_store();
    let grades_before = store.grades.len();
    let req = BatchGradeRequest {
        updates: vec![
            upd(5, 9, "P1", 14),
            // student 777 does not exist: a constraint violation
            upd(777, 9, "P1", 15),
            upd(5, 9, "P2", 16),
        ],
        sender_id: Some("tablet-1".to_string()),
    };
    let r = handle_grade_batch(&mut store, &req, 0);
    match r {
        Err(ServiceError::Constraint) => {}
        _ => panic!("expected a constraint rejection"),
    }
    // all-or-nothing: no grade of the batch was committed, and since the
    // handler returned no event, nothing is broadcast
    assert_eq!(store.grades.len(), grades_before);
}

#[test]
fn listing_classes_follows_the_active_year() {
    let mut store = Store::new();
    let mut d = empty_pull();
    d.academicYears.push(ay(1, false));
    d.academicYears.push(ay(2, true));
    d.classes.push(class(10, "Active-year class", 2));
    d.classes.push(class(11, "Other-year class", 1));
    apply_pull(&mut store, d);
    let listed = list_classes(&store);
    assert_eq!(listed.len(), 1);
    assert_eq!(listed[0].id, 10);
    assert_eq!(listed[0].name, "Active-year class");
}

#[test]
fn listing_classes_without_active_year_lists_all() {
    let mut store = Store::new();
    let mut d = empty_pull();
    d.academicYears.push(ay(1, false));
    d.academicYears.push(ay(2, false));
    d.classes.push(class(10, "A", 2));
    d.classes.push(class(11, "B", 1));
    apply_pull(&mut store, d);
    let listed = list_classes(&store);
    assert_eq!(listed.len(), 2);
}

#[test]
fn class_full_reads_roster_subjects_and_grades() {
    let mut store = classroom_store();
    let req = BatchGradeRequest {
        updates: vec![upd(5, 9, "P1", 14), upd(6, 9, "P1", 9)],
        sender_id: None,
    };
    handle_grade_batch(&mut store, &req, 0).unwrap();
    let full = schoolsync::service::class_full(&store, 2);
    // the abandoned student is not listed in the roster
    assert_eq!(full.students.len(), 1);
    assert_eq!(full.students[0].id, 5);
    assert_eq!(full.subjects.len(), 1);
    assert_eq!(full.subjects[0].id, 9);
    assert_eq!(full.subjects[0].max_exam1, 20);
    // but the abandoned student's grades still belong to the class
    assert_eq!(full.grades.len(), 2);
    assert_eq!(full.grades[0].value, 14);
    assert_eq!(full.grades[1].value, 9);
    // an unknown class has an empty roster
    let none = schoolsync::service::class_full(&store, 999);
    assert_eq!(none.students.len(), 0);
    assert_eq!(none.subjects.len(), 0);
    assert_eq!(none.grades.len(), 0);
}

#[test]
fn concurrent_batches_both_commit_and_both_notify() {
    let mut store = classroom_store();
    let mut registry = ListenerRegistry::new();
    let desktop = registry.register();
    let tablet = registry.register();
    let b1 = BatchGradeRequest {
        updates: vec![upd(5, 9, "P1", 14)],
        sender_id: Some("tablet-a".to_string()),
    };
    let b2 = BatchGradeRequest {
        updates: vec![upd(6, 9, "P1", 12)],
        sender_id: Some("tablet-b".to_string()),
    };
    let n1 = handle_grade_batch(&mut store, &b1, 0).unwrap();
    let n2 = handle_grade_batch(&mut store, &b2, 0).unwrap();
    assert_eq!(n1.sender_id.as_deref(), Some("tablet-a"));
    assert_eq!(n2.sender_id.as_deref(), Some("tablet-b"));
    assert_eq!(n1.event, "db:changed");
    assert_eq!(n1.updates.len(), 1);
    assert_eq!(n2.updates[0].student_id, 6);
    assert_eq!(store.grades.len(), 2);
    // each broadcast reaches every registered listener
    let targets1 = registry.fanout_targets();
    assert_eq!(targets1, vec![desktop, tablet]);
    let targets2 = registry.fanout_targets();
    assert_eq!(targets2, vec![desktop, tablet]);
}

#[test]
fn failed_listeners_are_pruned() {
    let mut registry = ListenerRegistry::new();
    let a = registry.register();
    let b = registry.register();
    let c = registry.register();
    assert_eq!(registry.fanout_targets(), vec![a, b, c]);
    // the middle listener's send failed: it is dropped, the rest stay
    schoolsync::broadcast::prune_listeners(&mut registry, &vec![true, false, true]);
    assert_eq!(registry.fanout_targets(), vec![a, c]);
    // a later listener gets a fresh handle, never a reused one
    let d = registry.register();
    assert!(d > c);
}

#[test]
fn server_state_is_set_once() {
    let mut state = ServerState::new();
    assert!(get_server_info(&state).is_none());
    assert!(state.try_mark_running("192.168.1.10".to_string(), 3000));
    let info = get_server_info(&state).unwrap();
    assert_eq!(info.ip, "192.168.1.10");
    assert_eq!(info.port, 3000);
    assert!(info.running);
    // a second start finds the first and changes nothing
    assert!(!state.try_mark_running("10.0.0.1".to_string(), 8080));
    let info = get_server_info(&state).unwrap();
    assert_eq!(info.ip, "192.168.1.10");
    assert_eq!(info.port, 3000);
}

#[test]
fn desktop_change_event_is_tagged() {
    let n = schoolsync::broadcast::desktop_change_event();
    assert_eq!(n.event, "db:changed");
    assert_eq!(n.sender_id.as_deref(), Some("desktop"));
    assert!(n.updates.is_empty());
}

#[test]
fn deleting_a_class_cascades_with_tombstones() {
    // class 2 carries students 5 (synced) and 6, subject 9 (synced);
    // class 3 is untouched, with its own student 7 and subject 8
    let mut store = Store::new();
    let mut d = empty_pull();
    d.academicYears.push(ay(1, true));
    let mut c2 = class(2, "3A", 1);
    c2.serverId = Some("srv-cl-2".to_string());
    d.classes.push(c2);
    d.classes.push(class(3, "4B", 1));
    let mut s5 = student(5, 2, false);
    s5.serverId = Some("srv-st-5".to_string());
    d.students.push(s5);
    d.students.push(student(6, 2, false));
    d.students.push(student(7, 3, false));
    let mut su9 = subject(9, 2);
    su9.serverId = Some("srv-su-9".to_string());
    d.subjects.push(su9);
    d.subjects.push(subject(8, 3));
    apply_pull(&mut store, d);
    // one grade in the doomed class, one in the other class
    let req = BatchGradeRequest {
        updates: vec![upd(5, 9, "P1", 14), upd(7, 8, "P1", 15)],
        sender_id: None,
    };
    handle_grade_batch(&mut store, &req, 0).unwrap();
    assert_eq!(store.grades.len(), 2);
    assert!(schoolsync::model::delete_class(&mut store, 2, 7_000));
    // the class, its students, its subject, and its grade are gone
    assert_eq!(store.classes.len(), 1);
    assert_eq!(store.classes[0].local_id, 3);
    assert_eq!(store.students.len(), 1);
    assert_eq!(store.students[0].local_id, 7);
    assert_eq!(store.subjects.len(), 1);
    assert_eq!(store.subjects[0].local_id, 8);
    assert_eq!(store.grades.len(), 1);
    assert_eq!(store.grades[0].data.student_id, 7);
    assert_eq!(store.repechages.len(), 0);
    // tombstones: only the rows the remote knew leave one — student 5,
    // subject 9, and the class itself (the local-only rows leave none)
    assert_eq!(store.tombstones.len(), 3);
    assert_eq!(store.tombstones[0].server_id, "srv-st-5");
    assert_eq!(store.tombstones[1].server_id, "srv-su-9");
    assert_eq!(store.tombstones[2].server_id, "srv-cl-2");
    assert!(store.tombstones.iter().all(|t| t.deleted_at == 7_000));
    // deleting a class that does not exist changes nothing
    assert!(!schoolsync::model::delete_class(&mut store, 2, 8_000));
    assert_eq!(store.tombstones.len(), 3);
}

use campus_store::certificates::{CertificateMetadata, CertificateStore, IssueCertificatePayload};
use campus_store::courses::{CourseLevel, CourseStore, CreateCoursePayload, CreateLessonPayload, UpdateCoursePayload};
use campus_store::error::StoreError;
use campus_store::identity::Identity;
use campus_store::users::{CreateUserPayload, UpdateUserPayload, UserDirectory, UserRole};

fn who(b: u8) -> Identity {
    Identity::from_bytes(&[3, b])
}

fn course() -> CreateCoursePayload {
    CreateCoursePayload {
        title: "Verus".to_string(),
        description: "proofs".to_string(),
        lessons: vec![
            CreateLessonPayload { title: "intro".to_string(), content: "c1".to_string(), duration: "5m".to_string(), order: 3 },
            CreateLessonPayload { title: "loops".to_string(), content: "c2".to_string(), duration: "9m".to_string(), order: 1 },
        ],
        level: CourseLevel::Beginner,
        image: "img".to_string(),
        tags: vec!["formal".to_string()],
        duration: "1h".to_string(),
    }
}

fn no_change() -> UpdateCoursePayload {
    UpdateCoursePayload { title: None, description: None, level: None, image: None, tags: None, duration: None }
}

#[test]
fn course_lessons_are_numbered_from_one() {
    let mut s = CourseStore::new();
    let c = s.create_course(&who(1), 10, course()).unwrap();
    assert_eq!(c.id, 1);
    assert_eq!(c.lessons.len(), 2);
    assert_eq!(c.lessons[0].id, 1);
    assert_eq!(c.lessons[1].id, 2);
    assert_eq!(c.lessons[1].order, 1);
    assert_eq!(c.enrolled_students, 0);
    let got = s.get_course(c.id).unwrap();
    assert_eq!(got.lessons, c.lessons);
    assert_eq!(got.title, "Verus");
    assert_eq!(
        s.create_course(&Identity::anonymous(), 1, course()).unwrap_err(),
        StoreError::Unauthorized
    );
}

#[test]
fn update_patches_only_given_fields() {
    let mut s = CourseStore::new();
    let c = s.create_course(&who(1), 10, course()).unwrap();
    let mut p = no_change();
    p.title = Some("Verus II".to_string());
    p.level = Some(CourseLevel::Advanced);
    let u = s.update_course(&who(1), 20, c.id, p).unwrap();
    assert_eq!(u.title, "Verus II");
    assert_eq!(u.level, CourseLevel::Advanced);
    assert_eq!(u.description, "proofs");
    assert_eq!(u.updated_at, 20);
    assert_eq!(u.created_at, 10);
    assert_eq!(s.update_course(&who(2), 21, c.id, no_change()).unwrap_err(), StoreError::Unauthorized);
    assert_eq!(s.update_course(&who(1), 21, 99, no_change()).unwrap_err(), StoreError::NotFound);
    assert_eq!(s.get_course(c.id).unwrap().title, "Verus II");
}

#[test]
fn enrollment_counts_and_conflicts() {
    let mut s = CourseStore::new();
    let c = s.create_course(&who(1), 10, course()).unwrap();
    let e = s.enroll_in_course(&who(2), 11, c.id).unwrap();
    assert!(!e.completed);
    assert_eq!(e.completion_date, None);
    assert_eq!(s.get_course(c.id).unwrap().enrolled_students, 1);
    assert_eq!(s.enroll_in_course(&who(2), 12, c.id).unwrap_err(), StoreError::Conflict);
    assert_eq!(s.enroll_in_course(&who(2), 12, 99).unwrap_err(), StoreError::NotFound);
    assert_eq!(s.get_course(c.id).unwrap().enrolled_students, 1);
    s.enroll_in_course(&who(3), 13, c.id).unwrap();
    assert_eq!(s.get_course_enrollments(c.id).len(), 2);
    assert_eq!(s.get_student_enrollments(&who(2)).len(), 1);
    assert_eq!(s.get_courses_by_educator(&who(1)).len(), 1);
    assert_eq!(s.get_courses_by_educator(&who(2)).len(), 0);
    assert_eq!(s.get_all_courses().len(), 1);
}

#[test]
fn progress_needs_enrollment() {
    let mut s = CourseStore::new();
    let c = s.create_course(&who(1), 10, course()).unwrap();
    assert_eq!(s.complete_lesson(&who(2), 11, c.id, 1).unwrap_err(), StoreError::NotFound);
    assert_eq!(s.complete_course(&who(2), 11, c.id).unwrap_err(), StoreError::NotFound);
    s.enroll_in_course(&who(2), 12, c.id).unwrap();
    let p = s.complete_lesson(&who(2), 13, c.id, 1).unwrap();
    assert_eq!(p.completed_at, Some(13));
    s.complete_lesson(&who(2), 14, c.id, 1).unwrap();
    s.complete_lesson(&who(2), 15, c.id, 2).unwrap();
    let prog = s.get_lesson_progress(&who(2), c.id);
    assert_eq!(prog.len(), 2);
    assert_eq!(prog[0].completed_at, Some(14));
    let done = s.complete_course(&who(2), 16, c.id).unwrap();
    assert!(done.completed);
    assert_eq!(done.completion_date, Some(16));
    assert_eq!(done.enrolled_at, 12);
}

fn metadata() -> CertificateMetadata {
    CertificateMetadata {
        completion_date: 5,
        total_lessons: 2,
        course_duration: "1h".to_string(),
        course_level: "Beginner".to_string(),
        skills_acquired: vec!["proofs".to_string()],
    }
}

#[test]
fn certificates_issue_and_verify() {
    let mut s = CertificateStore::new();
    let student = Identity::from_bytes(&[1, 2]);
    let payload = IssueCertificatePayload {
        student,
        course_id: 3,
        course_title: "Verus".to_string(),
        educator: who(1),
        educator_name: "Ada".to_string(),
        metadata: metadata(),
    };
    let c = s.issue_certificate(&who(1), 255, payload.clone()).unwrap();
    assert_eq!(c.id, 1);
    assert_eq!(c.verification_hash, "0x11023ff");
    let found = s.verify_certificate(&"0x11023ff".to_string()).unwrap();
    assert_eq!(found.id, c.id);
    assert!(s.verify_certificate(&"0x0".to_string()).is_none());
    assert_eq!(s.get_certificate(1).unwrap().educator_name, "Ada");
    assert_eq!(s.get_student_certificates(&student).len(), 1);
    assert_eq!(s.get_certificates_by_course(3).len(), 1);
    assert_eq!(s.get_certificates_by_course(4).len(), 0);
    assert_eq!(s.get_certificates_by_educator(&who(1)).len(), 1);
    assert_eq!(s.get_all_certificates().len(), 1);
    assert_eq!(
        s.issue_certificate(&Identity::anonymous(), 1, payload).unwrap_err(),
        StoreError::Unauthorized
    );
}

#[test]
fn users_register_once_update_and_delete() {
    let mut d = UserDirectory::new();
    let p = CreateUserPayload { role: UserRole::Learner, name: "Kim".to_string(), email: "k@x".to_string(), avatar: None };
    let u = d.create_user(&who(1), 3, p.clone()).unwrap();
    assert_eq!(u.id, 1);
    assert_eq!(d.create_user(&who(1), 4, p.clone()).unwrap_err(), StoreError::Conflict);
    assert_eq!(d.create_user(&Identity::anonymous(), 4, p.clone()).unwrap_err(), StoreError::Unauthorized);
    let edu = CreateUserPayload { role: UserRole::Educator, name: "Ada".to_string(), email: "a@x".to_string(), avatar: None };
    d.create_user(&who(2), 5, edu).unwrap();
    assert_eq!(d.get_users_by_role(UserRole::Educator).len(), 1);
    assert_eq!(d.get_all_users().len(), 2);
    let up = d
        .update_user(&who(1), 6, UpdateUserPayload { name: None, email: Some("new@x".to_string()), avatar: Some("pic".to_string()) })
        .unwrap();
    assert_eq!(up.name, "Kim");
    assert_eq!(up.email, "new@x");
    assert_eq!(up.avatar, Some("pic".to_string()));
    assert_eq!(d.get_current_user(&who(1)).unwrap().updated_at, 6);
    assert_eq!(d.delete_user(&who(1)), Ok(()));
    assert_eq!(d.delete_user(&who(1)), Err(StoreError::NotFound));
    assert!(d.get_user(&who(1)).is_none());
    let again = d.create_user(&who(1), 7, p).unwrap();
    assert_eq!(again.id, 3);
    assert_eq!(
        d.update_user(&who(9), 8, UpdateUserPayload { name: None, email: None, avatar: None }).unwrap_err(),
        StoreError::NotFound
    );
}

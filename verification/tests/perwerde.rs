use pezpallets::perwerde::{Config, CourseStatus, EarnedRoles, Error, Event, InvariantViolation, Pezpallet};
use std::collections::HashSet;

const TEACHER: u64 = 1;
const STUDENT: u64 = 2;
const OTHER: u64 = 3;

const MIN_COURSE_DURATION: u64 = 100;
const MAX_COURSE_DURATION: u64 = 10_000;
const RATIFICATIONS_REQUIRED: u32 = 5;
const MAX_HONORARY_MAMOSTE: u32 = 3;
const REWARDED_COURSE_LIMIT: u32 = 4;
const MAX_POINTS_PER_COURSE: u32 = 1000;

/// The education pallet beside the role pallet's record of who teaches.
struct Chain {
    pallet: Pezpallet,
    block: u64,
    teachers: HashSet<u64>,
}

impl Chain {
    fn new() -> Chain {
        let mut teachers = HashSet::new();
        for who in 100..(100 + RATIFICATIONS_REQUIRED as u64) {
            teachers.insert(who);
        }
        Chain {
            pallet: Pezpallet::new(Config {
                max_course_name_length: 100,
                max_course_desc_length: 500,
                max_course_link_length: 200,
                max_students_per_course: 100,
                max_points_per_course: MAX_POINTS_PER_COURSE,
                min_course_duration: MIN_COURSE_DURATION,
                max_course_duration: MAX_COURSE_DURATION,
                ratifications_required: RATIFICATIONS_REQUIRED,
                max_honorary_mamoste: MAX_HONORARY_MAMOSTE,
                rewarded_course_limit: REWARDED_COURSE_LIMIT,
                min_courses_for_role: 2,
                rewsenbir_threshold: 300,
                mamoste_threshold: 600,
                axa_threshold: 900,
            }),
            block: 1,
            teachers,
        }
    }

    fn create(&mut self, points: u32) -> Result<(), Error> {
        self.pallet.create_course(
            TEACHER,
            b"Blockchain 101".to_vec(),
            b"An introduction".to_vec(),
            b"http://example.com".to_vec(),
            points,
            self.block,
        )
    }

    /// Open a course worth `points`, taught by `TEACHER`.
    fn open_course(&mut self, points: u32) -> u32 {
        let id = self.pallet.next_course_id;
        assert_eq!(self.create(points), Ok(()));
        id
    }

    fn ratify(&mut self, ratifier: u64, course_id: u32) -> Result<(), Error> {
        let is_teacher = self.teachers.contains(&ratifier);
        self.pallet.ratify_results(ratifier, course_id, is_teacher).map(|_| ())
    }

    fn ratify_fully(&mut self, course_id: u32) {
        for ratifier in 100..(100 + RATIFICATIONS_REQUIRED as u64) {
            assert_eq!(self.ratify(ratifier, course_id), Ok(()));
        }
    }

    /// Enrol, pass, submit, and have the board ratify.
    fn run_course_for(&mut self, student: u64, points: u32) -> u32 {
        let id = self.open_course(points);
        assert_eq!(self.pallet.enroll(student, id, self.block), Ok(()));
        assert_eq!(self.pallet.record_result(TEACHER, student, id, true), Ok(()));
        self.block += MIN_COURSE_DURATION;
        assert_eq!(self.pallet.submit_results(TEACHER, id, self.block), Ok(()));
        self.ratify_fully(id);
        id
    }

    fn status(&self, id: u32) -> CourseStatus {
        self.pallet.courses_get(id).unwrap().status
    }

    fn appoint(&mut self, who: u64) -> Result<(), Error> {
        self.pallet.appoint_honorary_mamoste_check()?;
        self.teachers.insert(who);
        self.pallet.appoint_honorary_mamoste(who, true)
    }
}

#[test]
fn a_teacher_cannot_enrol_in_their_own_course() {
    let mut c = Chain::new();
    let id = c.open_course(1000);
    assert_eq!(c.pallet.enroll(TEACHER, id, c.block), Err(Error::OwnerCannotEnrol));
}

#[test]
fn a_teacher_cannot_ratify_their_own_course() {
    let mut c = Chain::new();
    let id = c.open_course(1000);
    assert_eq!(c.pallet.enroll(STUDENT, id, c.block), Ok(()));
    c.block += MIN_COURSE_DURATION;
    assert_eq!(c.pallet.submit_results(TEACHER, id, c.block), Ok(()));
    c.teachers.insert(TEACHER);
    assert_eq!(c.ratify(TEACHER, id), Err(Error::OwnerCannotRatify));
}

#[test]
fn what_a_course_is_worth_is_fixed_when_it_opens() {
    let mut c = Chain::new();
    let id = c.run_course_for(STUDENT, 400);
    assert_eq!(c.pallet.perwerde_score(STUDENT), 400);
    assert_eq!(c.pallet.courses_get(id).unwrap().points, 400);
}

#[test]
fn a_course_cannot_be_worth_more_than_the_maximum() {
    let mut c = Chain::new();
    assert_eq!(c.create(MAX_POINTS_PER_COURSE + 1), Err(Error::PointsExceedMax));
}

#[test]
fn a_recorded_result_awards_nothing_on_its_own() {
    let mut c = Chain::new();
    let id = c.open_course(500);
    assert_eq!(c.pallet.enroll(STUDENT, id, c.block), Ok(()));
    assert_eq!(c.pallet.record_result(TEACHER, STUDENT, id, true), Ok(()));
    assert_eq!(c.pallet.perwerde_score(STUDENT), 0);
    assert_eq!(c.pallet.completed_courses_of(STUDENT), 0);
}

#[test]
fn a_draft_can_be_changed_while_the_course_runs() {
    let mut c = Chain::new();
    let id = c.open_course(500);
    assert_eq!(c.pallet.enroll(STUDENT, id, c.block), Ok(()));
    assert_eq!(c.pallet.record_result(TEACHER, STUDENT, id, true), Ok(()));
    assert_eq!(c.pallet.record_result(TEACHER, STUDENT, id, false), Ok(()));
    c.block += MIN_COURSE_DURATION;
    assert_eq!(c.pallet.submit_results(TEACHER, id, c.block), Ok(()));
    c.ratify_fully(id);
    assert_eq!(c.pallet.perwerde_score(STUDENT), 0);
}

#[test]
fn the_points_become_real_when_the_board_is_complete() {
    let mut c = Chain::new();
    let id = c.open_course(500);
    assert_eq!(c.pallet.enroll(STUDENT, id, c.block), Ok(()));
    assert_eq!(c.pallet.record_result(TEACHER, STUDENT, id, true), Ok(()));
    c.block += MIN_COURSE_DURATION;
    assert_eq!(c.pallet.submit_results(TEACHER, id, c.block), Ok(()));
    for ratifier in 100..104u64 {
        assert_eq!(c.ratify(ratifier, id), Ok(()));
    }
    assert_eq!(c.pallet.perwerde_score(STUDENT), 0);
    assert_eq!(c.status(id), CourseStatus::AwaitingRatification);
    assert_eq!(c.ratify(104, id), Ok(()));
    assert_eq!(c.pallet.perwerde_score(STUDENT), 500);
    assert_eq!(c.status(id), CourseStatus::Completed);
}

#[test]
fn one_teacher_cannot_stand_in_for_a_board() {
    let mut c = Chain::new();
    let id = c.open_course(500);
    assert_eq!(c.pallet.enroll(STUDENT, id, c.block), Ok(()));
    c.block += MIN_COURSE_DURATION;
    assert_eq!(c.pallet.submit_results(TEACHER, id, c.block), Ok(()));
    assert_eq!(c.ratify(100, id), Ok(()));
    assert_eq!(c.ratify(100, id), Err(Error::AlreadyRatified));
}

#[test]
fn only_a_teacher_may_ratify() {
    let mut c = Chain::new();
    let id = c.open_course(500);
    assert_eq!(c.pallet.enroll(STUDENT, id, c.block), Ok(()));
    c.block += MIN_COURSE_DURATION;
    assert_eq!(c.pallet.submit_results(TEACHER, id, c.block), Ok(()));
    assert_eq!(c.ratify(OTHER, id), Err(Error::NotATeacher));
}

#[test]
fn results_cannot_be_submitted_before_the_course_has_run() {
    let mut c = Chain::new();
    let id = c.open_course(500);
    assert_eq!(c.pallet.submit_results(TEACHER, id, c.block), Err(Error::TooEarlyToSubmit));
}

#[test]
fn a_course_left_unratified_expires_and_awards_nothing() {
    let mut c = Chain::new();
    let id = c.open_course(500);
    assert_eq!(c.pallet.enroll(STUDENT, id, c.block), Ok(()));
    assert_eq!(c.pallet.record_result(TEACHER, STUDENT, id, true), Ok(()));
    c.block += MIN_COURSE_DURATION;
    assert_eq!(c.pallet.submit_results(TEACHER, id, c.block), Ok(()));
    c.block += MAX_COURSE_DURATION;
    assert_eq!(c.pallet.expire_course(id, c.block), Ok(()));
    assert_eq!(c.status(id), CourseStatus::Expired);
    assert_eq!(c.pallet.perwerde_score(STUDENT), 0);
}

#[test]
fn a_course_still_within_its_year_cannot_be_expired() {
    let mut c = Chain::new();
    let id = c.open_course(500);
    assert_eq!(c.pallet.expire_course(id, c.block), Err(Error::NotYetExpired));
}

#[test]
fn beyond_the_limit_a_student_keeps_learning_and_stops_scoring() {
    let mut c = Chain::new();
    let limit = REWARDED_COURSE_LIMIT;
    for _ in 0..limit {
        c.run_course_for(STUDENT, 100);
    }
    let capped = c.pallet.perwerde_score(STUDENT);
    assert_eq!(capped, 100 * limit);

    c.run_course_for(STUDENT, 100);

    assert_eq!(c.pallet.perwerde_score(STUDENT), capped, "the cap did not hold");
    assert_eq!(c.pallet.rewarded_courses_of(STUDENT), limit);
    assert_eq!(c.pallet.completed_courses_of(STUDENT), limit + 1);
}

#[test]
fn the_minister_may_seed_teachers_up_to_the_cap() {
    let mut c = Chain::new();
    for who in 200..(200 + MAX_HONORARY_MAMOSTE as u64) {
        assert_eq!(c.appoint(who), Ok(()));
    }
    assert_eq!(c.pallet.honorary_mamoste_count, MAX_HONORARY_MAMOSTE);
    assert_eq!(c.appoint(999), Err(Error::HonoraryMamosteLimitReached));
}

#[test]
fn how_a_teacher_got_the_role_is_readable() {
    let mut c = Chain::new();
    assert_eq!(c.appoint(200), Ok(()));
    assert!(c.pallet.is_honorary_mamoste(200));
    assert!(!c.pallet.is_honorary_mamoste(TEACHER));
}

#[test]
fn a_teacher_the_role_pallet_refused_is_not_recorded() {
    let mut c = Chain::new();
    assert_eq!(c.pallet.appoint_honorary_mamoste(200, false), Err(Error::RoleNotGranted));
    assert!(!c.pallet.is_honorary_mamoste(200));
    assert_eq!(c.pallet.honorary_mamoste_count, 0);
}

#[test]
fn the_court_can_annul_a_course_and_take_back_what_it_gave() {
    let mut c = Chain::new();
    let id = c.run_course_for(STUDENT, 500);
    assert_eq!(c.pallet.perwerde_score(STUDENT), 500);
    assert_eq!(c.pallet.report_course_fraud(id), Ok(()));
    let annulment = c.pallet.annul_course(id).unwrap();
    assert_eq!(annulment.points_reversed, 500);
    assert_eq!(annulment.score_changed, vec![STUDENT]);
    assert_eq!(c.pallet.perwerde_score(STUDENT), 0);
    assert_eq!(c.pallet.rewarded_courses_of(STUDENT), 0);
    assert_eq!(c.status(id), CourseStatus::Annulled);
    assert!(!c.pallet.course_under_review(id));
}

#[test]
fn the_board_that_signed_it_is_recorded() {
    let mut c = Chain::new();
    let id = c.run_course_for(STUDENT, 500);
    assert_eq!(c.pallet.report_course_fraud(id), Ok(()));
    assert!(c.pallet.annul_course(id).is_ok());
    for ratifier in 100..105u64 {
        assert_eq!(c.pallet.annulled_ratifications_of(ratifier), 1);
    }
    assert_eq!(c.pallet.annulled_ratifications_of(TEACHER), 0);
}

#[test]
fn the_court_only_annuls_what_the_minister_brought() {
    let mut c = Chain::new();
    let id = c.run_course_for(STUDENT, 500);
    assert_eq!(c.pallet.annul_course(id).err(), Some(Error::NotUnderReview));
}

#[test]
fn a_course_that_awarded_nothing_cannot_be_annulled() {
    let mut c = Chain::new();
    let id = c.open_course(500);
    assert_eq!(c.pallet.report_course_fraud(id), Ok(()));
    assert_eq!(c.pallet.annul_course(id).err(), Some(Error::NothingToAnnul));
    assert_eq!(c.pallet.report_course_fraud(77), Err(Error::CourseNotFound));
}

#[test]
fn enrolling_twice_is_refused() {
    let mut c = Chain::new();
    let id = c.open_course(100);
    assert_eq!(c.pallet.enroll(STUDENT, id, c.block), Ok(()));
    assert_eq!(c.pallet.enroll(STUDENT, id, c.block), Err(Error::AlreadyEnrolled));
}

#[test]
fn only_the_teacher_records_results() {
    let mut c = Chain::new();
    let id = c.open_course(100);
    assert_eq!(c.pallet.enroll(STUDENT, id, c.block), Ok(()));
    assert_eq!(c.pallet.record_result(OTHER, STUDENT, id, true), Err(Error::NotCourseOwner));
}

#[test]
fn a_course_that_was_opened_is_announced_with_what_it_is_worth() {
    let mut c = Chain::new();
    let id = c.open_course(250);
    assert!(c.pallet.events.contains(&Event::CourseCreated { course_id: id, owner: TEACHER, points: 250 }));
}

#[test]
fn closing_one_course_awards_only_its_own_class() {
    let mut c = Chain::new();
    let first = c.open_course(40);
    let second = c.open_course(70);
    assert_eq!(c.pallet.enroll(STUDENT, first, c.block), Ok(()));
    assert_eq!(c.pallet.enroll(OTHER, second, c.block), Ok(()));
    assert_eq!(c.pallet.record_result(TEACHER, STUDENT, first, true), Ok(()));
    assert_eq!(c.pallet.record_result(TEACHER, OTHER, second, true), Ok(()));
    c.block += MIN_COURSE_DURATION;
    assert_eq!(c.pallet.submit_results(TEACHER, first, c.block), Ok(()));
    c.ratify_fully(first);
    assert_eq!(c.pallet.perwerde_score(STUDENT), 40, "the class that closed");
    assert_eq!(c.pallet.perwerde_score(OTHER), 0, "a student on another course must not be awarded by it");
    assert_eq!(c.pallet.enrollments(second, OTHER).unwrap().points_awarded, 0);
}

#[test]
fn annulling_one_course_leaves_the_other_standing() {
    let mut c = Chain::new();
    let honest = c.run_course_for(STUDENT, 40);
    let fraudulent = c.run_course_for(OTHER, 70);
    assert_eq!(c.pallet.perwerde_score(STUDENT), 40);
    assert_eq!(c.pallet.perwerde_score(OTHER), 70);
    assert_eq!(c.pallet.report_course_fraud(fraudulent), Ok(()));
    assert!(c.pallet.annul_course(fraudulent).is_ok());
    assert_eq!(c.pallet.perwerde_score(OTHER), 0, "the annulled course is reversed");
    assert_eq!(c.pallet.perwerde_score(STUDENT), 40, "and nobody else pays for it");
    assert_eq!(c.status(honest), CourseStatus::Completed);
}

#[test]
fn closing_a_course_reports_the_roles_its_students_earned() {
    let mut c = Chain::new();
    c.run_course_for(STUDENT, 400);
    let id = c.open_course(400);
    assert_eq!(c.pallet.enroll(STUDENT, id, c.block), Ok(()));
    assert_eq!(c.pallet.enroll(OTHER, id, c.block), Ok(()));
    assert_eq!(c.pallet.record_result(TEACHER, STUDENT, id, true), Ok(()));
    c.block += MIN_COURSE_DURATION;
    assert_eq!(c.pallet.submit_results(TEACHER, id, c.block), Ok(()));
    for ratifier in 100..104u64 {
        assert_eq!(c.ratify(ratifier, id), Ok(()));
    }
    let closure = c.pallet.ratify_results(104, id, true).unwrap().expect("the board is complete");
    assert_eq!(closure.awarded_to, 1);
    assert_eq!(closure.score_changed, vec![STUDENT]);
    assert_eq!(
        closure.grants,
        vec![(STUDENT, EarnedRoles { axa: false, mamoste: true, rewsenbir: true })]
    );
    assert_eq!(c.pallet.award_earned_roles(OTHER), EarnedRoles { axa: false, mamoste: false, rewsenbir: false });
}

#[test]
fn a_full_class_takes_no_more_students() {
    let mut c = Chain::new();
    c.pallet.config.max_students_per_course = 2;
    let id = c.open_course(100);
    assert_eq!(c.pallet.enroll(10, id, c.block), Ok(()));
    assert_eq!(c.pallet.enroll(11, id, c.block), Ok(()));
    assert_eq!(c.pallet.enroll(12, id, c.block), Err(Error::TooManyStudents));
    assert_eq!(c.pallet.course_enrollment_count_of(id), 2);
}

#[test]
fn a_closed_course_takes_no_students_and_no_results() {
    let mut c = Chain::new();
    let id = c.run_course_for(STUDENT, 100);
    assert_eq!(c.pallet.enroll(OTHER, id, c.block), Err(Error::CourseNotActive));
    assert_eq!(c.pallet.record_result(TEACHER, STUDENT, id, false), Err(Error::CourseNotActive));
    assert_eq!(c.pallet.enroll(OTHER, 99, c.block), Err(Error::CourseNotFound));
    assert_eq!(c.ratify(100, id), Err(Error::NotAwaitingRatification));
}

// The records can disagree, and the check says so.

fn assert_rejected(c: &Chain, what: &str) {
    assert!(c.pallet.try_state().is_err(), "try_state accepted a state where {what}");
}

#[test]
fn an_ordinary_state_passes() {
    let mut c = Chain::new();
    c.run_course_for(STUDENT, 300);
    assert_eq!(c.pallet.try_state(), Ok(()));
}

#[test]
fn a_score_ahead_of_the_courses_behind_it_is_caught() {
    let mut c = Chain::new();
    c.run_course_for(STUDENT, 300);
    let score = c.pallet.get_perwerde_score(STUDENT);
    c.pallet.perwerde_scores.insert(STUDENT, score + 1);
    assert_rejected(&c, "a student's score exceeded what their courses awarded");
    assert_eq!(c.pallet.try_state(), Err(InvariantViolation::ScoreMismatch));
}

#[test]
fn a_miscounted_rewarded_course_is_caught() {
    let mut c = Chain::new();
    c.run_course_for(STUDENT, 300);
    let n = c.pallet.rewarded_courses_of(STUDENT);
    c.pallet.rewarded_courses.insert(STUDENT, n + 1);
    assert_rejected(&c, "a student was credited with more rewarded courses than awards");
    assert_eq!(c.pallet.try_state(), Err(InvariantViolation::RewardedCountMismatch));
}

#[test]
fn a_course_closed_without_a_full_board_is_caught() {
    let mut c = Chain::new();
    let id = c.run_course_for(STUDENT, 300);
    c.pallet.ratification_count.insert(id, 1);
    assert_rejected(&c, "a course was closed on fewer signatures than the board requires");
    assert_eq!(c.pallet.try_state(), Err(InvariantViolation::BoardIncomplete));
}

#[test]
fn a_teacher_among_their_own_ratifiers_is_caught() {
    let mut c = Chain::new();
    let id = c.run_course_for(STUDENT, 300);
    let mut board = c.pallet.course_ratifiers.get(&id).unwrap().clone();
    board.push(TEACHER);
    c.pallet.course_ratifiers.insert(id, board);
    assert_rejected(&c, "a teacher ratified their own course");
    assert_eq!(c.pallet.try_state(), Err(InvariantViolation::TeacherRatifiedOwn));
}

#[test]
fn seeding_past_the_cap_is_caught() {
    let mut c = Chain::new();
    c.pallet.honorary_mamoste_count = MAX_HONORARY_MAMOSTE + 1;
    assert_rejected(&c, "more teachers were seeded than the minister may seed");
    assert_eq!(c.pallet.try_state(), Err(InvariantViolation::HonoraryOverCap));
}

#[test]
fn a_rewarded_count_past_the_limit_is_caught() {
    let mut c = Chain::new();
    c.run_course_for(STUDENT, 300);
    c.pallet.config.rewarded_course_limit = 0;
    assert_eq!(c.pallet.try_state(), Err(InvariantViolation::RewardedOverLimit));
    assert_eq!(
        InvariantViolation::RewardedOverLimit.message(),
        "a student was rewarded for more courses than the limit allows"
    );
}

#[test]
fn more_rewarded_than_completed_is_caught() {
    let mut c = Chain::new();
    c.run_course_for(STUDENT, 300);
    c.pallet.completed_courses.insert(STUDENT, 0);
    assert_eq!(c.pallet.try_state(), Err(InvariantViolation::RewardedOverCompleted));
}

#[test]
fn annulling_a_course_leaves_the_records_in_agreement() {
    let mut c = Chain::new();
    let id = c.run_course_for(STUDENT, 300);
    c.run_course_for(OTHER, 200);
    assert_eq!(c.pallet.report_course_fraud(id), Ok(()));
    assert!(c.pallet.annul_course(id).is_ok());
    assert_eq!(c.pallet.get_perwerde_score(STUDENT), 0);
    assert_eq!(c.pallet.try_state(), Ok(()));
}

#[test]
fn a_zero_point_course_makes_the_rewarded_count_run_ahead() {
    // A course may be worth nothing. Closing it still counts a rewarded course for the student,
    // but the place carries no points, so the count runs ahead of the places behind it.
    let mut c = Chain::new();
    c.run_course_for(STUDENT, 0);
    assert_eq!(c.pallet.rewarded_courses_of(STUDENT), 1);
    assert_eq!(c.pallet.get_perwerde_score(STUDENT), 0);
    assert_eq!(c.pallet.try_state(), Err(InvariantViolation::RewardedCountMismatch));
}

#[test]
fn scores_follow_the_places_through_several_courses() {
    let mut c = Chain::new();
    c.run_course_for(STUDENT, 300);
    c.run_course_for(STUDENT, 250);
    c.run_course_for(OTHER, 100);
    assert_eq!(c.pallet.get_perwerde_score(STUDENT), 550);
    assert_eq!(c.pallet.rewarded_courses_of(STUDENT), 2);
    assert_eq!(c.pallet.try_state(), Ok(()));
}

//! Education: courses that are opened with a fixed worth, taught, submitted, ratified by a
//! board of teachers, and only then turned into points; courses that expire unratified; and
//! courses the court annuls, with what they awarded taken back.
//!
//! Who holds which role is another pallet's answer and is passed in; the roles a record now
//! supports, and the students whose score changed, are handed back to be acted on.
use vstd::prelude::*;
use vstd::hash_map::HashMapWithView;
use vstd::hash_set::HashSetWithView;
use crate::arith::{sat_add_u32, sat_sub_u32, sat_add_u64};

verus! {

/// What the trust pallet does when a score it is built from changes.
pub trait TrustScoreUpdater<AccountId> {
    fn on_score_component_changed(&mut self, who: &AccountId);
}

/// Nothing is told.
impl<AccountId> TrustScoreUpdater<AccountId> for () {
    fn on_score_component_changed(&mut self, _who: &AccountId) {
    }
}

/// Where a course is in its life.
#[derive(Clone, Copy, PartialEq, Eq, Debug, Structural)]
pub enum CourseStatus {
    /// Open: students may enrol and the teacher may record results, which are drafts.
    Enrolling,
    /// The teacher has submitted the results; the board is ratifying.
    AwaitingRatification,
    /// Ratified. The points are real and the course is closed.
    Completed,
    /// The year ran out before the results were ratified. Nothing was awarded.
    Expired,
    /// The court found the course fraudulent. What it awarded has been taken back.
    Annulled,
}

/// A course.
#[derive(Clone, Debug)]
pub struct Course {
    pub id: u32,
    /// Who teaches it and records the results.
    pub owner: u64,
    pub name: Vec<u8>,
    pub description: Vec<u8>,
    pub content_link: Vec<u8>,
    /// What the course is worth, decided when it is opened.
    pub points: u32,
    pub status: CourseStatus,
    pub created_at: u64,
    /// When the results were submitted for ratification.
    pub submitted_at: Option<u64>,
}

/// A student's place on a course.
#[derive(Clone, Copy, PartialEq, Eq, Debug, Structural)]
pub struct Enrollment {
    pub student: u64,
    pub course_id: u32,
    pub enrolled_at: u64,
    /// What the teacher recorded: a draft until the board ratifies.
    pub passed: Option<bool>,
    /// What the student was actually awarded, once the results were ratified.
    pub points_awarded: u32,
}

/// The roles a student's education record supports, in the order they are granted.
#[derive(Clone, Copy, PartialEq, Eq, Debug, Structural)]
pub struct EarnedRoles {
    /// `Axa`.
    pub axa: bool,
    /// `Mamoste`, a teacher.
    pub mamoste: bool,
    /// `Rewsenbîr`.
    pub rewsenbir: bool,
}

/// What the education pallet reports having done.
#[derive(Clone, Copy, PartialEq, Eq, Debug, Structural)]
pub enum Event {
    CourseCreated { course_id: u32, owner: u64, points: u32 },
    StudentEnrolled { student: u64, course_id: u32 },
    ResultRecorded { student: u64, course_id: u32, passed: bool },
    ResultsSubmitted { course_id: u32 },
    CourseRatified { course_id: u32, by: u64, ratifications: u32 },
    CourseCompleted { course_id: u32, awarded_to: u32 },
    CourseExpired { course_id: u32 },
    CourseReported { course_id: u32 },
    CourseAnnulled { course_id: u32, points_reversed: u32 },
    HonoraryMamosteAppointed { who: u64 },
}

/// Why an education call was refused.
#[derive(Clone, Copy, PartialEq, Eq, Debug, Structural)]
pub enum Error {
    CourseNotFound,
    AlreadyEnrolled,
    NotEnrolled,
    CourseNotActive,
    NotCourseOwner,
    CourseIdOverflow,
    PointsExceedMax,
    TooManyStudents,
    /// A course cannot be taught to the person teaching it.
    OwnerCannotEnrol,
    /// The course has not run long enough for its results to be ratified.
    TooEarlyToSubmit,
    /// The course is not waiting for ratification.
    NotAwaitingRatification,
    /// A teacher cannot ratify their own course.
    OwnerCannotRatify,
    /// Only a teacher may ratify results.
    NotATeacher,
    /// This teacher has already ratified this course.
    AlreadyRatified,
    /// The course still has time to run.
    NotYetExpired,
    /// The examiner corps is already at the size the minister may seed.
    HonoraryMamosteLimitReached,
    /// The court has not been asked to look at this course.
    NotUnderReview,
    /// A course that awarded nothing cannot be annulled.
    NothingToAnnul,
    /// The role pallet refused to grant the teacher's role.
    RoleNotGranted,
}

/// A way the education records can disagree with one another.
#[derive(Clone, Copy, PartialEq, Eq, Debug, Structural)]
pub enum InvariantViolation {
    /// A student's score is not what their courses awarded.
    ScoreMismatch,
    /// A student's rewarded-course count is not the number of courses that awarded them.
    RewardedCountMismatch,
    /// A student was rewarded for more courses than the limit allows.
    RewardedOverLimit,
    /// More of a student's courses were rewarded than they completed.
    RewardedOverCompleted,
    /// A course was closed on fewer ratifications than the board requires.
    BoardIncomplete,
    /// A teacher is among the ratifiers of their own course.
    TeacherRatifiedOwn,
    /// More teachers were seeded than the minister may seed.
    HonoraryOverCap,
}

/// What a disagreement is called, in words.
#[verifier::opaque]
pub open spec fn violation_message(v: InvariantViolation) -> Seq<char> {
    match v {
        InvariantViolation::ScoreMismatch => "a student's score does not match what their courses awarded"@,
        InvariantViolation::RewardedCountMismatch => "a student's rewarded-course count does not match their awards"@,
        InvariantViolation::RewardedOverLimit => "a student was rewarded for more courses than the limit allows"@,
        InvariantViolation::RewardedOverCompleted => "more of a student's courses were rewarded than they completed"@,
        InvariantViolation::BoardIncomplete => "a course was closed without a full board"@,
        InvariantViolation::TeacherRatifiedOwn => "a teacher ratified their own course"@,
        InvariantViolation::HonoraryOverCap => "more teachers were seeded than the minister may seed"@,
    }
}

impl InvariantViolation {
    /// What went wrong, in words.
    pub fn message(&self) -> (r: &'static str)
        ensures
            r@ == violation_message(*self),
    {
        proof {
            reveal(violation_message);
        }
        match self {
            InvariantViolation::ScoreMismatch => "a student's score does not match what their courses awarded",
            InvariantViolation::RewardedCountMismatch => "a student's rewarded-course count does not match their awards",
            InvariantViolation::RewardedOverLimit => "a student was rewarded for more courses than the limit allows",
            InvariantViolation::RewardedOverCompleted => "more of a student's courses were rewarded than they completed",
            InvariantViolation::BoardIncomplete => "a course was closed without a full board",
            InvariantViolation::TeacherRatifiedOwn => "a teacher ratified their own course",
            InvariantViolation::HonoraryOverCap => "more teachers were seeded than the minister may seed",
        }
    }
}

/// What a class awarded `s`.
pub open spec fn class_awarded(class: Seq<Enrollment>, s: u64) -> nat
    decreases class.len(),
{
    if class.len() == 0 {
        0
    } else {
        class_awarded(class.drop_last(), s) + if class.last().student == s {
            class.last().points_awarded as nat
        } else {
            0nat
        }
    }
}

/// How many of a class's places held by `s` carry an award.
pub open spec fn class_rewarded(class: Seq<Enrollment>, s: u64) -> nat
    decreases class.len(),
{
    if class.len() == 0 {
        0
    } else {
        class_rewarded(class.drop_last(), s) + if class.last().student == s && class.last().points_awarded > 0 {
            1nat
        } else {
            0nat
        }
    }
}

/// `x`, or `u64::MAX` if it is larger.
pub open spec fn saturated(x: nat) -> u64 {
    if x > u64::MAX {
        u64::MAX
    } else {
        x as u64
    }
}

/// A course's class list in `classes`, in enrolment order.
pub open spec fn class_in(classes: Map<u32, Vec<Enrollment>>, c: u32) -> Seq<Enrollment> {
    if classes.contains_key(c) {
        classes[c]@
    } else {
        Seq::empty()
    }
}

/// What the classes of the first `n` course ids in `classes` awarded `s`.
pub open spec fn awarded_in(classes: Map<u32, Vec<Enrollment>>, s: u64, n: nat) -> nat
    decreases n,
{
    if n == 0 {
        0
    } else {
        awarded_in(classes, s, (n - 1) as nat) + class_awarded(class_in(classes, (n - 1) as u32), s)
    }
}

/// How many places in the classes of the first `n` course ids in `classes` awarded `s`
/// anything.
pub open spec fn rewarded_in(classes: Map<u32, Vec<Enrollment>>, s: u64, n: nat) -> nat
    decreases n,
{
    if n == 0 {
        0
    } else {
        rewarded_in(classes, s, (n - 1) as nat) + class_rewarded(class_in(classes, (n - 1) as u32), s)
    }
}

/// Every place carries nothing or, on a completed course, the course's points; no course is
/// worth more than `max_points`; and each student's score and rewarded count are what the
/// places in the classes of the first `next` course ids carry for them.
pub open spec fn agree_in(
    classes: Map<u32, Vec<Enrollment>>,
    courses: Map<u32, Course>,
    scores: Map<u64, u32>,
    rewarded: Map<u64, u32>,
    next: u32,
    max_points: u32,
) -> bool {
    &&& forall|c: u32, i: int| #![trigger class_in(classes, c)[i]] 0 <= i < class_in(classes, c).len() ==> {
        ||| class_in(classes, c)[i].points_awarded == 0
        ||| courses.contains_key(c) && courses[c].status == CourseStatus::Completed
            && class_in(classes, c)[i].points_awarded == courses[c].points
    }
    &&& forall|c: u32| #[trigger] courses.contains_key(c) ==> courses[c].points <= max_points
    &&& forall|s: u64| #[trigger] count_in(scores, s) as nat == awarded_in(classes, s, next as nat)
    &&& forall|s: u64| #[trigger] count_in(rewarded, s) as nat == rewarded_in(classes, s, next as nat)
}

/// A class that does not list `s` awarded them nothing.
proof fn lemma_class_unlisted(class: Seq<Enrollment>, s: u64)
    requires
        !on_list(class, s),
    ensures
        class_awarded(class, s) == 0,
        class_rewarded(class, s) == 0,
    decreases class.len(),
{
    if class.len() > 0 {
        let init = class.drop_last();
        assert(!on_list(init, s)) by {
            if on_list(init, s) {
                let i = choose|i: int| 0 <= i < init.len() && #[trigger] init[i].student == s;
                assert(class[i].student == s);
            }
        }
        assert(class[class.len() - 1].student != s);
        lemma_class_unlisted(init, s);
    }
}

/// Adding a place to a class adds what that place carries.
proof fn lemma_class_push(class: Seq<Enrollment>, e: Enrollment, s: u64)
    ensures
        class_awarded(class.push(e), s) == class_awarded(class, s) + if e.student == s {
            e.points_awarded as nat
        } else {
            0nat
        },
        class_rewarded(class.push(e), s) == class_rewarded(class, s) + if e.student == s && e.points_awarded > 0 {
            1nat
        } else {
            0nat
        },
{
    assert(class.push(e).drop_last() =~= class);
}

/// A class whose places carry nothing awarded nothing.
proof fn lemma_class_nothing(class: Seq<Enrollment>, s: u64)
    requires
        forall|i: int| 0 <= i < class.len() ==> (#[trigger] class[i]).points_awarded == 0,
    ensures
        class_awarded(class, s) == 0,
        class_rewarded(class, s) == 0,
    decreases class.len(),
{
    if class.len() > 0 {
        let init = class.drop_last();
        assert forall|i: int| 0 <= i < init.len() implies (#[trigger] init[i]).points_awarded == 0 by {
            assert(init[i] == class[i]);
        }
        assert(class[class.len() - 1].points_awarded == 0);
        lemma_class_nothing(init, s);
    }
}

/// On a class that lists each student once, what it awarded `s` is what `s`'s place carries.
proof fn lemma_class_seat(class: Seq<Enrollment>, k: int)
    requires
        distinct_students(class),
        0 <= k < class.len(),
    ensures
        class_awarded(class, class[k].student) == class[k].points_awarded as nat,
        class_rewarded(class, class[k].student) == if class[k].points_awarded > 0 {
            1nat
        } else {
            0nat
        },
    decreases class.len(),
{
    let s = class[k].student;
    let init = class.drop_last();
    let n = class.len() - 1;
    assert(distinct_students(init)) by {
        assert forall|a: int, b: int| 0 <= a < init.len() && 0 <= b < init.len() && a != b implies
            #[trigger] init[a].student != #[trigger] init[b].student by {
            assert(init[a] == class[a] && init[b] == class[b]);
        }
    }
    if k == n {
        assert(!on_list(init, s)) by {
            if on_list(init, s) {
                let j = choose|j: int| 0 <= j < init.len() && #[trigger] init[j].student == s;
                assert(class[j].student == class[n].student);
            }
        }
        lemma_class_unlisted(init, s);
    } else {
        assert(init[k] == class[k]);
        lemma_class_seat(init, k);
        assert(class[n].student != s);
    }
}

/// Two classes with the same students and the same awards in the same places awarded the same.
proof fn lemma_class_same_awards(a: Seq<Enrollment>, b: Seq<Enrollment>, s: u64)
    requires
        a.len() == b.len(),
        forall|i: int| 0 <= i < a.len() ==> (#[trigger] a[i]).student == b[i].student
            && a[i].points_awarded == b[i].points_awarded,
    ensures
        class_awarded(a, s) == class_awarded(b, s),
        class_rewarded(a, s) == class_rewarded(b, s),
    decreases a.len(),
{
    if a.len() > 0 {
        let n = a.len() - 1;
        assert forall|i: int| 0 <= i < a.drop_last().len() implies (#[trigger] a.drop_last()[i]).student == b.drop_last()[i].student
            && a.drop_last()[i].points_awarded == b.drop_last()[i].points_awarded by {
            assert(a.drop_last()[i] == a[i] && b.drop_last()[i] == b[i]);
        }
        assert(a[n].student == b[n].student && a[n].points_awarded == b[n].points_awarded);
        lemma_class_same_awards(a.drop_last(), b.drop_last(), s);
    }
}

/// A class whose every place carries at most `m` awarded at most `m` for each place that
/// carries anything.
proof fn lemma_class_bounded(class: Seq<Enrollment>, s: u64, m: nat)
    requires
        forall|i: int| 0 <= i < class.len() ==> (#[trigger] class[i]).points_awarded <= m,
    ensures
        class_awarded(class, s) <= m * class_rewarded(class, s),
    decreases class.len(),
{
    if class.len() > 0 {
        let init = class.drop_last();
        assert forall|i: int| 0 <= i < init.len() implies (#[trigger] init[i]).points_awarded <= m by {
            assert(init[i] == class[i]);
        }
        lemma_class_bounded(init, s, m);
        let e = class[class.len() - 1];
        assert(e.points_awarded <= m);
        let r0 = class_rewarded(init, s);
        let a0 = class_awarded(init, s);
        if e.student == s && e.points_awarded > 0 {
            assert(m * (r0 + 1) == m * r0 + m) by (nonlinear_arith);
        }
    }
}

/// The education pallet's parameters.
#[derive(Clone, Copy, PartialEq, Eq, Debug, Structural)]
pub struct Config {
    pub max_course_name_length: u32,
    pub max_course_desc_length: u32,
    pub max_course_link_length: u32,
    pub max_students_per_course: u32,
    /// The most a single course may be worth.
    pub max_points_per_course: u32,
    /// The shortest a course may run before its results can be submitted.
    pub min_course_duration: u64,
    /// The longest a course may stay open before it expires.
    pub max_course_duration: u64,
    /// How many teachers must ratify a course's results.
    pub ratifications_required: u32,
    /// How many teachers the minister may appoint directly.
    pub max_honorary_mamoste: u32,
    /// How many completed courses count towards a student's score.
    pub rewarded_course_limit: u32,
    /// Completed courses required before any earned role is considered.
    pub min_courses_for_role: u32,
    pub rewsenbir_threshold: u32,
    pub mamoste_threshold: u32,
    pub axa_threshold: u32,
}

/// What closing a ratified course did: how many students passed, whose score changed (to be
/// told to the trust pallet), and the roles each passing student's record now supports.
pub struct CourseClosure {
    pub awarded_to: u32,
    pub score_changed: Vec<u64>,
    pub grants: Vec<(u64, EarnedRoles)>,
}

/// What annulling a course took back, and whose score changed.
pub struct Annulment {
    pub points_reversed: u32,
    pub score_changed: Vec<u64>,
}

/// The education pallet's storage. Enrolments are held per course, in enrolment order.
pub struct Pezpallet {
    pub config: Config,
    pub courses: HashMapWithView<u32, Course>,
    pub next_course_id: u32,
    pub course_enrollment_count: HashMapWithView<u32, u32>,
    pub classes: HashMapWithView<u32, Vec<Enrollment>>,
    pub course_ratifiers: HashMapWithView<u32, Vec<u64>>,
    pub ratification_count: HashMapWithView<u32, u32>,
    pub perwerde_scores: HashMapWithView<u64, u32>,
    pub rewarded_courses: HashMapWithView<u64, u32>,
    pub completed_courses: HashMapWithView<u64, u32>,
    pub honorary_mamoste: HashSetWithView<u64>,
    pub honorary_mamoste_count: u32,
    pub courses_under_review: HashSetWithView<u32>,
    pub annulled_ratifications: HashMapWithView<u64, u32>,
    pub events: Vec<Event>,
}

/// A counter read with absence as zero.
pub open spec fn count_in(m: Map<u64, u32>, k: u64) -> u32 {
    if m.contains_key(k) {
        m[k]
    } else {
        0
    }
}

/// A per-course counter read with absence as zero.
pub open spec fn course_count_in(m: Map<u32, u32>, k: u32) -> u32 {
    if m.contains_key(k) {
        m[k]
    } else {
        0
    }
}

/// No student appears twice in a class.
pub open spec fn distinct_students(class: Seq<Enrollment>) -> bool {
    forall|i: int, j: int| 0 <= i < class.len() && 0 <= j < class.len() && i != j ==> #[trigger] class[i].student != #[trigger] class[j].student
}

/// Whether `s` is on the class list.
pub open spec fn on_list(class: Seq<Enrollment>, s: u64) -> bool {
    exists|i: int| 0 <= i < class.len() && #[trigger] class[i].student == s
}

/// Whether `s` is on some course's class list.
pub open spec fn on_some_list(classes: Map<u32, Vec<Enrollment>>, s: u64) -> bool {
    exists|c: u32| #![trigger on_list(classes[c]@, s)] classes.contains_key(c) && on_list(classes[c]@, s)
}

/// Where `s` sits on a class list that has them.
pub open spec fn seat_of(class: Seq<Enrollment>, s: u64) -> int {
    choose|i: int| 0 <= i < class.len() && #[trigger] class[i].student == s
}

/// A course with its life moved on: the same course in every field but its status and when
/// its results were submitted.
pub open spec fn same_course(a: Course, b: Course) -> bool {
    &&& a.id == b.id
    &&& a.owner == b.owner
    &&& a.name@ == b.name@
    &&& a.description@ == b.description@
    &&& a.content_link@ == b.content_link@
    &&& a.points == b.points
    &&& a.created_at == b.created_at
}

fn vec_contains(list: &Vec<u64>, who: u64) -> (r: bool)
    ensures
        r == list@.contains(who),
{
    let mut i: usize = 0;
    while i < list.len()
        invariant
            i <= list@.len(),
            forall|j: int| 0 <= j < i ==> list@[j] != who,
        decreases list@.len() - i,
    {
        if list[i] == who {
            return true;
        }
        i = i + 1;
    }
    false
}

fn position_of(class: &Vec<Enrollment>, s: u64) -> (r: Option<usize>)
    ensures
        match r {
            Some(i) => i < class@.len() && class@[i as int].student == s,
            None => !on_list(class@, s),
        },
{
    let mut i: usize = 0;
    while i < class.len()
        invariant
            i <= class@.len(),
            forall|j: int| 0 <= j < i ==> (#[trigger] class@[j]).student != s,
        decreases class@.len() - i,
    {
        if class[i].student == s {
            return Some(i);
        }
        i = i + 1;
    }
    None
}

/// Whether the teacher recorded a pass.
pub open spec fn passes(e: Enrollment) -> bool {
    e.passed == Some(true)
}

/// How many of the first `n` of a class passed.
pub open spec fn passing_count(class: Seq<Enrollment>, n: int) -> nat
    decreases n,
{
    if n <= 0 {
        0
    } else {
        passing_count(class, n - 1) + if passes(class[n - 1]) {
            1nat
        } else {
            0nat
        }
    }
}

/// The roles a record of `completed` courses and `score` points supports: none before the
/// minimum number of courses, then each role whose threshold is set and reached.
pub open spec fn roles_for(config: Config, completed: u32, score: u32) -> EarnedRoles {
    if completed < config.min_courses_for_role {
        EarnedRoles { axa: false, mamoste: false, rewsenbir: false }
    } else {
        EarnedRoles {
            axa: config.axa_threshold > 0 && score >= config.axa_threshold,
            mamoste: config.mamoste_threshold > 0 && score >= config.mamoste_threshold,
            rewsenbir: config.rewsenbir_threshold > 0 && score >= config.rewsenbir_threshold,
        }
    }
}

/// A student earns no role before completing the minimum number of courses, however high
/// their score; from then on they earn each role whose threshold is set and reached.
pub proof fn lemma_no_role_before_the_minimum_courses(config: Config, completed: u32, score: u32)
    ensures
        completed < config.min_courses_for_role ==> {
            let r = roles_for(config, completed, score);
            !r.axa && !r.mamoste && !r.rewsenbir
        },
        completed >= config.min_courses_for_role ==> {
            let r = roles_for(config, completed, score);
            &&& r.axa <==> (config.axa_threshold > 0 && score >= config.axa_threshold)
            &&& r.mamoste <==> (config.mamoste_threshold > 0 && score >= config.mamoste_threshold)
            &&& r.rewsenbir <==> (config.rewsenbir_threshold > 0 && score >= config.rewsenbir_threshold)
        },
{
}

fn read_count(m: &HashMapWithView<u64, u32>, k: u64) -> (r: u32)
    ensures
        r == count_in(m@, k),
{
    match m.get(&k) {
        Some(v) => *v,
        None => 0,
    }
}

fn read_course_count(m: &HashMapWithView<u32, u32>, k: u32) -> (r: u32)
    ensures
        r == course_count_in(m@, k),
{
    match m.get(&k) {
        Some(v) => *v,
        None => 0,
    }
}

impl Pezpallet {
    /// A course's class list, in enrolment order.
    pub open spec fn class(&self, c: u32) -> Seq<Enrollment> {
        if self.classes@.contains_key(c) {
            self.classes@[c]@
        } else {
            Seq::empty()
        }
    }

    /// Who has ratified a course.
    pub open spec fn ratifiers(&self, c: u32) -> Seq<u64> {
        if self.course_ratifiers@.contains_key(c) {
            self.course_ratifiers@[c]@
        } else {
            Seq::empty()
        }
    }

    pub open spec fn score_of(&self, s: u64) -> u32 {
        count_in(self.perwerde_scores@, s)
    }

    pub open spec fn rewarded_of(&self, s: u64) -> u32 {
        count_in(self.rewarded_courses@, s)
    }

    pub open spec fn completed_of(&self, s: u64) -> u32 {
        count_in(self.completed_courses@, s)
    }

    pub open spec fn annulled_of(&self, s: u64) -> u32 {
        count_in(self.annulled_ratifications@, s)
    }

    pub open spec fn enrolment_count_of(&self, c: u32) -> u32 {
        course_count_in(self.course_enrollment_count@, c)
    }

    pub open spec fn ratification_count_of(&self, c: u32) -> u32 {
        course_count_in(self.ratification_count@, c)
    }

    /// The record's invariants: courses are filed under their ids and below the next id;
    /// a class belongs to an existing course, lists each student once and never its teacher,
    /// and is no longer than the enrolment count, which stays within the course size; the
    /// ratifiers of a course are distinct and never its teacher, and a completed course has a
    /// full board; no student has been rewarded for more courses than the limit or than they
    /// completed; no more teachers were seeded than the minister may seed; and only a student
    /// on some class list has a score or a rewarded course.
    pub open spec fn wf(&self) -> bool {
        &&& forall|c: u32| #[trigger] self.courses@.contains_key(c) ==> self.courses@[c].id == c && c < self.next_course_id
        &&& forall|c: u32| #[trigger] self.classes@.contains_key(c) ==> self.courses@.contains_key(c)
        &&& forall|c: u32| #[trigger] self.course_ratifiers@.contains_key(c) ==> self.courses@.contains_key(c)
        &&& forall|c: u32| #![trigger self.class(c)]
            {
                &&& distinct_students(self.class(c))
                &&& self.class(c).len() == self.enrolment_count_of(c)
                &&& self.enrolment_count_of(c) <= self.config.max_students_per_course
                &&& forall|i: int| 0 <= i < self.class(c).len() ==> (#[trigger] self.class(c)[i]).course_id == c
                    && self.class(c)[i].student != self.courses@[c].owner
            }
        &&& forall|c: u32| #![trigger self.ratifiers(c)]
            {
                &&& self.ratifiers(c).no_duplicates()
                &&& self.courses@.contains_key(c) ==> !self.ratifiers(c).contains(self.courses@[c].owner)
            }
        &&& forall|c: u32| #[trigger] self.courses@.contains_key(c) && self.courses@[c].status == CourseStatus::Completed
            ==> self.ratification_count_of(c) >= self.config.ratifications_required
        &&& forall|s: u64| #[trigger] self.rewarded_of(s) <= self.config.rewarded_course_limit
            && self.rewarded_of(s) <= self.completed_of(s)
        &&& self.honorary_mamoste_count <= self.config.max_honorary_mamoste
        &&& forall|s: u64| #[trigger] count_in(self.perwerde_scores@, s) != 0 ==> on_some_list(self.classes@, s)
        &&& forall|s: u64| #[trigger] count_in(self.rewarded_courses@, s) != 0 ==> on_some_list(self.classes@, s)
    }

    /// Nothing changed, not even the event log.
    pub open spec fn unchanged(&self, other: &Self) -> bool {
        &&& self.config == other.config
        &&& self.courses@ == other.courses@
        &&& self.next_course_id == other.next_course_id
        &&& self.course_enrollment_count@ == other.course_enrollment_count@
        &&& self.classes@ == other.classes@
        &&& self.course_ratifiers@ == other.course_ratifiers@
        &&& self.ratification_count@ == other.ratification_count@
        &&& self.perwerde_scores@ == other.perwerde_scores@
        &&& self.rewarded_courses@ == other.rewarded_courses@
        &&& self.completed_courses@ == other.completed_courses@
        &&& self.honorary_mamoste@ == other.honorary_mamoste@
        &&& self.honorary_mamoste_count == other.honorary_mamoste_count
        &&& self.courses_under_review@ == other.courses_under_review@
        &&& self.annulled_ratifications@ == other.annulled_ratifications@
        &&& self.events@ == other.events@
    }

    /// Everything but the courses, the enrolments and the event log is as it was.
    pub open spec fn records_unchanged(&self, other: &Self) -> bool {
        &&& self.config == other.config
        &&& self.next_course_id == other.next_course_id
        &&& self.course_ratifiers@ == other.course_ratifiers@
        &&& self.ratification_count@ == other.ratification_count@
        &&& self.perwerde_scores@ == other.perwerde_scores@
        &&& self.rewarded_courses@ == other.rewarded_courses@
        &&& self.completed_courses@ == other.completed_courses@
        &&& self.honorary_mamoste@ == other.honorary_mamoste@
        &&& self.honorary_mamoste_count == other.honorary_mamoste_count
        &&& self.courses_under_review@ == other.courses_under_review@
        &&& self.annulled_ratifications@ == other.annulled_ratifications@
    }

    /// An education pallet with no courses.
    pub fn new(config: Config) -> (r: Self)
        ensures
            r.wf(),
            r.records_agree(),
            r.config == config,
            r.courses@ == Map::<u32, Course>::empty(),
            r.next_course_id == 0,
            r.classes@ == Map::<u32, Vec<Enrollment>>::empty(),
            r.course_enrollment_count@ == Map::<u32, u32>::empty(),
            r.course_ratifiers@ == Map::<u32, Vec<u64>>::empty(),
            r.ratification_count@ == Map::<u32, u32>::empty(),
            r.perwerde_scores@ == Map::<u64, u32>::empty(),
            r.rewarded_courses@ == Map::<u64, u32>::empty(),
            r.completed_courses@ == Map::<u64, u32>::empty(),
            r.honorary_mamoste@ == Set::<u64>::empty(),
            r.honorary_mamoste_count == 0,
            r.courses_under_review@ == Set::<u32>::empty(),
            r.annulled_ratifications@ == Map::<u64, u32>::empty(),
            r.events@ == Seq::<Event>::empty(),
    {
        proof {
            broadcast use vstd::std_specs::hash::axiom_u32_obeys_hash_table_key_model;
            broadcast use vstd::std_specs::hash::axiom_u64_obeys_hash_table_key_model;
        }
        Pezpallet {
            config,
            courses: HashMapWithView::new(),
            next_course_id: 0,
            course_enrollment_count: HashMapWithView::new(),
            classes: HashMapWithView::new(),
            course_ratifiers: HashMapWithView::new(),
            ratification_count: HashMapWithView::new(),
            perwerde_scores: HashMapWithView::new(),
            rewarded_courses: HashMapWithView::new(),
            completed_courses: HashMapWithView::new(),
            honorary_mamoste: HashSetWithView::new(),
            honorary_mamoste_count: 0,
            courses_under_review: HashSetWithView::new(),
            annulled_ratifications: HashMapWithView::new(),
            events: Vec::new(),
        }
    }

    /// Open a course taught by `owner` at block `now`, worth `points`. Refused when it would
    /// be worth more than a course may be, or when the course ids have run out.
    pub fn create_course(
        &mut self,
        owner: u64,
        name: Vec<u8>,
        description: Vec<u8>,
        content_link: Vec<u8>,
        points: u32,
        now: u64,
    ) -> (r: Result<(), Error>)
        requires
            old(self).wf(),
            name.len() <= old(self).config.max_course_name_length,
            description.len() <= old(self).config.max_course_desc_length,
            content_link.len() <= old(self).config.max_course_link_length,
        ensures
            final(self).wf(),
            old(self).records_agree() ==> final(self).records_agree(),
            points > old(self).config.max_points_per_course ==> r == Err::<(), Error>(Error::PointsExceedMax)
                && final(self).unchanged(old(self)),
            points <= old(self).config.max_points_per_course && old(self).next_course_id == u32::MAX ==> r
                == Err::<(), Error>(Error::CourseIdOverflow) && final(self).unchanged(old(self)),
            points <= old(self).config.max_points_per_course && old(self).next_course_id < u32::MAX ==> ({
                let id = old(self).next_course_id;
                let c = final(self).courses@[id];
                &&& r == Ok::<(), Error>(())
                &&& final(self).courses@ == old(self).courses@.insert(id, c)
                &&& c.id == id && c.owner == owner && c.name@ == name@ && c.description@ == description@
                &&& c.content_link@ == content_link@ && c.points == points && c.status == CourseStatus::Enrolling
                &&& c.created_at == now && c.submitted_at is None
                &&& final(self).next_course_id == id + 1
                &&& final(self).classes@ == old(self).classes@
                &&& final(self).course_enrollment_count@ == old(self).course_enrollment_count@
                &&& final(self).course_ratifiers@ == old(self).course_ratifiers@
                &&& final(self).ratification_count@ == old(self).ratification_count@
                &&& final(self).perwerde_scores@ == old(self).perwerde_scores@
                &&& final(self).rewarded_courses@ == old(self).rewarded_courses@
                &&& final(self).completed_courses@ == old(self).completed_courses@
                &&& final(self).honorary_mamoste@ == old(self).honorary_mamoste@
                &&& final(self).honorary_mamoste_count == old(self).honorary_mamoste_count
                &&& final(self).courses_under_review@ == old(self).courses_under_review@
                &&& final(self).annulled_ratifications@ == old(self).annulled_ratifications@
                &&& final(self).config == old(self).config
                &&& final(self).events@ == old(self).events@.push(Event::CourseCreated { course_id: id, owner, points })
            }),
    {
        if points > self.config.max_points_per_course {
            return Err(Error::PointsExceedMax);
        }
        let course_id = self.next_course_id;
        if course_id == u32::MAX {
            return Err(Error::CourseIdOverflow);
        }
        let ghost pre = *self;
        proof {
            // A fresh id: nothing is filed under it yet.
            assert(!self.courses@.contains_key(course_id));
            assert(!self.classes@.contains_key(course_id));
            assert(!self.course_ratifiers@.contains_key(course_id));
        }
        self.courses.insert(
            course_id,
            Course {
                id: course_id,
                owner,
                name,
                description,
                content_link,
                points,
                status: CourseStatus::Enrolling,
                created_at: now,
                submitted_at: None,
            },
        );
        self.next_course_id = course_id + 1;
        self.events.push(Event::CourseCreated { course_id, owner, points });
        proof {
            assert forall|c: u32| #![trigger self.class(c)]
                {
                    &&& distinct_students(self.class(c))
                    &&& self.class(c).len() == self.enrolment_count_of(c)
                    &&& self.enrolment_count_of(c) <= self.config.max_students_per_course
                    &&& forall|i: int| 0 <= i < self.class(c).len() ==> (#[trigger] self.class(c)[i]).course_id == c
                        && self.class(c)[i].student != self.courses@[c].owner
                } by {
                assert(self.class(c) == pre.class(c));
                if c == course_id {
                    assert(self.class(c).len() == 0);
                }
            }
            assert forall|c: u32| #![trigger self.ratifiers(c)]
                {
                    &&& self.ratifiers(c).no_duplicates()
                    &&& self.courses@.contains_key(c) ==> !self.ratifiers(c).contains(self.courses@[c].owner)
                } by {
                assert(self.ratifiers(c) == pre.ratifiers(c));
                if c == course_id {
                    assert(self.ratifiers(c).len() == 0);
                }
            }
            assert forall|s: u64| #[trigger] self.rewarded_of(s) <= self.config.rewarded_course_limit
                && self.rewarded_of(s) <= self.completed_of(s) by {
                assert(self.rewarded_of(s) == pre.rewarded_of(s));
            }
            if pre.records_agree() {
                assert(class_in(self.classes@, course_id) =~= Seq::<Enrollment>::empty());
                assert forall|c: u32, i: int| #![trigger class_in(self.classes@, c)[i]] 0 <= i < class_in(self.classes@, c).len() implies {
                    ||| class_in(self.classes@, c)[i].points_awarded == 0
                    ||| self.courses@.contains_key(c) && self.courses@[c].status == CourseStatus::Completed
                        && class_in(self.classes@, c)[i].points_awarded == self.courses@[c].points
                } by {
                    assert(c != course_id);
                    assert(class_in(pre.classes@, c)[i] == class_in(self.classes@, c)[i]);
                }
                assert forall|c: u32| #[trigger] self.courses@.contains_key(c) implies self.courses@[c].points
                    <= self.config.max_points_per_course by {
                    if c != course_id {
                        assert(pre.courses@.contains_key(c));
                    }
                }
            }
        }
        Ok(())
    }

    /// A student's enrolment on a course, if they have one.
    pub open spec fn enrollment_of(&self, c: u32, s: u64) -> Option<Enrollment> {
        if on_list(self.class(c), s) {
            Some(self.class(c)[seat_of(self.class(c), s)])
        } else {
            None
        }
    }

    /// Only students on a class list hold a score or a rewarded course after a change in which
    /// every class kept its students and a counter became non-zero only for a listed student.
    proof fn lemma_enrolled_kept(&self, other: &Self)
        requires
            self.wf(),
            forall|c: u32, s: u64| #![trigger on_list(other.class(c), s)]
                on_list(self.class(c), s) ==> on_list(other.class(c), s),
            forall|s: u64| #[trigger] count_in(other.perwerde_scores@, s) != 0
                ==> count_in(self.perwerde_scores@, s) != 0 || on_some_list(other.classes@, s),
            forall|s: u64| #[trigger] count_in(other.rewarded_courses@, s) != 0
                ==> count_in(self.rewarded_courses@, s) != 0 || on_some_list(other.classes@, s),
        ensures
            forall|s: u64| #[trigger] count_in(other.perwerde_scores@, s) != 0 ==> on_some_list(other.classes@, s),
            forall|s: u64| #[trigger] count_in(other.rewarded_courses@, s) != 0 ==> on_some_list(other.classes@, s),
    {
        assert forall|s: u64| on_some_list(self.classes@, s) implies on_some_list(other.classes@, s) by {
            let c = choose|c: u32| #![trigger on_list(self.classes@[c]@, s)] self.classes@.contains_key(c)
                && on_list(self.classes@[c]@, s);
            assert(on_list(self.class(c), s));
            assert(on_list(other.class(c), s));
            let i = seat_of(other.class(c), s);
            assert(other.classes@.contains_key(c));
            assert(on_list(other.classes@[c]@, s));
        }
        assert forall|s: u64| #[trigger] count_in(other.perwerde_scores@, s) != 0 implies on_some_list(other.classes@, s) by {
            if count_in(self.perwerde_scores@, s) != 0 {
                assert(on_some_list(self.classes@, s));
            }
        }
        assert forall|s: u64| #[trigger] count_in(other.rewarded_courses@, s) != 0 implies on_some_list(other.classes@, s) by {
            if count_in(self.rewarded_courses@, s) != 0 {
                assert(on_some_list(self.classes@, s));
            }
        }
    }

    /// The invariants do not look at the event log.
    proof fn lemma_wf_events(&self, other: &Self)
        requires
            self.wf(),
            other.config == self.config,
            other.courses@ == self.courses@,
            other.next_course_id == self.next_course_id,
            other.course_enrollment_count@ == self.course_enrollment_count@,
            other.classes@ == self.classes@,
            other.course_ratifiers@ == self.course_ratifiers@,
            other.ratification_count@ == self.ratification_count@,
            other.rewarded_courses@ == self.rewarded_courses@,
            other.completed_courses@ == self.completed_courses@,
            other.perwerde_scores@ == self.perwerde_scores@,
            other.honorary_mamoste_count == self.honorary_mamoste_count,
        ensures
            other.wf(),
    {
        assert forall|c: u32| #![trigger other.class(c)]
            {
                &&& distinct_students(other.class(c))
                &&& other.class(c).len() == other.enrolment_count_of(c)
                &&& other.enrolment_count_of(c) <= other.config.max_students_per_course
                &&& forall|i: int| 0 <= i < other.class(c).len() ==> (#[trigger] other.class(c)[i]).course_id == c
                    && other.class(c)[i].student != other.courses@[c].owner
            } by {
            assert(other.class(c) == self.class(c));
        }
        assert forall|c: u32| #![trigger other.ratifiers(c)]
            {
                &&& other.ratifiers(c).no_duplicates()
                &&& other.courses@.contains_key(c) ==> !other.ratifiers(c).contains(other.courses@[c].owner)
            } by {
            assert(other.ratifiers(c) == self.ratifiers(c));
        }
        assert forall|s: u64| #[trigger] other.rewarded_of(s) <= other.config.rewarded_course_limit
            && other.rewarded_of(s) <= other.completed_of(s) by {
            assert(other.rewarded_of(s) == self.rewarded_of(s));
        }
        assert forall|c: u32| #[trigger] other.courses@.contains_key(c) && other.courses@[c].status == CourseStatus::Completed
            implies other.ratification_count_of(c) >= other.config.ratifications_required by {
            assert(self.courses@.contains_key(c));
        }
    }

    /// The course under `id` moves to `status`, and, when `submitted` is given, records it as
    /// when its results were submitted; nothing else moves.
    fn set_status(&mut self, id: u32, status: CourseStatus, submitted: Option<u64>)
        requires
            old(self).wf(),
            old(self).courses@.contains_key(id),
            status == CourseStatus::Completed ==> old(self).ratification_count_of(id)
                >= old(self).config.ratifications_required,
        ensures
            final(self).wf(),
            final(self).courses@ == old(self).courses@.insert(id, final(self).courses@[id]),
            same_course(final(self).courses@[id], old(self).courses@[id]),
            final(self).courses@[id].status == status,
            final(self).courses@[id].submitted_at == match submitted {
                Some(at) => Some(at),
                None => old(self).courses@[id].submitted_at,
            },
            final(self).records_unchanged(old(self)),
            final(self).classes@ == old(self).classes@,
            final(self).course_enrollment_count@ == old(self).course_enrollment_count@,
            final(self).events@ == old(self).events@,
    {
        let ghost pre = *self;
        let mut course = match self.courses.remove(&id) {
            Some(c) => c,
            None => return,
        };
        course.status = status;
        match submitted {
            Some(at) => {
                course.submitted_at = Some(at);
            },
            None => {},
        }
        self.courses.insert(id, course);
        proof {
            assert forall|c: u32| #![trigger self.class(c)]
                {
                    &&& distinct_students(self.class(c))
                    &&& self.class(c).len() == self.enrolment_count_of(c)
                    &&& self.enrolment_count_of(c) <= self.config.max_students_per_course
                    &&& forall|i: int| 0 <= i < self.class(c).len() ==> (#[trigger] self.class(c)[i]).course_id == c
                        && self.class(c)[i].student != self.courses@[c].owner
                } by {
                assert(self.class(c) == pre.class(c));
                assert(pre.class(c) == pre.class(c));
            }
            assert forall|c: u32| #![trigger self.ratifiers(c)]
                {
                    &&& self.ratifiers(c).no_duplicates()
                    &&& self.courses@.contains_key(c) ==> !self.ratifiers(c).contains(self.courses@[c].owner)
                } by {
                assert(self.ratifiers(c) == pre.ratifiers(c));
                assert(pre.ratifiers(c) == pre.ratifiers(c));
            }
            assert forall|s: u64| #[trigger] self.rewarded_of(s) <= self.config.rewarded_course_limit
                && self.rewarded_of(s) <= self.completed_of(s) by {
                assert(self.rewarded_of(s) == pre.rewarded_of(s));
            }
        }
    }

    /// `student` enrols at `now` on `course_id`. Refused for a course that does not exist or
    /// is not enrolling, for its own teacher, for a student already on it, and when it is full.
    pub fn enroll(&mut self, student: u64, course_id: u32, now: u64) -> (r: Result<(), Error>)
        requires
            old(self).wf(),
        ensures
            final(self).wf(),
            old(self).records_agree() ==> final(self).records_agree(),
            r == (if !old(self).courses@.contains_key(course_id) {
                Err(Error::CourseNotFound)
            } else if old(self).courses@[course_id].status != CourseStatus::Enrolling {
                Err(Error::CourseNotActive)
            } else if student == old(self).courses@[course_id].owner {
                Err(Error::OwnerCannotEnrol)
            } else if on_list(old(self).class(course_id), student) {
                Err(Error::AlreadyEnrolled)
            } else if old(self).enrolment_count_of(course_id) >= old(self).config.max_students_per_course {
                Err(Error::TooManyStudents)
            } else {
                Ok::<(), Error>(())
            }),
            r is Err ==> final(self).unchanged(old(self)),
            r is Ok ==> {
                &&& final(self).class(course_id) == old(self).class(course_id).push(
                    Enrollment { student, course_id, enrolled_at: now, passed: None, points_awarded: 0 },
                )
                &&& forall|c: u32| c != course_id ==> #[trigger] final(self).class(c) == old(self).class(c)
                &&& final(self).course_enrollment_count@ == old(self).course_enrollment_count@.insert(
                    course_id,
                    (old(self).enrolment_count_of(course_id) + 1) as u32,
                )
                &&& final(self).courses@ == old(self).courses@
                &&& final(self).records_unchanged(old(self))
                &&& final(self).events@ == old(self).events@.push(Event::StudentEnrolled { student, course_id })
            },
    {
        let owner = match self.courses.get(&course_id) {
            None => return Err(Error::CourseNotFound),
            Some(course) => {
                if course.status != CourseStatus::Enrolling {
                    return Err(Error::CourseNotActive);
                }
                course.owner
            },
        };
        if student == owner {
            return Err(Error::OwnerCannotEnrol);
        }
        let ghost pre = *self;
        let already = match self.classes.get(&course_id) {
            Some(class) => position_of(class, student).is_some(),
            None => false,
        };
        if already {
            return Err(Error::AlreadyEnrolled);
        }
        let enrolled = read_course_count(&self.course_enrollment_count, course_id);
        if enrolled >= self.config.max_students_per_course {
            return Err(Error::TooManyStudents);
        }
        let mut class = match self.classes.remove(&course_id) {
            Some(v) => v,
            None => Vec::new(),
        };
        proof {
            assert(class@ == pre.class(course_id));
        }
        class.push(Enrollment { student, course_id, enrolled_at: now, passed: None, points_awarded: 0 });
        self.classes.insert(course_id, class);
        self.course_enrollment_count.insert(course_id, enrolled + 1);
        self.events.push(Event::StudentEnrolled { student, course_id });
        proof {
            assert forall|c: u32| c != course_id implies #[trigger] self.class(c) == pre.class(c) by {
                assert(self.classes@.contains_key(c) == pre.classes@.contains_key(c));
            }
            assert forall|c: u32| #![trigger self.class(c)]
                {
                    &&& distinct_students(self.class(c))
                    &&& self.class(c).len() == self.enrolment_count_of(c)
                    &&& self.enrolment_count_of(c) <= self.config.max_students_per_course
                    &&& forall|i: int| 0 <= i < self.class(c).len() ==> (#[trigger] self.class(c)[i]).course_id == c
                        && self.class(c)[i].student != self.courses@[c].owner
                } by {
                if c != course_id {
                    assert(pre.class(c) == pre.class(c));
                } else {
                    let old_class = pre.class(c);
                    assert(distinct_students(old_class));
                    assert forall|i: int, j: int| 0 <= i < self.class(c).len() && 0 <= j < self.class(c).len()
                        && i != j implies #[trigger] self.class(c)[i].student != #[trigger] self.class(c)[j].student by {
                        if i == old_class.len() as int {
                            assert(self.class(c)[j] == old_class[j]);
                        } else if j == old_class.len() as int {
                            assert(self.class(c)[i] == old_class[i]);
                        } else {
                            assert(self.class(c)[i] == old_class[i]);
                            assert(self.class(c)[j] == old_class[j]);
                        }
                    }
                    assert forall|i: int| 0 <= i < self.class(c).len() implies (#[trigger] self.class(c)[i]).course_id == c
                        && self.class(c)[i].student != self.courses@[c].owner by {
                        if i < old_class.len() {
                            assert(self.class(c)[i] == old_class[i]);
                        }
                    }
                }
            }
            assert forall|c: u32| #![trigger self.ratifiers(c)]
                {
                    &&& self.ratifiers(c).no_duplicates()
                    &&& self.courses@.contains_key(c) ==> !self.ratifiers(c).contains(self.courses@[c].owner)
                } by {
                assert(self.ratifiers(c) == pre.ratifiers(c));
                assert(pre.ratifiers(c) == pre.ratifiers(c));
            }
            assert forall|s: u64| #[trigger] self.rewarded_of(s) <= self.config.rewarded_course_limit
                && self.rewarded_of(s) <= self.completed_of(s) by {
                assert(self.rewarded_of(s) == pre.rewarded_of(s));
            }
            assert forall|c: u32, s: u64| #![trigger on_list(self.class(c), s)]
                on_list(pre.class(c), s) implies on_list(self.class(c), s) by {
                let i = seat_of(pre.class(c), s);
                if c == course_id {
                    assert(self.class(c)[i] == pre.class(c)[i]);
                }
            }
            pre.lemma_enrolled_kept(self);
            if pre.records_agree() {
                let e = Enrollment { student, course_id, enrolled_at: now, passed: None, points_awarded: 0 };
                assert forall|i: int| #![trigger self.class(course_id)[i]] 0 <= i < self.class(course_id).len() implies {
                    ||| self.class(course_id)[i].points_awarded == 0
                    ||| self.courses@.contains_key(course_id) && self.courses@[course_id].status == CourseStatus::Completed
                        && self.class(course_id)[i].points_awarded == self.courses@[course_id].points
                } by {
                    if i < pre.class(course_id).len() {
                        assert(self.class(course_id)[i] == pre.class(course_id)[i]);
                        assert(class_in(pre.classes@, course_id)[i] == pre.class(course_id)[i]);
                    }
                }
                assert forall|t: u64| #[trigger] self.score_of(t) as nat + class_awarded(pre.class(course_id), t)
                    == pre.score_of(t) as nat + class_awarded(self.class(course_id), t) by {
                    lemma_class_push(pre.class(course_id), e, t);
                }
                assert forall|t: u64| #[trigger] self.rewarded_of(t) as nat + class_rewarded(pre.class(course_id), t)
                    == pre.rewarded_of(t) as nat + class_rewarded(self.class(course_id), t) by {
                    lemma_class_push(pre.class(course_id), e, t);
                }
                pre.lemma_agreement_step(self, course_id);
            }
        }
        Ok(())
    }

    /// The teacher `caller` records how `student` did on `course_id`: a draft that counts for
    /// nothing and can be changed again until the results are submitted. Refused for a course
    /// that does not exist, for anyone but its teacher, once it has stopped enrolling, and for
    /// a student not on it.
    pub fn record_result(&mut self, caller: u64, student: u64, course_id: u32, passed: bool) -> (r: Result<(), Error>)
        requires
            old(self).wf(),
        ensures
            final(self).wf(),
            old(self).records_agree() ==> final(self).records_agree(),
            r == (if !old(self).courses@.contains_key(course_id) {
                Err(Error::CourseNotFound)
            } else if old(self).courses@[course_id].owner != caller {
                Err(Error::NotCourseOwner)
            } else if old(self).courses@[course_id].status != CourseStatus::Enrolling {
                Err(Error::CourseNotActive)
            } else if !on_list(old(self).class(course_id), student) {
                Err(Error::NotEnrolled)
            } else {
                Ok::<(), Error>(())
            }),
            r is Err ==> final(self).unchanged(old(self)),
            r is Ok ==> {
                let i = seat_of(old(self).class(course_id), student);
                &&& final(self).class(course_id) == old(self).class(course_id).update(
                    i,
                    Enrollment { passed: Some(passed), ..old(self).class(course_id)[i] },
                )
                &&& forall|c: u32| c != course_id ==> #[trigger] final(self).class(c) == old(self).class(c)
                &&& final(self).courses@ == old(self).courses@
                &&& final(self).course_enrollment_count@ == old(self).course_enrollment_count@
                &&& final(self).records_unchanged(old(self))
                &&& final(self).events@ == old(self).events@.push(Event::ResultRecorded { student, course_id, passed })
            },
    {
        match self.courses.get(&course_id) {
            None => return Err(Error::CourseNotFound),
            Some(course) => {
                if course.owner != caller {
                    return Err(Error::NotCourseOwner);
                }
                if course.status != CourseStatus::Enrolling {
                    return Err(Error::CourseNotActive);
                }
            },
        }
        let ghost pre = *self;
        let seat = match self.classes.get(&course_id) {
            Some(class) => position_of(class, student),
            None => None,
        };
        let i = match seat {
            Some(i) => i,
            None => return Err(Error::NotEnrolled),
        };
        let mut class = match self.classes.remove(&course_id) {
            Some(v) => v,
            None => Vec::new(),
        };
        proof {
            assert(class@ == pre.class(course_id));
            let k = seat_of(pre.class(course_id), student);
            assert(distinct_students(pre.class(course_id)));
            assert(pre.class(course_id)[k].student == student);
            assert(k == i as int);
        }
        let mut e = class[i];
        e.passed = Some(passed);
        class.set(i, e);
        self.classes.insert(course_id, class);
        self.events.push(Event::ResultRecorded { student, course_id, passed });
        proof {
            assert forall|c: u32| c != course_id implies #[trigger] self.class(c) == pre.class(c) by {
                assert(self.classes@.contains_key(c) == pre.classes@.contains_key(c));
            }
            assert forall|c: u32| #![trigger self.class(c)]
                {
                    &&& distinct_students(self.class(c))
                    &&& self.class(c).len() == self.enrolment_count_of(c)
                    &&& self.enrolment_count_of(c) <= self.config.max_students_per_course
                    &&& forall|j: int| 0 <= j < self.class(c).len() ==> (#[trigger] self.class(c)[j]).course_id == c
                        && self.class(c)[j].student != self.courses@[c].owner
                } by {
                let old_class = pre.class(c);
                assert(distinct_students(old_class));
                assert forall|j: int| 0 <= j < self.class(c).len() implies (#[trigger] self.class(c)[j]).student == old_class[j].student
                    && self.class(c)[j].course_id == old_class[j].course_id by {
                    if c == course_id && j == i as int {
                    } else {
                        assert(self.class(c)[j] == old_class[j]);
                    }
                }
                assert forall|a: int, b: int| 0 <= a < self.class(c).len() && 0 <= b < self.class(c).len()
                    && a != b implies #[trigger] self.class(c)[a].student != #[trigger] self.class(c)[b].student by {
                    assert(self.class(c)[a].student == old_class[a].student);
                    assert(self.class(c)[b].student == old_class[b].student);
                }
            }
            assert forall|c: u32| #![trigger self.ratifiers(c)]
                {
                    &&& self.ratifiers(c).no_duplicates()
                    &&& self.courses@.contains_key(c) ==> !self.ratifiers(c).contains(self.courses@[c].owner)
                } by {
                assert(self.ratifiers(c) == pre.ratifiers(c));
                assert(pre.ratifiers(c) == pre.ratifiers(c));
            }
            assert forall|s: u64| #[trigger] self.rewarded_of(s) <= self.config.rewarded_course_limit
                && self.rewarded_of(s) <= self.completed_of(s) by {
                assert(self.rewarded_of(s) == pre.rewarded_of(s));
            }
            assert forall|c: u32, s: u64| #![trigger on_list(self.class(c), s)]
                on_list(pre.class(c), s) implies on_list(self.class(c), s) by {
                let k = seat_of(pre.class(c), s);
                if c == course_id && k == i as int {
                    assert(self.class(c)[k].student == s);
                } else {
                    assert(self.class(c)[k] == pre.class(c)[k]);
                }
            }
            pre.lemma_enrolled_kept(self);
            if pre.records_agree() {
                assert forall|j: int| 0 <= j < self.class(course_id).len() implies (#[trigger] self.class(course_id)[j]).student
                    == pre.class(course_id)[j].student && self.class(course_id)[j].points_awarded
                    == pre.class(course_id)[j].points_awarded by {
                    if j != i as int {
                        assert(self.class(course_id)[j] == pre.class(course_id)[j]);
                    }
                }
                assert forall|j: int| #![trigger self.class(course_id)[j]] 0 <= j < self.class(course_id).len() implies {
                    ||| self.class(course_id)[j].points_awarded == 0
                    ||| self.courses@.contains_key(course_id) && self.courses@[course_id].status == CourseStatus::Completed
                        && self.class(course_id)[j].points_awarded == self.courses@[course_id].points
                } by {
                    assert(class_in(pre.classes@, course_id)[j] == pre.class(course_id)[j]);
                }
                assert forall|t: u64| #[trigger] self.score_of(t) as nat + class_awarded(pre.class(course_id), t)
                    == pre.score_of(t) as nat + class_awarded(self.class(course_id), t) by {
                    lemma_class_same_awards(self.class(course_id), pre.class(course_id), t);
                }
                assert forall|t: u64| #[trigger] self.rewarded_of(t) as nat + class_rewarded(pre.class(course_id), t)
                    == pre.rewarded_of(t) as nat + class_rewarded(self.class(course_id), t) by {
                    lemma_class_same_awards(self.class(course_id), pre.class(course_id), t);
                }
                pre.lemma_agreement_step(self, course_id);
            }
        }
        Ok(())
    }

    /// The teacher `caller` submits the results of `course_id` to the board at `now`. Refused
    /// for a course that does not exist, for anyone but its teacher, once it has stopped
    /// enrolling, and before it has run its minimum duration.
    pub fn submit_results(&mut self, caller: u64, course_id: u32, now: u64) -> (r: Result<(), Error>)
        requires
            old(self).wf(),
        ensures
            final(self).wf(),
            old(self).records_agree() ==> final(self).records_agree(),
            r == (if !old(self).courses@.contains_key(course_id) {
                Err(Error::CourseNotFound)
            } else if old(self).courses@[course_id].owner != caller {
                Err(Error::NotCourseOwner)
            } else if old(self).courses@[course_id].status != CourseStatus::Enrolling {
                Err(Error::CourseNotActive)
            } else if now < sat_add_u64(old(self).courses@[course_id].created_at, old(self).config.min_course_duration) {
                Err(Error::TooEarlyToSubmit)
            } else {
                Ok::<(), Error>(())
            }),
            r is Err ==> final(self).unchanged(old(self)),
            r is Ok ==> {
                let c = final(self).courses@[course_id];
                &&& final(self).courses@ == old(self).courses@.insert(course_id, c)
                &&& same_course(c, old(self).courses@[course_id])
                &&& c.status == CourseStatus::AwaitingRatification
                &&& c.submitted_at == Some(now)
                &&& final(self).classes@ == old(self).classes@
                &&& final(self).course_enrollment_count@ == old(self).course_enrollment_count@
                &&& final(self).records_unchanged(old(self))
                &&& final(self).events@ == old(self).events@.push(Event::ResultsSubmitted { course_id })
            },
    {
        match self.courses.get(&course_id) {
            None => return Err(Error::CourseNotFound),
            Some(course) => {
                if course.owner != caller {
                    return Err(Error::NotCourseOwner);
                }
                if course.status != CourseStatus::Enrolling {
                    return Err(Error::CourseNotActive);
                }
                if now < course.created_at.saturating_add(self.config.min_course_duration) {
                    return Err(Error::TooEarlyToSubmit);
                }
            },
        }
        let ghost pre = *self;
        self.events.push(Event::ResultsSubmitted { course_id });
        proof {
            pre.lemma_wf_events(self);
        }
        self.set_status(course_id, CourseStatus::AwaitingRatification, Some(now));
        Ok(())
    }

    /// Close at `now` a course whose year ran out before its results were ratified. It
    /// awards nothing. Refused for a course that does not exist, one already closed, and one
    /// still within its year.
    pub fn expire_course(&mut self, course_id: u32, now: u64) -> (r: Result<(), Error>)
        requires
            old(self).wf(),
        ensures
            final(self).wf(),
            old(self).records_agree() ==> final(self).records_agree(),
            r == (if !old(self).courses@.contains_key(course_id) {
                Err(Error::CourseNotFound)
            } else if old(self).courses@[course_id].status != CourseStatus::Enrolling
                && old(self).courses@[course_id].status != CourseStatus::AwaitingRatification {
                Err(Error::CourseNotActive)
            } else if now <= sat_add_u64(old(self).courses@[course_id].created_at, old(self).config.max_course_duration) {
                Err(Error::NotYetExpired)
            } else {
                Ok::<(), Error>(())
            }),
            r is Err ==> final(self).unchanged(old(self)),
            r is Ok ==> {
                let c = final(self).courses@[course_id];
                &&& final(self).courses@ == old(self).courses@.insert(course_id, c)
                &&& same_course(c, old(self).courses@[course_id])
                &&& c.status == CourseStatus::Expired
                &&& c.submitted_at == old(self).courses@[course_id].submitted_at
                &&& final(self).classes@ == old(self).classes@
                &&& final(self).course_enrollment_count@ == old(self).course_enrollment_count@
                &&& final(self).records_unchanged(old(self))
                &&& final(self).events@ == old(self).events@.push(Event::CourseExpired { course_id })
            },
    {
        match self.courses.get(&course_id) {
            None => return Err(Error::CourseNotFound),
            Some(course) => {
                if course.status != CourseStatus::Enrolling && course.status != CourseStatus::AwaitingRatification {
                    return Err(Error::CourseNotActive);
                }
                if now <= course.created_at.saturating_add(self.config.max_course_duration) {
                    return Err(Error::NotYetExpired);
                }
            },
        }
        let ghost pre = *self;
        self.events.push(Event::CourseExpired { course_id });
        proof {
            pre.lemma_wf_events(self);
        }
        self.set_status(course_id, CourseStatus::Expired, None);
        Ok(())
    }

    /// The minister brings `course_id` before the court. Refused for a course that does not
    /// exist.
    pub fn report_course_fraud(&mut self, course_id: u32) -> (r: Result<(), Error>)
        requires
            old(self).wf(),
        ensures
            final(self).wf(),
            old(self).records_agree() ==> final(self).records_agree(),
            !old(self).courses@.contains_key(course_id) ==> r == Err::<(), Error>(Error::CourseNotFound)
                && final(self).unchanged(old(self)),
            old(self).courses@.contains_key(course_id) ==> {
                &&& r == Ok::<(), Error>(())
                &&& final(self).courses_under_review@ == old(self).courses_under_review@.insert(course_id)
                &&& final(self).courses@ == old(self).courses@
                &&& final(self).classes@ == old(self).classes@
                &&& final(self).course_enrollment_count@ == old(self).course_enrollment_count@
                &&& final(self).course_ratifiers@ == old(self).course_ratifiers@
                &&& final(self).ratification_count@ == old(self).ratification_count@
                &&& final(self).perwerde_scores@ == old(self).perwerde_scores@
                &&& final(self).rewarded_courses@ == old(self).rewarded_courses@
                &&& final(self).completed_courses@ == old(self).completed_courses@
                &&& final(self).honorary_mamoste@ == old(self).honorary_mamoste@
                &&& final(self).honorary_mamoste_count == old(self).honorary_mamoste_count
                &&& final(self).annulled_ratifications@ == old(self).annulled_ratifications@
                &&& final(self).next_course_id == old(self).next_course_id
                &&& final(self).config == old(self).config
                &&& final(self).events@ == old(self).events@.push(Event::CourseReported { course_id })
            },
    {
        if !self.courses.contains_key(&course_id) {
            return Err(Error::CourseNotFound);
        }
        let ghost pre = *self;
        self.courses_under_review.insert(course_id);
        self.events.push(Event::CourseReported { course_id });
        proof {
            assert forall|c: u32| #![trigger self.class(c)]
                {
                    &&& distinct_students(self.class(c))
                    &&& self.class(c).len() == self.enrolment_count_of(c)
                    &&& self.enrolment_count_of(c) <= self.config.max_students_per_course
                    &&& forall|i: int| 0 <= i < self.class(c).len() ==> (#[trigger] self.class(c)[i]).course_id == c
                        && self.class(c)[i].student != self.courses@[c].owner
                } by {
                assert(self.class(c) == pre.class(c));
            }
            assert forall|c: u32| #![trigger self.ratifiers(c)]
                {
                    &&& self.ratifiers(c).no_duplicates()
                    &&& self.courses@.contains_key(c) ==> !self.ratifiers(c).contains(self.courses@[c].owner)
                } by {
                assert(self.ratifiers(c) == pre.ratifiers(c));
            }
            assert forall|s: u64| #[trigger] self.rewarded_of(s) <= self.config.rewarded_course_limit
                && self.rewarded_of(s) <= self.completed_of(s) by {
                assert(self.rewarded_of(s) == pre.rewarded_of(s));
            }
        }
        Ok(())
    }

    /// Whether the minister may seed another teacher: refused once the corps seeded so far
    /// is at the cap. The role is granted only after this says yes.
    pub fn appoint_honorary_mamoste_check(&self) -> (r: Result<(), Error>)
        ensures
            r == (if self.honorary_mamoste_count >= self.config.max_honorary_mamoste {
                Err(Error::HonoraryMamosteLimitReached)
            } else {
                Ok::<(), Error>(())
            }),
    {
        if self.honorary_mamoste_count >= self.config.max_honorary_mamoste {
            return Err(Error::HonoraryMamosteLimitReached);
        }
        Ok(())
    }

    /// The minister seeds `who` as a teacher. `role_granted` says whether the role pallet
    /// granted them the teacher's role; without it nothing is recorded.
    pub fn appoint_honorary_mamoste(&mut self, who: u64, role_granted: bool) -> (r: Result<(), Error>)
        requires
            old(self).wf(),
        ensures
            final(self).wf(),
            old(self).records_agree() ==> final(self).records_agree(),
            r == (if old(self).honorary_mamoste_count >= old(self).config.max_honorary_mamoste {
                Err(Error::HonoraryMamosteLimitReached)
            } else if !role_granted {
                Err(Error::RoleNotGranted)
            } else {
                Ok::<(), Error>(())
            }),
            r is Err ==> final(self).unchanged(old(self)),
            r is Ok ==> {
                &&& final(self).honorary_mamoste@ == old(self).honorary_mamoste@.insert(who)
                &&& final(self).honorary_mamoste_count == old(self).honorary_mamoste_count + 1
                &&& final(self).courses@ == old(self).courses@
                &&& final(self).classes@ == old(self).classes@
                &&& final(self).course_enrollment_count@ == old(self).course_enrollment_count@
                &&& final(self).course_ratifiers@ == old(self).course_ratifiers@
                &&& final(self).ratification_count@ == old(self).ratification_count@
                &&& final(self).perwerde_scores@ == old(self).perwerde_scores@
                &&& final(self).rewarded_courses@ == old(self).rewarded_courses@
                &&& final(self).completed_courses@ == old(self).completed_courses@
                &&& final(self).courses_under_review@ == old(self).courses_under_review@
                &&& final(self).annulled_ratifications@ == old(self).annulled_ratifications@
                &&& final(self).next_course_id == old(self).next_course_id
                &&& final(self).config == old(self).config
                &&& final(self).events@ == old(self).events@.push(Event::HonoraryMamosteAppointed { who })
            },
    {
        self.appoint_honorary_mamoste_check()?;
        if !role_granted {
            return Err(Error::RoleNotGranted);
        }
        let ghost pre = *self;
        self.honorary_mamoste.insert(who);
        self.honorary_mamoste_count = self.honorary_mamoste_count + 1;
        self.events.push(Event::HonoraryMamosteAppointed { who });
        proof {
            assert forall|c: u32| #![trigger self.class(c)]
                {
                    &&& distinct_students(self.class(c))
                    &&& self.class(c).len() == self.enrolment_count_of(c)
                    &&& self.enrolment_count_of(c) <= self.config.max_students_per_course
                    &&& forall|i: int| 0 <= i < self.class(c).len() ==> (#[trigger] self.class(c)[i]).course_id == c
                        && self.class(c)[i].student != self.courses@[c].owner
                } by {
                assert(self.class(c) == pre.class(c));
            }
            assert forall|c: u32| #![trigger self.ratifiers(c)]
                {
                    &&& self.ratifiers(c).no_duplicates()
                    &&& self.courses@.contains_key(c) ==> !self.ratifiers(c).contains(self.courses@[c].owner)
                } by {
                assert(self.ratifiers(c) == pre.ratifiers(c));
            }
            assert forall|s: u64| #[trigger] self.rewarded_of(s) <= self.config.rewarded_course_limit
                && self.rewarded_of(s) <= self.completed_of(s) by {
                assert(self.rewarded_of(s) == pre.rewarded_of(s));
            }
        }
        Ok(())
    }

    /// The roles `who`'s record now supports.
    pub fn award_earned_roles(&self, who: u64) -> (r: EarnedRoles)
        ensures
            r == roles_for(self.config, self.completed_of(who), self.score_of(who)),
    {
        let completed = read_count(&self.completed_courses, who);
        if completed < self.config.min_courses_for_role {
            return EarnedRoles { axa: false, mamoste: false, rewsenbir: false };
        }
        let score = read_count(&self.perwerde_scores, who);
        EarnedRoles {
            axa: self.config.axa_threshold > 0 && score >= self.config.axa_threshold,
            mamoste: self.config.mamoste_threshold > 0 && score >= self.config.mamoste_threshold,
            rewsenbir: self.config.rewsenbir_threshold > 0 && score >= self.config.rewsenbir_threshold,
        }
    }

    /// What a student's education is worth, for the trust score.
    pub fn get_perwerde_score(&self, who: u64) -> (r: u32)
        ensures
            r == self.score_of(who),
    {
        read_count(&self.perwerde_scores, who)
    }

    /// What a student's education is worth.
    pub fn perwerde_score(&self, who: u64) -> (r: u32)
        ensures
            r == self.score_of(who),
    {
        read_count(&self.perwerde_scores, who)
    }

    /// How many of a student's completed courses counted towards their score.
    pub fn rewarded_courses_of(&self, who: u64) -> (r: u32)
        ensures
            r == self.rewarded_of(who),
    {
        read_count(&self.rewarded_courses, who)
    }

    /// How many courses a student has completed, rewarded or not.
    pub fn completed_courses_of(&self, who: u64) -> (r: u32)
        ensures
            r == self.completed_of(who),
    {
        read_count(&self.completed_courses, who)
    }

    /// How many ratifications of later-annulled courses a teacher has.
    pub fn annulled_ratifications_of(&self, who: u64) -> (r: u32)
        ensures
            r == self.annulled_of(who),
    {
        read_count(&self.annulled_ratifications, who)
    }

    /// A course, if it exists.
    pub fn courses_get(&self, course_id: u32) -> (r: Option<&Course>)
        ensures
            match r {
                Some(c) => self.courses@.contains_key(course_id) && *c == self.courses@[course_id],
                None => !self.courses@.contains_key(course_id),
            },
    {
        self.courses.get(&course_id)
    }

    /// How many students are enrolled on a course.
    pub fn course_enrollment_count_of(&self, course_id: u32) -> (r: u32)
        ensures
            r == self.enrolment_count_of(course_id),
    {
        read_course_count(&self.course_enrollment_count, course_id)
    }

    /// How many teachers have ratified a course.
    pub fn ratification_count_get(&self, course_id: u32) -> (r: u32)
        ensures
            r == self.ratification_count_of(course_id),
    {
        read_course_count(&self.ratification_count, course_id)
    }

    /// A student's enrolment on a course, if they have one.
    pub fn enrollments(&self, course_id: u32, student: u64) -> (r: Option<Enrollment>)
        requires
            self.wf(),
        ensures
            r == self.enrollment_of(course_id, student),
    {
        match self.classes.get(&course_id) {
            None => None,
            Some(class) => match position_of(class, student) {
                None => None,
                Some(i) => {
                    proof {
                        let k = seat_of(self.class(course_id), student);
                        assert(distinct_students(self.class(course_id)));
                        assert(self.class(course_id)[k].student == student);
                    }
                    Some(class[i])
                },
            },
        }
    }

    /// Whether `who` has ratified `course_id`.
    pub fn course_ratifier(&self, course_id: u32, who: u64) -> (r: bool)
        ensures
            r == self.ratifiers(course_id).contains(who),
    {
        match self.course_ratifiers.get(&course_id) {
            None => false,
            Some(list) => vec_contains(list, who),
        }
    }

    /// Whether `who` is a teacher the minister seeded.
    pub fn is_honorary_mamoste(&self, who: u64) -> (r: bool)
        ensures
            r == self.honorary_mamoste@.contains(who),
    {
        self.honorary_mamoste.contains(&who)
    }

    /// Whether the court has been asked to look at `course_id`.
    pub fn course_under_review(&self, course_id: u32) -> (r: bool)
        ensures
            r == self.courses_under_review@.contains(course_id),
    {
        self.courses_under_review.contains(&course_id)
    }

    /// Whether closing a course worth anything gives `e`'s student points: they passed and
    /// have not yet been rewarded for as many courses as count.
    pub open spec fn gets_points(&self, e: Enrollment) -> bool {
        passes(e) && self.rewarded_of(e.student) < self.config.rewarded_course_limit
    }

    /// `e` once its course, worth `points`, is closed.
    pub open spec fn closed_enrollment(&self, e: Enrollment, points: u32) -> Enrollment {
        if self.gets_points(e) {
            Enrollment { points_awarded: points, ..e }
        } else {
            e
        }
    }

    /// The students among the first `n` of a class whose score closing the course changes.
    pub open spec fn scored(&self, class: Seq<Enrollment>, n: int) -> Seq<u64>
        decreases n,
    {
        if n <= 0 {
            Seq::empty()
        } else if self.gets_points(class[n - 1]) {
            self.scored(class, n - 1).push(class[n - 1].student)
        } else {
            self.scored(class, n - 1)
        }
    }

    /// The roles each passing student among the first `n` of a class holds once a course
    /// worth `points` is closed.
    pub open spec fn granted(&self, class: Seq<Enrollment>, n: int, points: u32) -> Seq<(u64, EarnedRoles)>
        decreases n,
    {
        if n <= 0 {
            Seq::empty()
        } else if passes(class[n - 1]) {
            let e = class[n - 1];
            let s = e.student;
            let completed = sat_add_u32(self.completed_of(s), 1);
            let score = if self.gets_points(e) {
                sat_add_u32(self.score_of(s), points)
            } else {
                self.score_of(s)
            };
            self.granted(class, n - 1, points).push((s, roles_for(self.config, completed, score)))
        } else {
            self.granted(class, n - 1, points)
        }
    }

    /// Who closing a course rewards depends only on the configuration and the counters.
    proof fn lemma_closing_reads_counters(&self, other: &Self, class: Seq<Enrollment>, n: int, points: u32)
        requires
            other.config == self.config,
            other.rewarded_courses@ == self.rewarded_courses@,
            other.completed_courses@ == self.completed_courses@,
            other.perwerde_scores@ == self.perwerde_scores@,
        ensures
            other.scored(class, n) == self.scored(class, n),
            other.granted(class, n, points) == self.granted(class, n, points),
        decreases n,
    {
        if n > 0 {
            self.lemma_closing_reads_counters(other, class, n - 1, points);
        }
    }

    /// The invariants survive a change of the per-student counters, the event log, and the
    /// enrolment records of one course that keeps its students, provided no student has been
    /// rewarded for more courses than count or than they completed.
    proof fn lemma_wf_counters(&self, other: &Self, c: u32)
        requires
            self.wf(),
            other.config == self.config,
            other.courses@ == self.courses@,
            other.next_course_id == self.next_course_id,
            other.course_enrollment_count@ == self.course_enrollment_count@,
            other.course_ratifiers@ == self.course_ratifiers@,
            other.ratification_count@ == self.ratification_count@,
            other.honorary_mamoste_count == self.honorary_mamoste_count,
            forall|d: u32| d != c ==> #[trigger] other.class(d) == self.class(d),
            other.courses@.contains_key(c),
            forall|d: u32| d != c ==> #[trigger] other.classes@.contains_key(d) == self.classes@.contains_key(d),
            other.class(c).len() == self.class(c).len(),
            forall|i: int| 0 <= i < self.class(c).len() ==> (#[trigger] other.class(c)[i]).student == self.class(c)[i].student
                && other.class(c)[i].course_id == self.class(c)[i].course_id,
            forall|s: u64| #[trigger] other.rewarded_of(s) <= other.config.rewarded_course_limit
                && other.rewarded_of(s) <= other.completed_of(s),
            forall|s: u64| #[trigger] count_in(other.perwerde_scores@, s) != 0
                ==> count_in(self.perwerde_scores@, s) != 0 || on_list(self.class(c), s),
            forall|s: u64| #[trigger] count_in(other.rewarded_courses@, s) != 0
                ==> count_in(self.rewarded_courses@, s) != 0 || on_list(self.class(c), s),
        ensures
            other.wf(),
    {
        assert forall|d: u32, s: u64| #![trigger on_list(other.class(d), s)]
            on_list(self.class(d), s) implies on_list(other.class(d), s) by {
            let k = seat_of(self.class(d), s);
            if d == c {
                assert(other.class(d)[k].student == s);
            } else {
                assert(other.class(d) == self.class(d));
            }
        }
        assert forall|s: u64| on_list(self.class(c), s) implies on_some_list(other.classes@, s) by {
            let k = seat_of(self.class(c), s);
            assert(other.class(c)[k].student == s);
            assert(other.classes@.contains_key(c));
            assert(on_list(other.classes@[c]@, s));
        }
        self.lemma_enrolled_kept(other);
        assert forall|d: u32| #![trigger other.class(d)]
            {
                &&& distinct_students(other.class(d))
                &&& other.class(d).len() == other.enrolment_count_of(d)
                &&& other.enrolment_count_of(d) <= other.config.max_students_per_course
                &&& forall|i: int| 0 <= i < other.class(d).len() ==> (#[trigger] other.class(d)[i]).course_id == d
                    && other.class(d)[i].student != other.courses@[d].owner
            } by {
            if d != c {
                assert(other.class(d) == self.class(d));
            } else {
                let old_class = self.class(d);
                assert(distinct_students(old_class));
                assert forall|a: int, b: int| 0 <= a < other.class(d).len() && 0 <= b < other.class(d).len()
                    && a != b implies #[trigger] other.class(d)[a].student != #[trigger] other.class(d)[b].student by {
                    assert(other.class(d)[a].student == old_class[a].student);
                    assert(other.class(d)[b].student == old_class[b].student);
                }
                assert forall|i: int| 0 <= i < other.class(d).len() implies (#[trigger] other.class(d)[i]).course_id == d
                    && other.class(d)[i].student != other.courses@[d].owner by {
                    assert(old_class[i].course_id == d);
                }
            }
        }
        assert forall|d: u32| #![trigger other.ratifiers(d)]
            {
                &&& other.ratifiers(d).no_duplicates()
                &&& other.courses@.contains_key(d) ==> !other.ratifiers(d).contains(other.courses@[d].owner)
            } by {
            assert(other.ratifiers(d) == self.ratifiers(d));
        }
        assert forall|d: u32| #[trigger] other.courses@.contains_key(d) && other.courses@[d].status == CourseStatus::Completed
            implies other.ratification_count_of(d) >= other.config.ratifications_required by {
            assert(self.courses@.contains_key(d));
        }
    }

    /// What closing `course_id` did, from this state to `post`, returning `r`: every student
    /// who passed completed one more course, those not yet rewarded for as many courses as
    /// count got its points as well, nobody else's record moved, the class records what was
    /// awarded, no other class changed, and the course is `Completed`.
    pub open spec fn awarded(&self, post: &Self, course_id: u32, r: CourseClosure) -> bool {
        let class = self.class(course_id);
        let points = self.courses@[course_id].points;
        &&& forall|i: int| 0 <= i < class.len() ==> {
            let e = #[trigger] class[i];
            let s = e.student;
            &&& post.completed_of(s) == if passes(e) {
                sat_add_u32(self.completed_of(s), 1)
            } else {
                self.completed_of(s)
            }
            &&& post.rewarded_of(s) == if self.gets_points(e) {
                (self.rewarded_of(s) + 1) as u32
            } else {
                self.rewarded_of(s)
            }
            &&& post.score_of(s) == if self.gets_points(e) {
                sat_add_u32(self.score_of(s), points)
            } else {
                self.score_of(s)
            }
        }
        &&& forall|s: u64| !on_list(class, s) ==> {
            &&& #[trigger] post.completed_of(s) == self.completed_of(s)
            &&& post.rewarded_of(s) == self.rewarded_of(s)
            &&& post.score_of(s) == self.score_of(s)
        }
        &&& post.class(course_id).len() == class.len()
        &&& forall|i: int| 0 <= i < class.len() ==> #[trigger] post.class(course_id)[i]
            == self.closed_enrollment(class[i], points)
        &&& forall|c: u32| c != course_id ==> #[trigger] post.class(c) == self.class(c)
        &&& post.courses@ == self.courses@.insert(course_id, post.courses@[course_id])
        &&& same_course(post.courses@[course_id], self.courses@[course_id])
        &&& post.courses@[course_id].status == CourseStatus::Completed
        &&& post.courses@[course_id].submitted_at == self.courses@[course_id].submitted_at
        &&& r.awarded_to == passing_count(class, class.len() as int)
        &&& r.score_changed@ == self.scored(class, class.len() as int)
        &&& r.grants@ == self.granted(class, class.len() as int, points)
    }

    /// Close a ratified course and turn its recorded passes into points: every student who
    /// passed has completed one more course; those not yet rewarded for as many courses as
    /// count also get the course's points. The course is then `Completed`.
    fn close_and_award(&mut self, course_id: u32) -> (r: CourseClosure)
        requires
            old(self).wf(),
            old(self).courses@.contains_key(course_id),
            old(self).ratification_count_of(course_id) >= old(self).config.ratifications_required,
        ensures
            final(self).wf(),
            old(self).awarded(final(self), course_id, r),
            ({
                let pre = *old(self);
                &&& final(self).config == pre.config
                &&& final(self).next_course_id == pre.next_course_id
                &&& final(self).course_enrollment_count@ == pre.course_enrollment_count@
                &&& final(self).course_ratifiers@ == pre.course_ratifiers@
                &&& final(self).ratification_count@ == pre.ratification_count@
                &&& final(self).honorary_mamoste@ == pre.honorary_mamoste@
                &&& final(self).honorary_mamoste_count == pre.honorary_mamoste_count
                &&& final(self).courses_under_review@ == pre.courses_under_review@
                &&& final(self).annulled_ratifications@ == pre.annulled_ratifications@
                &&& final(self).events@ == pre.events@.push(
                    Event::CourseCompleted { course_id, awarded_to: r.awarded_to },
                )
            }),
    {
        let ghost pre = *self;
        let points = match self.courses.get(&course_id) {
            Some(course) => course.points,
            None => 0,
        };
        let ghost class = pre.class(course_id);
        let old_class = match self.classes.remove(&course_id) {
            Some(v) => v,
            None => Vec::new(),
        };
        proof {
            assert(old_class@ == class);
            assert(distinct_students(class));
            assert(class.len() <= u32::MAX);
        }
        let limit = self.config.rewarded_course_limit;
        proof {
            assert forall|s: u64| #[trigger] self.rewarded_of(s) <= limit && self.rewarded_of(s) <= self.completed_of(s) by {
                assert(pre.rewarded_of(s) <= limit && pre.rewarded_of(s) <= pre.completed_of(s));
            }
        }
        let mut new_class: Vec<Enrollment> = Vec::new();
        let mut awarded_to: u32 = 0;
        let mut score_changed: Vec<u64> = Vec::new();
        let mut grants: Vec<(u64, EarnedRoles)> = Vec::new();
        let n = old_class.len();
        let mut i: usize = 0;
        while i < n
            invariant
                n == class.len(),
                old_class@ == class,
                i <= n,
                n <= u32::MAX,
                distinct_students(class),
                points == pre.courses@[course_id].points,
                limit == pre.config.rewarded_course_limit,
                self.config == pre.config,
                self.courses@ == pre.courses@,
                self.next_course_id == pre.next_course_id,
                self.course_enrollment_count@ == pre.course_enrollment_count@,
                self.classes@ == pre.classes@.remove(course_id),
                self.course_ratifiers@ == pre.course_ratifiers@,
                self.ratification_count@ == pre.ratification_count@,
                self.honorary_mamoste@ == pre.honorary_mamoste@,
                self.honorary_mamoste_count == pre.honorary_mamoste_count,
                self.courses_under_review@ == pre.courses_under_review@,
                self.annulled_ratifications@ == pre.annulled_ratifications@,
                self.events@ == pre.events@,
                new_class@.len() == i,
                forall|j: int| 0 <= j < i ==> #[trigger] new_class@[j] == pre.closed_enrollment(class[j], points),
                forall|j: int| 0 <= j < i ==> {
                    let e = #[trigger] class[j];
                    let s = e.student;
                    &&& self.completed_of(s) == if passes(e) {
                        sat_add_u32(pre.completed_of(s), 1)
                    } else {
                        pre.completed_of(s)
                    }
                    &&& self.rewarded_of(s) == if pre.gets_points(e) {
                        (pre.rewarded_of(s) + 1) as u32
                    } else {
                        pre.rewarded_of(s)
                    }
                    &&& self.score_of(s) == if pre.gets_points(e) {
                        sat_add_u32(pre.score_of(s), points)
                    } else {
                        pre.score_of(s)
                    }
                },
                forall|s: u64| !on_list(class.take(i as int), s) ==> {
                    &&& #[trigger] self.completed_of(s) == pre.completed_of(s)
                    &&& self.rewarded_of(s) == pre.rewarded_of(s)
                    &&& self.score_of(s) == pre.score_of(s)
                },
                forall|s: u64| #[trigger] self.rewarded_of(s) <= limit && self.rewarded_of(s) <= self.completed_of(s),
                awarded_to == passing_count(class, i as int),
                passing_count(class, i as int) <= i,
                score_changed@ == pre.scored(class, i as int),
                grants@ == pre.granted(class, i as int, points),
            decreases n - i,
        {
            let mut e = old_class[i];
            let s = e.student;
            let ghost before = *self;
            proof {
                assert(class[i as int] == e);
                assert forall|j: int| 0 <= j < i implies #[trigger] class[j].student != s by {
                    assert(class[j].student != class[i as int].student);
                }
                assert(self.completed_of(s) == pre.completed_of(s));
                assert(self.rewarded_of(s) == pre.rewarded_of(s));
                assert(self.score_of(s) == pre.score_of(s));
            }
            if e.passed == Some(true) {
                let completed = read_count(&self.completed_courses, s);
                self.completed_courses.insert(s, completed.saturating_add(1));
                let rewarded = read_count(&self.rewarded_courses, s);
                if rewarded < limit {
                    self.rewarded_courses.insert(s, rewarded + 1);
                    let score = read_count(&self.perwerde_scores, s);
                    self.perwerde_scores.insert(s, score.saturating_add(points));
                    e.points_awarded = points;
                    score_changed.push(s);
                }
                let roles = self.award_earned_roles(s);
                grants.push((s, roles));
                awarded_to = awarded_to + 1;
            }
            new_class.push(e);
            proof {
                assert(pre.closed_enrollment(class[i as int], points) == e);
                assert forall|j: int| 0 <= j < i + 1 implies {
                    let e = #[trigger] class[j];
                    let t = e.student;
                    &&& self.completed_of(t) == if passes(e) {
                        sat_add_u32(pre.completed_of(t), 1)
                    } else {
                        pre.completed_of(t)
                    }
                    &&& self.rewarded_of(t) == if pre.gets_points(e) {
                        (pre.rewarded_of(t) + 1) as u32
                    } else {
                        pre.rewarded_of(t)
                    }
                    &&& self.score_of(t) == if pre.gets_points(e) {
                        sat_add_u32(pre.score_of(t), points)
                    } else {
                        pre.score_of(t)
                    }
                } by {
                    if j < i {
                        assert(class[j].student != s);
                        assert(self.completed_of(class[j].student) == before.completed_of(class[j].student));
                        assert(self.rewarded_of(class[j].student) == before.rewarded_of(class[j].student));
                        assert(self.score_of(class[j].student) == before.score_of(class[j].student));
                    }
                }
                assert forall|t: u64| !on_list(class.take(i + 1), t) implies {
                    &&& #[trigger] self.completed_of(t) == pre.completed_of(t)
                    &&& self.rewarded_of(t) == pre.rewarded_of(t)
                    &&& self.score_of(t) == pre.score_of(t)
                } by {
                    if class[i as int].student == t {
                        assert(class.take(i + 1)[i as int].student == t);
                    }
                    if on_list(class.take(i as int), t) {
                        let j = choose|j: int| 0 <= j < i && #[trigger] class.take(i as int)[j].student == t;
                        assert(class.take(i + 1)[j].student == t);
                    }
                    assert(self.completed_of(t) == before.completed_of(t));
                    assert(self.rewarded_of(t) == before.rewarded_of(t));
                    assert(self.score_of(t) == before.score_of(t));
                }
                assert forall|t: u64| #[trigger] self.rewarded_of(t) <= limit && self.rewarded_of(t) <= self.completed_of(t) by {
                    if t != s {
                        assert(self.rewarded_of(t) == before.rewarded_of(t));
                        assert(self.completed_of(t) == before.completed_of(t));
                    } else {
                        assert(before.rewarded_of(t) <= limit && before.rewarded_of(t) <= before.completed_of(t));
                    }
                }
                assert forall|j: int| 0 <= j < i + 1 implies #[trigger] new_class@[j] == pre.closed_enrollment(class[j], points) by {
                }
            }
            i = i + 1;
        }
        let ghost after_loop = *self;
        self.classes.insert(course_id, new_class);
        proof {
            assert forall|c: u32| c != course_id implies #[trigger] self.class(c) == pre.class(c) by {
                assert(self.classes@.contains_key(c) == pre.classes@.contains_key(c));
            }
            assert(self.classes@.contains_key(course_id));
            assert(pre.classes@.contains_key(course_id) || class.len() == 0);
            if !pre.classes@.contains_key(course_id) {
                // An empty class was filed for a course that had none: its count was zero.
                assert(pre.enrolment_count_of(course_id) == 0);
            }
        }
        self.events.push(Event::CourseCompleted { course_id, awarded_to });
        proof {
            assert forall|s: u64| #[trigger] self.rewarded_of(s) <= self.config.rewarded_course_limit
                && self.rewarded_of(s) <= self.completed_of(s) by {
                assert(after_loop.rewarded_of(s) <= limit);
            }
            assert forall|k: int| 0 <= k < class.len() implies (#[trigger] self.class(course_id)[k]).student == class[k].student
                && self.class(course_id)[k].course_id == class[k].course_id by {
                assert(self.class(course_id)[k] == pre.closed_enrollment(class[k], points));
            }
            assert(class.take(n as int) =~= class);
            assert forall|s: u64| #[trigger] count_in(self.perwerde_scores@, s) != 0
                implies count_in(pre.perwerde_scores@, s) != 0 || on_list(pre.class(course_id), s) by {
                if !on_list(class, s) {
                    assert(after_loop.completed_of(s) == pre.completed_of(s));
                }
            }
            assert forall|s: u64| #[trigger] count_in(self.rewarded_courses@, s) != 0
                implies count_in(pre.rewarded_courses@, s) != 0 || on_list(pre.class(course_id), s) by {
                if !on_list(class, s) {
                    assert(after_loop.completed_of(s) == pre.completed_of(s));
                }
            }
            pre.lemma_wf_counters(self, course_id);
        }
        self.set_status(course_id, CourseStatus::Completed, None);
        proof {
            assert forall|s: u64| !on_list(class, s) implies {
                &&& #[trigger] self.completed_of(s) == pre.completed_of(s)
                &&& self.rewarded_of(s) == pre.rewarded_of(s)
                &&& self.score_of(s) == pre.score_of(s)
            } by {
                assert(class.take(n as int) =~= class);
                assert(after_loop.completed_of(s) == pre.completed_of(s));
            }
        }
        CourseClosure { awarded_to, score_changed, grants }
    }

    /// Why `ratifier` may not ratify `course_id`, if they may not. `is_teacher` is whether the
    /// role pallet says they hold the teacher's role.
    pub open spec fn ratify_check(&self, ratifier: u64, course_id: u32, is_teacher: bool) -> Result<(), Error> {
        if !self.courses@.contains_key(course_id) {
            Err(Error::CourseNotFound)
        } else if self.courses@[course_id].status != CourseStatus::AwaitingRatification {
            Err(Error::NotAwaitingRatification)
        } else if self.courses@[course_id].owner == ratifier {
            Err(Error::OwnerCannotRatify)
        } else if !is_teacher {
            Err(Error::NotATeacher)
        } else if self.ratifiers(course_id).contains(ratifier) {
            Err(Error::AlreadyRatified)
        } else {
            Ok(())
        }
    }

    /// The teacher `ratifier` ratifies the submitted results of `course_id`; `is_teacher` is
    /// whether the role pallet says they hold the teacher's role. When the board is complete
    /// the course is closed and its passes become points, and what that did is returned.
    pub fn ratify_results(&mut self, ratifier: u64, course_id: u32, is_teacher: bool) -> (r: Result<Option<CourseClosure>, Error>)
        requires
            old(self).wf(),
        ensures
            final(self).wf(),
            old(self).records_agree()
                && old(self).config.rewarded_course_limit * old(self).config.max_points_per_course <= u32::MAX
                && (old(self).courses@.contains_key(course_id) ==> old(self).courses@[course_id].points > 0)
                ==> final(self).records_agree(),
            match old(self).ratify_check(ratifier, course_id, is_teacher) {
                Err(e) => r == Err::<Option<CourseClosure>, Error>(e) && final(self).unchanged(old(self)),
                Ok(_) => {
                    let count = sat_add_u32(old(self).ratification_count_of(course_id), 1);
                    let ratified = Event::CourseRatified { course_id, by: ratifier, ratifications: count };
                    &&& final(self).ratifiers(course_id) == old(self).ratifiers(course_id).push(ratifier)
                    &&& forall|c: u32| c != course_id ==> #[trigger] final(self).ratifiers(c) == old(self).ratifiers(c)
                    &&& final(self).ratification_count@ == old(self).ratification_count@.insert(course_id, count)
                    &&& final(self).config == old(self).config
                    &&& final(self).next_course_id == old(self).next_course_id
                    &&& final(self).course_enrollment_count@ == old(self).course_enrollment_count@
                    &&& final(self).honorary_mamoste@ == old(self).honorary_mamoste@
                    &&& final(self).honorary_mamoste_count == old(self).honorary_mamoste_count
                    &&& final(self).courses_under_review@ == old(self).courses_under_review@
                    &&& final(self).annulled_ratifications@ == old(self).annulled_ratifications@
                    &&& if count >= old(self).config.ratifications_required {
                        &&& r is Ok && r->Ok_0 is Some
                        &&& old(self).awarded(final(self), course_id, r->Ok_0->Some_0)
                        &&& final(self).events@ == old(self).events@.push(ratified).push(
                            Event::CourseCompleted { course_id, awarded_to: r->Ok_0->Some_0.awarded_to },
                        )
                    } else {
                        &&& r == Ok::<Option<CourseClosure>, Error>(None)
                        &&& final(self).courses@ == old(self).courses@
                        &&& final(self).classes@ == old(self).classes@
                        &&& final(self).perwerde_scores@ == old(self).perwerde_scores@
                        &&& final(self).rewarded_courses@ == old(self).rewarded_courses@
                        &&& final(self).completed_courses@ == old(self).completed_courses@
                        &&& final(self).events@ == old(self).events@.push(ratified)
                    }
                },
            },
    {
        let owner = match self.courses.get(&course_id) {
            None => return Err(Error::CourseNotFound),
            Some(course) => {
                if course.status != CourseStatus::AwaitingRatification {
                    return Err(Error::NotAwaitingRatification);
                }
                course.owner
            },
        };
        if owner == ratifier {
            return Err(Error::OwnerCannotRatify);
        }
        if !is_teacher {
            return Err(Error::NotATeacher);
        }
        if self.course_ratifier(course_id, ratifier) {
            return Err(Error::AlreadyRatified);
        }
        let ghost pre = *self;
        let mut list = match self.course_ratifiers.remove(&course_id) {
            Some(v) => v,
            None => Vec::new(),
        };
        proof {
            assert(list@ == pre.ratifiers(course_id));
        }
        list.push(ratifier);
        self.course_ratifiers.insert(course_id, list);
        let count = read_course_count(&self.ratification_count, course_id).saturating_add(1);
        self.ratification_count.insert(course_id, count);
        self.events.push(Event::CourseRatified { course_id, by: ratifier, ratifications: count });
        proof {
            assert forall|c: u32| c != course_id implies #[trigger] self.ratifiers(c) == pre.ratifiers(c) by {
                assert(self.course_ratifiers@.contains_key(c) == pre.course_ratifiers@.contains_key(c));
            }
            assert forall|c: u32| #![trigger self.class(c)]
                {
                    &&& distinct_students(self.class(c))
                    &&& self.class(c).len() == self.enrolment_count_of(c)
                    &&& self.enrolment_count_of(c) <= self.config.max_students_per_course
                    &&& forall|i: int| 0 <= i < self.class(c).len() ==> (#[trigger] self.class(c)[i]).course_id == c
                        && self.class(c)[i].student != self.courses@[c].owner
                } by {
                assert(self.class(c) == pre.class(c));
            }
            assert forall|c: u32| #![trigger self.ratifiers(c)]
                {
                    &&& self.ratifiers(c).no_duplicates()
                    &&& self.courses@.contains_key(c) ==> !self.ratifiers(c).contains(self.courses@[c].owner)
                } by {
                if c == course_id {
                    let old_list = pre.ratifiers(c);
                    assert(old_list.no_duplicates());
                    assert(!old_list.contains(ratifier));
                    assert forall|a: int, b: int| 0 <= a < self.ratifiers(c).len() && 0 <= b < self.ratifiers(c).len()
                        && a != b implies self.ratifiers(c)[a] != self.ratifiers(c)[b] by {
                        if a == old_list.len() as int {
                            assert(self.ratifiers(c)[b] == old_list[b]);
                        } else if b == old_list.len() as int {
                            assert(self.ratifiers(c)[a] == old_list[a]);
                        } else {
                            assert(self.ratifiers(c)[a] == old_list[a]);
                            assert(self.ratifiers(c)[b] == old_list[b]);
                        }
                    }
                    if self.ratifiers(c).contains(owner) {
                        let k = choose|k: int| 0 <= k < self.ratifiers(c).len() && self.ratifiers(c)[k] == owner;
                        if k < old_list.len() {
                            assert(old_list[k] == owner);
                        }
                    }
                } else {
                    assert(self.ratifiers(c) == pre.ratifiers(c));
                }
            }
            assert forall|s: u64| #[trigger] self.rewarded_of(s) <= self.config.rewarded_course_limit
                && self.rewarded_of(s) <= self.completed_of(s) by {
                assert(self.rewarded_of(s) == pre.rewarded_of(s));
            }
            assert forall|c: u32| #[trigger] self.courses@.contains_key(c) && self.courses@[c].status == CourseStatus::Completed
                implies self.ratification_count_of(c) >= self.config.ratifications_required by {
                assert(pre.courses@.contains_key(c));
                if c == course_id {
                    assert(pre.courses@[c].status == CourseStatus::AwaitingRatification);
                }
            }
        }
        if count >= self.config.ratifications_required {
            let ghost mid = *self;
            let closure = self.close_and_award(course_id);
            proof {
                assert(mid.class(course_id) == pre.class(course_id));
                let cls = pre.class(course_id);
                pre.lemma_closing_reads_counters(&mid, cls, cls.len() as int, pre.courses@[course_id].points);
                if pre.records_agree() && pre.config.rewarded_course_limit * pre.config.max_points_per_course <= u32::MAX
                    && pre.courses@[course_id].points > 0 {
                    mid.lemma_close_keeps_agreement(self, course_id, closure);
                }
            }
            Ok(Some(closure))
        } else {
            Ok(None)
        }
    }

    /// What the first `n` entries of a class were awarded, summed and clamped to `u32::MAX`.
    pub open spec fn reversed_total(class: Seq<Enrollment>, n: int) -> u32
        decreases n,
    {
        if n <= 0 {
            0
        } else {
            sat_add_u32(Self::reversed_total(class, n - 1), class[n - 1].points_awarded)
        }
    }

    /// The students among the first `n` of a class who were awarded anything.
    pub open spec fn reversed_students(class: Seq<Enrollment>, n: int) -> Seq<u64>
        decreases n,
    {
        if n <= 0 {
            Seq::empty()
        } else if class[n - 1].points_awarded > 0 {
            Self::reversed_students(class, n - 1).push(class[n - 1].student)
        } else {
            Self::reversed_students(class, n - 1)
        }
    }

    /// What annulling `course_id` did, from this state to `post`, returning `r`: every student
    /// it awarded loses those points, one rewarded course and one completed course (each
    /// clamped at zero) and the class records nothing awarded; every teacher who ratified it
    /// has one more annulled ratification; nobody else's record moved; the course is
    /// `Annulled` and no longer under review.
    pub open spec fn annulled(&self, post: &Self, course_id: u32, r: Annulment) -> bool {
        let class = self.class(course_id);
        let board = self.ratifiers(course_id);
        &&& forall|i: int| 0 <= i < class.len() ==> {
            let e = #[trigger] class[i];
            let s = e.student;
            &&& post.score_of(s) == if e.points_awarded > 0 {
                sat_sub_u32(self.score_of(s), e.points_awarded)
            } else {
                self.score_of(s)
            }
            &&& post.rewarded_of(s) == if e.points_awarded > 0 {
                sat_sub_u32(self.rewarded_of(s), 1)
            } else {
                self.rewarded_of(s)
            }
            &&& post.completed_of(s) == if e.points_awarded > 0 {
                sat_sub_u32(self.completed_of(s), 1)
            } else {
                self.completed_of(s)
            }
        }
        &&& forall|s: u64| !on_list(class, s) ==> {
            &&& #[trigger] post.completed_of(s) == self.completed_of(s)
            &&& post.rewarded_of(s) == self.rewarded_of(s)
            &&& post.score_of(s) == self.score_of(s)
        }
        &&& post.class(course_id).len() == class.len()
        &&& forall|i: int| 0 <= i < class.len() ==> #[trigger] post.class(course_id)[i]
            == Enrollment { points_awarded: 0, ..class[i] }
        &&& forall|c: u32| c != course_id ==> #[trigger] post.class(c) == self.class(c)
        &&& forall|i: int| 0 <= i < board.len() ==> #[trigger] post.annulled_of(board[i])
            == sat_add_u32(self.annulled_of(board[i]), 1)
        &&& forall|t: u64| !board.contains(t) ==> #[trigger] post.annulled_of(t) == self.annulled_of(t)
        &&& post.courses@ == self.courses@.insert(course_id, post.courses@[course_id])
        &&& same_course(post.courses@[course_id], self.courses@[course_id])
        &&& post.courses@[course_id].status == CourseStatus::Annulled
        &&& post.courses@[course_id].submitted_at == self.courses@[course_id].submitted_at
        &&& post.courses_under_review@ == self.courses_under_review@.remove(course_id)
        &&& r.points_reversed == Self::reversed_total(class, class.len() as int)
        &&& r.score_changed@ == Self::reversed_students(class, class.len() as int)
    }

    /// Annulling takes back what closing gave: every student whom closing a course awarded its
    /// points has their score, rewarded count and completed count returned by the annulment
    /// to what they were before the course closed (unless closing saturated them); a student
    /// not on the course's list is left as they were by both.
    pub proof fn lemma_annulling_takes_back_the_award(
        &self,
        closed: &Self,
        annulled: &Self,
        course_id: u32,
        closure: CourseClosure,
        annulment: Annulment,
    )
        requires
            self.awarded(closed, course_id, closure),
            closed.annulled(annulled, course_id, annulment),
        ensures
            forall|i: int| 0 <= i < self.class(course_id).len() ==> {
                let e = #[trigger] self.class(course_id)[i];
                let s = e.student;
                let points = self.courses@[course_id].points;
                self.gets_points(e) && points > 0 && self.score_of(s) + points <= u32::MAX
                    && self.completed_of(s) < u32::MAX ==> {
                    &&& annulled.score_of(s) == self.score_of(s)
                    &&& annulled.rewarded_of(s) == self.rewarded_of(s)
                    &&& annulled.completed_of(s) == self.completed_of(s)
                }
            },
            forall|s: u64| !on_list(self.class(course_id), s) ==> {
                &&& #[trigger] annulled.score_of(s) == self.score_of(s)
                &&& annulled.rewarded_of(s) == self.rewarded_of(s)
                &&& annulled.completed_of(s) == self.completed_of(s)
            },
    {
        let class = self.class(course_id);
        let after = closed.class(course_id);
        assert forall|i: int| 0 <= i < class.len() implies {
            let e = #[trigger] class[i];
            let s = e.student;
            let points = self.courses@[course_id].points;
            self.gets_points(e) && points > 0 && self.score_of(s) + points <= u32::MAX
                && self.completed_of(s) < u32::MAX ==> {
                &&& annulled.score_of(s) == self.score_of(s)
                &&& annulled.rewarded_of(s) == self.rewarded_of(s)
                &&& annulled.completed_of(s) == self.completed_of(s)
            }
        } by {
            let e = class[i];
            assert(after[i] == self.closed_enrollment(e, self.courses@[course_id].points));
            assert(after[i].student == e.student);
        }
        assert forall|s: u64| !on_list(class, s) implies {
            &&& #[trigger] annulled.score_of(s) == self.score_of(s)
            &&& annulled.rewarded_of(s) == self.rewarded_of(s)
            &&& annulled.completed_of(s) == self.completed_of(s)
        } by {
            if on_list(after, s) {
                let j = choose|j: int| 0 <= j < after.len() && #[trigger] after[j].student == s;
                assert(after[j] == self.closed_enrollment(class[j], self.courses@[course_id].points));
                assert(class[j].student == s);
                assert(on_list(class, s));
            }
            assert(closed.completed_of(s) == self.completed_of(s));
            assert(annulled.completed_of(s) == closed.completed_of(s));
        }
    }

    /// The court annuls `course_id`, which the minister brought before it, and takes back
    /// what it awarded. Refused for a course not under review, one that does not exist, and
    /// one that awarded nothing because it never completed.
    pub fn annul_course(&mut self, course_id: u32) -> (r: Result<Annulment, Error>)
        requires
            old(self).wf(),
        ensures
            final(self).wf(),
            old(self).records_agree() ==> final(self).records_agree(),
            !old(self).courses_under_review@.contains(course_id) ==> r == Err::<Annulment, Error>(Error::NotUnderReview)
                && final(self).unchanged(old(self)),
            old(self).courses_under_review@.contains(course_id) && !old(self).courses@.contains_key(course_id) ==> r
                == Err::<Annulment, Error>(Error::CourseNotFound) && final(self).unchanged(old(self)),
            old(self).courses_under_review@.contains(course_id) && old(self).courses@.contains_key(course_id)
                && old(self).courses@[course_id].status != CourseStatus::Completed ==> r == Err::<Annulment, Error>(
                Error::NothingToAnnul,
            ) && final(self).unchanged(old(self)),
            old(self).courses_under_review@.contains(course_id) && old(self).courses@.contains_key(course_id)
                && old(self).courses@[course_id].status == CourseStatus::Completed ==> {
                &&& r is Ok
                &&& old(self).annulled(final(self), course_id, r->Ok_0)
                &&& final(self).config == old(self).config
                &&& final(self).next_course_id == old(self).next_course_id
                &&& final(self).course_enrollment_count@ == old(self).course_enrollment_count@
                &&& final(self).course_ratifiers@ == old(self).course_ratifiers@
                &&& final(self).ratification_count@ == old(self).ratification_count@
                &&& final(self).honorary_mamoste@ == old(self).honorary_mamoste@
                &&& final(self).honorary_mamoste_count == old(self).honorary_mamoste_count
                &&& final(self).events@ == old(self).events@.push(
                    Event::CourseAnnulled { course_id, points_reversed: r->Ok_0.points_reversed },
                )
            },
    {
        if !self.courses_under_review.contains(&course_id) {
            return Err(Error::NotUnderReview);
        }
        match self.courses.get(&course_id) {
            None => return Err(Error::CourseNotFound),
            Some(course) => {
                if course.status != CourseStatus::Completed {
                    return Err(Error::NothingToAnnul);
                }
            },
        }
        let ghost pre = *self;
        let ghost class = pre.class(course_id);
        let old_class = match self.classes.remove(&course_id) {
            Some(v) => v,
            None => Vec::new(),
        };
        proof {
            assert(old_class@ == class);
            assert(distinct_students(class));
            assert forall|s: u64| #[trigger] self.rewarded_of(s) <= self.config.rewarded_course_limit
                && self.rewarded_of(s) <= self.completed_of(s) by {
                assert(pre.rewarded_of(s) <= pre.config.rewarded_course_limit && pre.rewarded_of(s) <= pre.completed_of(s));
            }
        }
        let mut new_class: Vec<Enrollment> = Vec::new();
        let mut reversed: u32 = 0;
        let mut score_changed: Vec<u64> = Vec::new();
        let n = old_class.len();
        let mut i: usize = 0;
        while i < n
            invariant
                n == class.len(),
                old_class@ == class,
                i <= n,
                distinct_students(class),
                self.config == pre.config,
                self.courses@ == pre.courses@,
                self.next_course_id == pre.next_course_id,
                self.course_enrollment_count@ == pre.course_enrollment_count@,
                self.classes@ == pre.classes@.remove(course_id),
                self.course_ratifiers@ == pre.course_ratifiers@,
                self.ratification_count@ == pre.ratification_count@,
                self.honorary_mamoste@ == pre.honorary_mamoste@,
                self.honorary_mamoste_count == pre.honorary_mamoste_count,
                self.courses_under_review@ == pre.courses_under_review@,
                self.annulled_ratifications@ == pre.annulled_ratifications@,
                self.events@ == pre.events@,
                new_class@.len() == i,
                forall|j: int| 0 <= j < i ==> #[trigger] new_class@[j] == (Enrollment { points_awarded: 0, ..class[j] }),
                forall|j: int| 0 <= j < i ==> {
                    let e = #[trigger] class[j];
                    let s = e.student;
                    &&& self.score_of(s) == if e.points_awarded > 0 {
                        sat_sub_u32(pre.score_of(s), e.points_awarded)
                    } else {
                        pre.score_of(s)
                    }
                    &&& self.rewarded_of(s) == if e.points_awarded > 0 {
                        sat_sub_u32(pre.rewarded_of(s), 1)
                    } else {
                        pre.rewarded_of(s)
                    }
                    &&& self.completed_of(s) == if e.points_awarded > 0 {
                        sat_sub_u32(pre.completed_of(s), 1)
                    } else {
                        pre.completed_of(s)
                    }
                },
                forall|s: u64| !on_list(class.take(i as int), s) ==> {
                    &&& #[trigger] self.completed_of(s) == pre.completed_of(s)
                    &&& self.rewarded_of(s) == pre.rewarded_of(s)
                    &&& self.score_of(s) == pre.score_of(s)
                },
                forall|s: u64| #[trigger] self.rewarded_of(s) <= self.config.rewarded_course_limit
                    && self.rewarded_of(s) <= self.completed_of(s),
                reversed == Self::reversed_total(class, i as int),
                score_changed@ == Self::reversed_students(class, i as int),
            decreases n - i,
        {
            let mut e = old_class[i];
            let s = e.student;
            let ghost before = *self;
            proof {
                assert(class[i as int] == e);
                if on_list(class.take(i as int), s) {
                    let j = choose|j: int| 0 <= j < i && #[trigger] class.take(i as int)[j].student == s;
                    assert(class[j].student == class[i as int].student);
                }
                assert(self.completed_of(s) == pre.completed_of(s));
            }
            if e.points_awarded > 0 {
                let awarded = e.points_awarded;
                let score = read_count(&self.perwerde_scores, s);
                self.perwerde_scores.insert(s, score.saturating_sub(awarded));
                let rewarded = read_count(&self.rewarded_courses, s);
                self.rewarded_courses.insert(s, rewarded.saturating_sub(1));
                let completed = read_count(&self.completed_courses, s);
                self.completed_courses.insert(s, completed.saturating_sub(1));
                reversed = reversed.saturating_add(awarded);
                e.points_awarded = 0;
                score_changed.push(s);
            }
            new_class.push(e);
            proof {
                assert forall|j: int| 0 <= j < i + 1 implies {
                    let e = #[trigger] class[j];
                    let t = e.student;
                    &&& self.score_of(t) == if e.points_awarded > 0 {
                        sat_sub_u32(pre.score_of(t), e.points_awarded)
                    } else {
                        pre.score_of(t)
                    }
                    &&& self.rewarded_of(t) == if e.points_awarded > 0 {
                        sat_sub_u32(pre.rewarded_of(t), 1)
                    } else {
                        pre.rewarded_of(t)
                    }
                    &&& self.completed_of(t) == if e.points_awarded > 0 {
                        sat_sub_u32(pre.completed_of(t), 1)
                    } else {
                        pre.completed_of(t)
                    }
                } by {
                    if j < i {
                        assert(class[j].student != s);
                        assert(self.completed_of(class[j].student) == before.completed_of(class[j].student));
                        assert(self.rewarded_of(class[j].student) == before.rewarded_of(class[j].student));
                        assert(self.score_of(class[j].student) == before.score_of(class[j].student));
                    }
                }
                assert forall|t: u64| !on_list(class.take(i + 1), t) implies {
                    &&& #[trigger] self.completed_of(t) == pre.completed_of(t)
                    &&& self.rewarded_of(t) == pre.rewarded_of(t)
                    &&& self.score_of(t) == pre.score_of(t)
                } by {
                    if class[i as int].student == t {
                        assert(class.take(i + 1)[i as int].student == t);
                    }
                    if on_list(class.take(i as int), t) {
                        let j = choose|j: int| 0 <= j < i && #[trigger] class.take(i as int)[j].student == t;
                        assert(class.take(i + 1)[j].student == t);
                    }
                    assert(self.completed_of(t) == before.completed_of(t));
                    assert(self.rewarded_of(t) == before.rewarded_of(t));
                    assert(self.score_of(t) == before.score_of(t));
                }
                assert forall|t: u64| #[trigger] self.rewarded_of(t) <= self.config.rewarded_course_limit
                    && self.rewarded_of(t) <= self.completed_of(t) by {
                    assert(before.rewarded_of(t) <= before.config.rewarded_course_limit
                        && before.rewarded_of(t) <= before.completed_of(t));
                    if t != s {
                        assert(self.rewarded_of(t) == before.rewarded_of(t));
                        assert(self.completed_of(t) == before.completed_of(t));
                    }
                }
                assert forall|j: int| 0 <= j < i + 1 implies #[trigger] new_class@[j] == (Enrollment { points_awarded: 0, ..class[j] }) by {
                }
            }
            i = i + 1;
        }
        let ghost after_class = *self;
        self.classes.insert(course_id, new_class);
        proof {
            assert forall|c: u32| c != course_id implies #[trigger] self.class(c) == pre.class(c) by {
                assert(self.classes@.contains_key(c) == pre.classes@.contains_key(c));
            }
            if !pre.classes@.contains_key(course_id) {
                assert(pre.enrolment_count_of(course_id) == 0);
            }
            assert forall|k: int| 0 <= k < class.len() implies (#[trigger] self.class(course_id)[k]).student == class[k].student
                && self.class(course_id)[k].course_id == class[k].course_id by {
                assert(self.class(course_id)[k] == (Enrollment { points_awarded: 0, ..class[k] }));
            }
            assert forall|s: u64| #[trigger] self.rewarded_of(s) <= self.config.rewarded_course_limit
                && self.rewarded_of(s) <= self.completed_of(s) by {
                assert(after_class.rewarded_of(s) <= after_class.config.rewarded_course_limit
                    && after_class.rewarded_of(s) <= after_class.completed_of(s));
            }
            assert(class.take(n as int) =~= class);
            assert forall|s: u64| #[trigger] count_in(self.perwerde_scores@, s) != 0
                implies count_in(pre.perwerde_scores@, s) != 0 || on_list(pre.class(course_id), s) by {
                if !on_list(class, s) {
                    assert(after_class.completed_of(s) == pre.completed_of(s));
                }
            }
            assert forall|s: u64| #[trigger] count_in(self.rewarded_courses@, s) != 0
                implies count_in(pre.rewarded_courses@, s) != 0 || on_list(pre.class(course_id), s) by {
                if !on_list(class, s) {
                    assert(after_class.completed_of(s) == pre.completed_of(s));
                }
            }
            pre.lemma_wf_counters(self, course_id);
        }
        let ghost board = pre.ratifiers(course_id);
        let ghost mid = *self;
        let m = match self.course_ratifiers.get(&course_id) {
            Some(list) => list.len(),
            None => 0,
        };
        proof {
            assert(board.no_duplicates());
            assert(m == board.len());
        }
        let mut k: usize = 0;
        while k < m
            invariant
                m == board.len(),
                k <= m,
                board.no_duplicates(),
                board == self.ratifiers(course_id),
                self.config == mid.config,
                self.courses@ == mid.courses@,
                self.next_course_id == mid.next_course_id,
                self.course_enrollment_count@ == mid.course_enrollment_count@,
                self.classes@ == mid.classes@,
                self.course_ratifiers@ == mid.course_ratifiers@,
                self.ratification_count@ == mid.ratification_count@,
                self.perwerde_scores@ == mid.perwerde_scores@,
                self.rewarded_courses@ == mid.rewarded_courses@,
                self.completed_courses@ == mid.completed_courses@,
                self.honorary_mamoste@ == mid.honorary_mamoste@,
                self.honorary_mamoste_count == mid.honorary_mamoste_count,
                self.courses_under_review@ == mid.courses_under_review@,
                self.events@ == mid.events@,
                mid.annulled_ratifications@ == pre.annulled_ratifications@,
                forall|j: int| 0 <= j < k ==> #[trigger] self.annulled_of(board[j]) == sat_add_u32(pre.annulled_of(board[j]), 1),
                forall|t: u64| !board.take(k as int).contains(t) ==> #[trigger] self.annulled_of(t) == pre.annulled_of(t),
            decreases m - k,
        {
            let who = match self.course_ratifiers.get(&course_id) {
                Some(list) => list[k],
                None => 0,
            };
            let ghost before = *self;
            proof {
                assert(who == board[k as int]);
                if board.take(k as int).contains(who) {
                    let j = choose|j: int| 0 <= j < k && board.take(k as int)[j] == who;
                    assert(board[j] == board[k as int]);
                }
            }
            let count = read_count(&self.annulled_ratifications, who);
            self.annulled_ratifications.insert(who, count.saturating_add(1));
            proof {
                assert forall|j: int| 0 <= j < k + 1 implies #[trigger] self.annulled_of(board[j])
                    == sat_add_u32(pre.annulled_of(board[j]), 1) by {
                    if j < k {
                        assert(board[j] != who);
                        assert(self.annulled_of(board[j]) == before.annulled_of(board[j]));
                    } else {
                        assert(before.annulled_of(who) == pre.annulled_of(who));
                    }
                }
                assert forall|t: u64| !board.take(k + 1).contains(t) implies #[trigger] self.annulled_of(t) == pre.annulled_of(t) by {
                    assert(board.take(k + 1)[k as int] == who);
                    if board.take(k as int).contains(t) {
                        let j = choose|j: int| 0 <= j < k && board.take(k as int)[j] == t;
                        assert(board.take(k + 1)[j] == t);
                    }
                    assert(t != who);
                    assert(self.annulled_of(t) == before.annulled_of(t));
                }
            }
            k = k + 1;
        }
        let ghost after_board = *self;
        proof {
            mid.lemma_wf_events(self);
        }
        self.courses_under_review.remove(&course_id);
        self.events.push(Event::CourseAnnulled { course_id, points_reversed: reversed });
        let ghost before_status = *self;
        proof {
            assert forall|s: u64| #[trigger] self.rewarded_of(s) <= self.config.rewarded_course_limit
                && self.rewarded_of(s) <= self.completed_of(s) by {
                assert(mid.rewarded_of(s) <= mid.config.rewarded_course_limit && mid.rewarded_of(s) <= mid.completed_of(s));
            }
            assert forall|c: u32| #![trigger self.class(c)]
                {
                    &&& distinct_students(self.class(c))
                    &&& self.class(c).len() == self.enrolment_count_of(c)
                    &&& self.enrolment_count_of(c) <= self.config.max_students_per_course
                    &&& forall|i: int| 0 <= i < self.class(c).len() ==> (#[trigger] self.class(c)[i]).course_id == c
                        && self.class(c)[i].student != self.courses@[c].owner
                } by {
                assert(self.class(c) == mid.class(c));
            }
            assert forall|c: u32| #![trigger self.ratifiers(c)]
                {
                    &&& self.ratifiers(c).no_duplicates()
                    &&& self.courses@.contains_key(c) ==> !self.ratifiers(c).contains(self.courses@[c].owner)
                } by {
                assert(self.ratifiers(c) == mid.ratifiers(c));
            }
        }
        self.set_status(course_id, CourseStatus::Annulled, None);
        proof {
            assert forall|s: u64| !on_list(class, s) implies {
                &&& #[trigger] self.completed_of(s) == pre.completed_of(s)
                &&& self.rewarded_of(s) == pre.rewarded_of(s)
                &&& self.score_of(s) == pre.score_of(s)
            } by {
                assert(class.take(n as int) =~= class);
                assert(after_class.completed_of(s) == pre.completed_of(s));
            }
            assert(board.take(m as int) =~= board);
            assert(self.class(course_id).len() == class.len());
            assert(forall|c: u32| c != course_id ==> #[trigger] self.class(c) == pre.class(c));
            assert(self.courses_under_review@ == pre.courses_under_review@.remove(course_id));
            assert(reversed == Self::reversed_total(class, class.len() as int));
            assert(score_changed@ == Self::reversed_students(class, class.len() as int));
            assert forall|t: u64| !board.contains(t) implies #[trigger] self.annulled_of(t) == pre.annulled_of(t) by {
                assert(after_board.annulled_of(t) == pre.annulled_of(t));
            }
            assert forall|i: int| 0 <= i < board.len() implies #[trigger] self.annulled_of(board[i])
                == sat_add_u32(pre.annulled_of(board[i]), 1) by {
                assert(after_board.annulled_of(board[i]) == sat_add_u32(pre.annulled_of(board[i]), 1));
            }
        }
        let result = Annulment { points_reversed: reversed, score_changed };
        proof {
            if pre.records_agree() {
                assert(pre.annulled(self, course_id, result));
                pre.lemma_annul_keeps_agreement(self, course_id, result);
            }
        }
        Ok(result)
    }
}

impl Pezpallet {
    /// What the classes of the first `n` course ids awarded `s`.
    pub open spec fn awarded_below(&self, s: u64, n: nat) -> nat {
        awarded_in(self.classes@, s, n)
    }

    /// How many places in the classes of the first `n` course ids awarded `s` anything.
    pub open spec fn rewarded_below(&self, s: u64, n: nat) -> nat {
        rewarded_in(self.classes@, s, n)
    }

    /// What all of `s`'s courses awarded them.
    pub open spec fn awarded_total(&self, s: u64) -> nat {
        self.awarded_below(s, self.next_course_id as nat)
    }

    /// How many of `s`'s courses awarded them anything.
    pub open spec fn rewarded_total(&self, s: u64) -> nat {
        self.rewarded_below(s, self.next_course_id as nat)
    }

    /// What the check needs in order to find every record: courses are filed below the next
    /// id, every class belongs to a course, and only a student on some class list has a score
    /// or a rewarded course.
    pub open spec fn indexed(&self) -> bool {
        &&& forall|c: u32| #[trigger] self.courses@.contains_key(c) ==> c < self.next_course_id
        &&& forall|c: u32| #[trigger] self.classes@.contains_key(c) ==> self.courses@.contains_key(c)
        &&& forall|s: u64| #[trigger] count_in(self.perwerde_scores@, s) != 0 ==> on_some_list(self.classes@, s)
        &&& forall|s: u64| #[trigger] count_in(self.rewarded_courses@, s) != 0 ==> on_some_list(self.classes@, s)
    }

    /// Whether the record of student `s` shows the disagreement `v`.
    pub open spec fn student_fails(&self, v: InvariantViolation, s: u64) -> bool {
        match v {
            InvariantViolation::ScoreMismatch => self.perwerde_scores@.contains_key(s)
                && self.perwerde_scores@[s] != self.awarded_total(s),
            InvariantViolation::RewardedCountMismatch => self.rewarded_courses@.contains_key(s)
                && self.rewarded_courses@[s] != self.rewarded_total(s),
            InvariantViolation::RewardedOverLimit => self.rewarded_courses@.contains_key(s)
                && self.rewarded_courses@[s] > self.config.rewarded_course_limit,
            InvariantViolation::RewardedOverCompleted => self.rewarded_courses@.contains_key(s)
                && self.rewarded_courses@[s] > self.completed_of(s),
            _ => false,
        }
    }

    /// Whether course `c` shows the disagreement `v`.
    pub open spec fn course_fails(&self, v: InvariantViolation, c: u32) -> bool {
        match v {
            InvariantViolation::BoardIncomplete => self.courses@.contains_key(c)
                && self.courses@[c].status == CourseStatus::Completed
                && self.ratification_count_of(c) < self.config.ratifications_required,
            InvariantViolation::TeacherRatifiedOwn => self.courses@.contains_key(c)
                && self.ratifiers(c).contains(self.courses@[c].owner),
            _ => false,
        }
    }

    /// Whether the checks of one student's record are the ones `v` names.
    pub open spec fn is_student_check(v: InvariantViolation) -> bool {
        v == InvariantViolation::ScoreMismatch || v == InvariantViolation::RewardedCountMismatch
            || v == InvariantViolation::RewardedOverLimit || v == InvariantViolation::RewardedOverCompleted
    }

    /// Whether the records show the disagreement `v` anywhere.
    pub open spec fn violated(&self, v: InvariantViolation) -> bool {
        match v {
            InvariantViolation::BoardIncomplete => exists|c: u32| #[trigger] self.course_fails(v, c),
            InvariantViolation::TeacherRatifiedOwn => exists|c: u32| #[trigger] self.course_fails(v, c),
            InvariantViolation::HonoraryOverCap => self.honorary_mamoste_count > self.config.max_honorary_mamoste,
            _ => exists|s: u64| #[trigger] self.student_fails(v, s),
        }
    }

    /// The first kind of disagreement, in the order the checks run: every score, every
    /// rewarded count, the limit, the completed courses, every board, every teacher, the
    /// seeded teachers.
    pub open spec fn invariant_violation(&self) -> Option<InvariantViolation> {
        if self.violated(InvariantViolation::ScoreMismatch) {
            Some(InvariantViolation::ScoreMismatch)
        } else if self.violated(InvariantViolation::RewardedCountMismatch) {
            Some(InvariantViolation::RewardedCountMismatch)
        } else if self.violated(InvariantViolation::RewardedOverLimit) {
            Some(InvariantViolation::RewardedOverLimit)
        } else if self.violated(InvariantViolation::RewardedOverCompleted) {
            Some(InvariantViolation::RewardedOverCompleted)
        } else if self.violated(InvariantViolation::BoardIncomplete) {
            Some(InvariantViolation::BoardIncomplete)
        } else if self.violated(InvariantViolation::TeacherRatifiedOwn) {
            Some(InvariantViolation::TeacherRatifiedOwn)
        } else if self.violated(InvariantViolation::HonoraryOverCap) {
            Some(InvariantViolation::HonoraryOverCap)
        } else {
            None
        }
    }

    /// The sums over the classes of the first `n` course ids move only by what the one class
    /// that changed moved.
    proof fn lemma_below_frame(&self, other: &Self, s: u64, n: nat, c: u32)
        requires
            n <= u32::MAX + 1,
            forall|d: u32| d != c ==> #[trigger] other.class(d) == self.class(d),
        ensures
            other.awarded_below(s, n) + (if c < n {
                class_awarded(self.class(c), s)
            } else {
                0
            }) == self.awarded_below(s, n) + (if c < n {
                class_awarded(other.class(c), s)
            } else {
                0
            }),
            other.rewarded_below(s, n) + (if c < n {
                class_rewarded(self.class(c), s)
            } else {
                0
            }) == self.rewarded_below(s, n) + (if c < n {
                class_rewarded(other.class(c), s)
            } else {
                0
            }),
        decreases n,
    {
        if n > 0 {
            self.lemma_below_frame(other, s, (n - 1) as nat, c);
            let d = (n - 1) as u32;
            if d != c {
                assert(other.class(d) == self.class(d));
            }
        }
    }

    /// Where every place carries at most `m`, the classes of the first `n` course ids awarded
    /// at most `m` for each place that carries anything.
    proof fn lemma_below_bounded(&self, s: u64, n: nat, m: nat)
        requires
            forall|c: u32, i: int| 0 <= i < self.class(c).len() ==> (#[trigger] self.class(c)[i]).points_awarded <= m,
        ensures
            self.awarded_below(s, n) <= m * self.rewarded_below(s, n),
        decreases n,
    {
        if n > 0 {
            let k = (n - 1) as nat;
            self.lemma_below_bounded(s, k, m);
            let class = self.class(k as u32);
            assert forall|i: int| 0 <= i < class.len() implies (#[trigger] class[i]).points_awarded <= m by {
                assert(self.class(k as u32)[i] == class[i]);
            }
            lemma_class_bounded(class, s, m);
            let r0 = self.rewarded_below(s, k);
            let r1 = class_rewarded(class, s);
            assert(m * (r0 + r1) == m * r0 + m * r1) by (nonlinear_arith);
        }
    }

    /// Every place on a class carries nothing or, on a completed course, the course's points;
    /// no course is worth more than a course may be; and each student's score and rewarded
    /// count are what their places carry.
    pub open spec fn records_agree(&self) -> bool {
        agree_in(
            self.classes@,
            self.courses@,
            self.perwerde_scores@,
            self.rewarded_courses@,
            self.next_course_id,
            self.config.max_points_per_course,
        )
    }

    /// A well-formed record whose scores and counts agree with the places behind them passes
    /// the whole check.
    pub proof fn lemma_agreeing_record_passes_check(&self)
        requires
            self.wf(),
            self.records_agree(),
        ensures
            self.invariant_violation() is None,
    {
        assert forall|s: u64| !#[trigger] self.student_fails(InvariantViolation::ScoreMismatch, s) by {
            assert(self.score_of(s) as nat == self.awarded_total(s));
        }
        assert forall|s: u64| !#[trigger] self.student_fails(InvariantViolation::RewardedCountMismatch, s) by {
            assert(self.rewarded_of(s) as nat == self.rewarded_total(s));
        }
        assert forall|s: u64| !#[trigger] self.student_fails(InvariantViolation::RewardedOverLimit, s) by {
            assert(self.rewarded_of(s) <= self.config.rewarded_course_limit);
        }
        assert forall|s: u64| !#[trigger] self.student_fails(InvariantViolation::RewardedOverCompleted, s) by {
            assert(self.rewarded_of(s) <= self.completed_of(s));
        }
        assert forall|c: u32| !#[trigger] self.course_fails(InvariantViolation::BoardIncomplete, c) by {
        }
        assert forall|c: u32| !#[trigger] self.course_fails(InvariantViolation::TeacherRatifiedOwn, c) by {
            assert(self.ratifiers(c) == self.ratifiers(c));
        }
    }

    /// The sums over the classes of the first `n` course ids include each of those classes.
    proof fn lemma_below_includes(&self, s: u64, n: nat, c: u32)
        requires
            c < n,
        ensures
            class_awarded(self.class(c), s) <= self.awarded_below(s, n),
            class_rewarded(self.class(c), s) <= self.rewarded_below(s, n),
        decreases n,
    {
        if n - 1 != c {
            self.lemma_below_includes(s, (n - 1) as nat, c);
        }
    }

    /// Agreement survives a change in which one class, `c`, changed and its places still fit;
    /// every other class, every course's worth and every other course's being completed stayed
    /// as they were; and each student's score and rewarded count moved by exactly what class
    /// `c` moved for them.
    proof fn lemma_agreement_step(&self, other: &Self, c: u32)
        requires
            self.wf(),
            self.records_agree(),
            other.config == self.config,
            other.next_course_id == self.next_course_id,
            other.courses@.dom() == self.courses@.dom(),
            forall|d: u32| #[trigger] other.courses@.contains_key(d) ==> other.courses@[d].points == self.courses@[d].points,
            forall|d: u32| d != c && #[trigger] other.courses@.contains_key(d) ==> (other.courses@[d].status
                == CourseStatus::Completed <==> self.courses@[d].status == CourseStatus::Completed),
            forall|d: u32| d != c ==> #[trigger] other.class(d) == self.class(d),
            c >= self.next_course_id ==> other.class(c) == self.class(c),
            forall|i: int| #![trigger other.class(c)[i]] 0 <= i < other.class(c).len() ==> {
                ||| other.class(c)[i].points_awarded == 0
                ||| other.courses@.contains_key(c) && other.courses@[c].status == CourseStatus::Completed
                    && other.class(c)[i].points_awarded == other.courses@[c].points
            },
            forall|s: u64| #[trigger] other.score_of(s) as nat + class_awarded(self.class(c), s)
                == self.score_of(s) as nat + class_awarded(other.class(c), s),
            forall|s: u64| #[trigger] other.rewarded_of(s) as nat + class_rewarded(self.class(c), s)
                == self.rewarded_of(s) as nat + class_rewarded(other.class(c), s),
        ensures
            other.records_agree(),
    {
        let n = self.next_course_id as nat;
        assert forall|d: u32, i: int| #![trigger class_in(other.classes@, d)[i]] 0 <= i < class_in(other.classes@, d).len() implies {
            ||| class_in(other.classes@, d)[i].points_awarded == 0
            ||| other.courses@.contains_key(d) && other.courses@[d].status == CourseStatus::Completed
                && class_in(other.classes@, d)[i].points_awarded == other.courses@[d].points
        } by {
            assert(class_in(other.classes@, d) == other.class(d));
            if d != c {
                assert(other.class(d) == self.class(d));
                assert(class_in(self.classes@, d)[i] == other.class(d)[i]);
                if self.class(d)[i].points_awarded != 0 {
                    assert(self.courses@.contains_key(d));
                }
            } else {
                assert(other.class(c)[i] == class_in(other.classes@, d)[i]);
            }
        }
        assert forall|d: u32| #[trigger] other.courses@.contains_key(d) implies other.courses@[d].points
            <= other.config.max_points_per_course by {
            assert(self.courses@.contains_key(d));
        }
        assert forall|s: u64| #[trigger] count_in(other.perwerde_scores@, s) as nat == awarded_in(other.classes@, s, n) by {
            self.lemma_below_frame(other, s, n, c);
            assert(other.score_of(s) as nat + class_awarded(self.class(c), s) == self.score_of(s) as nat
                + class_awarded(other.class(c), s));
            assert(count_in(self.perwerde_scores@, s) as nat == awarded_in(self.classes@, s, n));
        }
        assert forall|s: u64| #[trigger] count_in(other.rewarded_courses@, s) as nat == rewarded_in(other.classes@, s, n) by {
            self.lemma_below_frame(other, s, n, c);
            assert(other.rewarded_of(s) as nat + class_rewarded(self.class(c), s) == self.rewarded_of(s) as nat
                + class_rewarded(other.class(c), s));
            assert(count_in(self.rewarded_courses@, s) as nat == rewarded_in(self.classes@, s, n));
        }
    }

    /// Closing a course that was not completed, is worth something, and could not push any
    /// score past what a `u32` holds keeps the agreement: each student's score and rewarded
    /// count move by exactly what their new place carries.
    proof fn lemma_close_keeps_agreement(&self, post: &Self, course_id: u32, r: CourseClosure)
        requires
            self.wf(),
            self.records_agree(),
            self.courses@.contains_key(course_id),
            self.courses@[course_id].status != CourseStatus::Completed,
            self.courses@[course_id].points > 0,
            self.config.rewarded_course_limit * self.config.max_points_per_course <= u32::MAX,
            self.awarded(post, course_id, r),
            post.config == self.config,
            post.next_course_id == self.next_course_id,
        ensures
            post.records_agree(),
    {
        let class = self.class(course_id);
        let new_class = post.class(course_id);
        let points = self.courses@[course_id].points;
        let limit = self.config.rewarded_course_limit;
        let max = self.config.max_points_per_course;
        assert forall|i: int| 0 <= i < class.len() implies (#[trigger] class[i]).points_awarded == 0 by {
            assert(class_in(self.classes@, course_id)[i] == class[i]);
        }
        assert(distinct_students(class));
        assert forall|a: int, b: int| 0 <= a < new_class.len() && 0 <= b < new_class.len() && a != b implies
            #[trigger] new_class[a].student != #[trigger] new_class[b].student by {
            assert(new_class[a] == self.closed_enrollment(class[a], points));
            assert(new_class[b] == self.closed_enrollment(class[b], points));
        }
        assert forall|c: u32, i: int| 0 <= i < self.class(c).len() implies (#[trigger] self.class(c)[i]).points_awarded <= max by {
            assert(class_in(self.classes@, c)[i] == self.class(c)[i]);
            if self.class(c)[i].points_awarded != 0 {
                assert(self.courses@.contains_key(c));
            }
        }
        assert forall|i: int| #![trigger new_class[i]] 0 <= i < new_class.len() implies {
            ||| new_class[i].points_awarded == 0
            ||| post.courses@.contains_key(course_id) && post.courses@[course_id].status == CourseStatus::Completed
                && new_class[i].points_awarded == post.courses@[course_id].points
        } by {
            assert(new_class[i] == self.closed_enrollment(class[i], points));
        }
        assert forall|t: u64| #[trigger] post.score_of(t) as nat + class_awarded(class, t)
            == self.score_of(t) as nat + class_awarded(new_class, t) by {
            lemma_class_nothing(class, t);
            if on_list(class, t) {
                let k = seat_of(class, t);
                assert(new_class[k] == self.closed_enrollment(class[k], points));
                lemma_class_seat(new_class, k);
                let e = class[k];
                assert(e.student == t);
                if self.gets_points(e) {
                    self.lemma_below_bounded(t, self.next_course_id as nat, max as nat);
                    assert(self.score_of(t) as nat == self.awarded_total(t));
                    assert(self.rewarded_of(t) as nat == self.rewarded_total(t));
                    let sc = self.score_of(t) as int;
                    let rw = self.rewarded_of(t) as int;
                    assert(sc + points <= u32::MAX) by (nonlinear_arith)
                        requires
                            sc <= max * rw,
                            rw < limit,
                            points <= max,
                            limit * max <= u32::MAX,
                            0 <= rw,
                            0 <= max,
                    ;
                }
            } else {
                assert(!on_list(new_class, t)) by {
                    if on_list(new_class, t) {
                        let j = choose|j: int| 0 <= j < new_class.len() && #[trigger] new_class[j].student == t;
                        assert(new_class[j] == self.closed_enrollment(class[j], points));
                        assert(class[j].student == t);
                    }
                }
                lemma_class_unlisted(new_class, t);
                assert(post.completed_of(t) == self.completed_of(t));
            }
        }
        assert forall|t: u64| #[trigger] post.rewarded_of(t) as nat + class_rewarded(class, t)
            == self.rewarded_of(t) as nat + class_rewarded(new_class, t) by {
            lemma_class_nothing(class, t);
            if on_list(class, t) {
                let k = seat_of(class, t);
                assert(new_class[k] == self.closed_enrollment(class[k], points));
                lemma_class_seat(new_class, k);
                assert(class[k].student == t);
            } else {
                assert(!on_list(new_class, t)) by {
                    if on_list(new_class, t) {
                        let j = choose|j: int| 0 <= j < new_class.len() && #[trigger] new_class[j].student == t;
                        assert(new_class[j] == self.closed_enrollment(class[j], points));
                        assert(class[j].student == t);
                    }
                }
                lemma_class_unlisted(new_class, t);
                assert(post.completed_of(t) == self.completed_of(t));
            }
        }
        assert(post.courses@.dom() =~= self.courses@.dom());
        self.lemma_agreement_step(post, course_id);
    }

    /// Annulling a completed course keeps the agreement: each student's score and rewarded
    /// count lose exactly what their place on it carried.
    proof fn lemma_annul_keeps_agreement(&self, post: &Self, course_id: u32, r: Annulment)
        requires
            self.wf(),
            self.records_agree(),
            self.courses@.contains_key(course_id),
            self.courses@[course_id].status == CourseStatus::Completed,
            self.annulled(post, course_id, r),
            post.config == self.config,
            post.next_course_id == self.next_course_id,
        ensures
            post.records_agree(),
    {
        let class = self.class(course_id);
        let new_class = post.class(course_id);
        let n = self.next_course_id as nat;
        assert(course_id < self.next_course_id);
        assert(distinct_students(class));
        assert forall|a: int, b: int| 0 <= a < new_class.len() && 0 <= b < new_class.len() && a != b implies
            #[trigger] new_class[a].student != #[trigger] new_class[b].student by {
            assert(new_class[a] == (Enrollment { points_awarded: 0, ..class[a] }));
            assert(new_class[b] == (Enrollment { points_awarded: 0, ..class[b] }));
        }
        assert forall|i: int| #![trigger new_class[i]] 0 <= i < new_class.len() implies new_class[i].points_awarded == 0 by {
            assert(new_class[i] == (Enrollment { points_awarded: 0, ..class[i] }));
        }
        assert forall|t: u64| #[trigger] post.score_of(t) as nat + class_awarded(class, t)
            == self.score_of(t) as nat + class_awarded(new_class, t) by {
            lemma_class_nothing(new_class, t);
            if on_list(class, t) {
                let k = seat_of(class, t);
                lemma_class_seat(class, k);
                let e = class[k];
                if e.points_awarded > 0 {
                    self.lemma_below_includes(t, n, course_id);
                    assert(self.score_of(t) as nat == self.awarded_total(t));
                }
            } else {
                lemma_class_unlisted(class, t);
                assert(post.completed_of(t) == self.completed_of(t));
            }
        }
        assert forall|t: u64| #[trigger] post.rewarded_of(t) as nat + class_rewarded(class, t)
            == self.rewarded_of(t) as nat + class_rewarded(new_class, t) by {
            lemma_class_nothing(new_class, t);
            if on_list(class, t) {
                let k = seat_of(class, t);
                lemma_class_seat(class, k);
                let e = class[k];
                if e.points_awarded > 0 {
                    self.lemma_below_includes(t, n, course_id);
                    assert(self.rewarded_of(t) as nat == self.rewarded_total(t));
                }
            } else {
                lemma_class_unlisted(class, t);
                assert(post.completed_of(t) == self.completed_of(t));
            }
        }
        assert(post.courses@.dom() =~= self.courses@.dom());
        self.lemma_agreement_step(post, course_id);
    }

    /// A student on no class list was awarded nothing.
    proof fn lemma_below_unlisted(&self, s: u64, n: nat)
        requires
            forall|c: u32| !on_list(#[trigger] self.class(c), s),
        ensures
            self.awarded_below(s, n) == 0,
            self.rewarded_below(s, n) == 0,
        decreases n,
    {
        if n > 0 {
            self.lemma_below_unlisted(s, (n - 1) as nat);
            lemma_class_unlisted(self.class((n - 1) as u32), s);
        }
    }

    /// A student whose record fails a check is on some class list.
    proof fn lemma_failing_student_listed(&self, v: InvariantViolation, s: u64)
        requires
            self.indexed(),
            self.student_fails(v, s),
        ensures
            on_some_list(self.classes@, s),
    {
        if !on_some_list(self.classes@, s) {
            assert forall|c: u32| !on_list(#[trigger] self.class(c), s) by {
                if self.classes@.contains_key(c) && on_list(self.class(c), s) {
                    assert(on_list(self.classes@[c]@, s));
                }
            }
            self.lemma_below_unlisted(s, self.next_course_id as nat);
            assert(count_in(self.perwerde_scores@, s) == 0);
            assert(count_in(self.rewarded_courses@, s) == 0);
        }
    }

    /// What `s`'s courses awarded them and how many did, each saturated at `u64::MAX`.
    fn student_totals(&self, s: u64) -> (r: (u64, u64))
        ensures
            r.0 == saturated(self.awarded_total(s)),
            r.1 == saturated(self.rewarded_total(s)),
    {
        let mut awarded: u64 = 0;
        let mut rewarded: u64 = 0;
        let mut c: u32 = 0;
        while c < self.next_course_id
            invariant
                c <= self.next_course_id,
                awarded == saturated(self.awarded_below(s, c as nat)),
                rewarded == saturated(self.rewarded_below(s, c as nat)),
            decreases self.next_course_id - c,
        {
            match self.classes.get(&c) {
                Some(class) => {
                    let mut i: usize = 0;
                    while i < class.len()
                        invariant
                            class@ == self.class(c),
                            i <= class@.len(),
                            awarded == saturated(self.awarded_below(s, c as nat) + class_awarded(class@.take(i as int), s)),
                            rewarded == saturated(self.rewarded_below(s, c as nat) + class_rewarded(class@.take(i as int), s)),
                        decreases class@.len() - i,
                    {
                        let e = class[i];
                        proof {
                            assert(class@.take(i + 1).drop_last() =~= class@.take(i as int));
                            assert(class@.take(i + 1).last() == e);
                        }
                        if e.student == s {
                            awarded = awarded.saturating_add(e.points_awarded as u64);
                            if e.points_awarded > 0 {
                                rewarded = rewarded.saturating_add(1);
                            }
                        }
                        i = i + 1;
                    }
                    proof {
                        assert(class@.take(class@.len() as int) =~= class@);
                    }
                },
                None => {
                    assert(self.class(c) =~= Seq::<Enrollment>::empty());
                },
            }
            c = c + 1;
        }
        (awarded, rewarded)
    }

    /// Whether the record of student `s` shows the disagreement `v`.
    fn student_fails_exec(&self, v: InvariantViolation, s: u64) -> (r: bool)
        ensures
            r == self.student_fails(v, s),
    {
        match v {
            InvariantViolation::ScoreMismatch => match self.perwerde_scores.get(&s) {
                Some(score) => {
                    let (awarded, _) = self.student_totals(s);
                    awarded != *score as u64
                },
                None => false,
            },
            InvariantViolation::RewardedCountMismatch => match self.rewarded_courses.get(&s) {
                Some(count) => {
                    let (_, rewarded) = self.student_totals(s);
                    rewarded != *count as u64
                },
                None => false,
            },
            InvariantViolation::RewardedOverLimit => match self.rewarded_courses.get(&s) {
                Some(count) => *count > self.config.rewarded_course_limit,
                None => false,
            },
            InvariantViolation::RewardedOverCompleted => match self.rewarded_courses.get(&s) {
                Some(count) => *count > read_count(&self.completed_courses, s),
                None => false,
            },
            _ => false,
        }
    }

    /// Whether any student's record shows the disagreement `v`. Every student who could is on
    /// some class list, so the class lists are walked.
    fn any_student_fails(&self, v: InvariantViolation) -> (r: bool)
        requires
            self.indexed(),
            Self::is_student_check(v),
        ensures
            r == exists|s: u64| #[trigger] self.student_fails(v, s),
    {
        let mut c: u32 = 0;
        while c < self.next_course_id
            invariant
                c <= self.next_course_id,
                forall|d: u32, i: int| d < c && 0 <= i < self.class(d).len()
                    ==> !self.student_fails(v, #[trigger] self.class(d)[i].student),
            decreases self.next_course_id - c,
        {
            match self.classes.get(&c) {
                Some(class) => {
                    let mut i: usize = 0;
                    while i < class.len()
                        invariant
                            class@ == self.class(c),
                            i <= class@.len(),
                            c < self.next_course_id,
                            forall|d: u32, j: int| d < c && 0 <= j < self.class(d).len()
                                ==> !self.student_fails(v, #[trigger] self.class(d)[j].student),
                            forall|j: int| 0 <= j < i ==> !self.student_fails(v, #[trigger] class@[j].student),
                        decreases class@.len() - i,
                    {
                        if self.student_fails_exec(v, class[i].student) {
                            return true;
                        }
                        i = i + 1;
                    }
                    proof {
                        assert forall|d: u32, j: int| d < c + 1 && 0 <= j < self.class(d).len()
                            implies !self.student_fails(v, #[trigger] self.class(d)[j].student) by {
                            if d == c {
                                assert(class@[j] == self.class(d)[j]);
                            }
                        }
                    }
                },
                None => {
                    proof {
                        assert(self.class(c) =~= Seq::<Enrollment>::empty());
                        assert forall|d: u32, j: int| d < c + 1 && 0 <= j < self.class(d).len()
                            implies !self.student_fails(v, #[trigger] self.class(d)[j].student) by {
                        }
                    }
                },
            }
            c = c + 1;
        }
        proof {
            assert forall|s: u64| !self.student_fails(v, s) by {
                if self.student_fails(v, s) {
                    self.lemma_failing_student_listed(v, s);
                    let d = choose|d: u32| #![trigger on_list(self.classes@[d]@, s)] self.classes@.contains_key(d)
                        && on_list(self.classes@[d]@, s);
                    assert(self.class(d) == self.classes@[d]@);
                    let i = seat_of(self.class(d), s);
                    assert(self.courses@.contains_key(d));
                    assert(self.class(d)[i].student == s);
                }
            }
        }
        false
    }

    /// Whether course `c` shows the disagreement `v`.
    fn course_fails_exec(&self, v: InvariantViolation, c: u32) -> (r: bool)
        ensures
            r == self.course_fails(v, c),
    {
        match self.courses.get(&c) {
            Some(course) => match v {
                InvariantViolation::BoardIncomplete => course.status == CourseStatus::Completed
                    && read_course_count(&self.ratification_count, c) < self.config.ratifications_required,
                InvariantViolation::TeacherRatifiedOwn => match self.course_ratifiers.get(&c) {
                    Some(list) => vec_contains(list, course.owner),
                    None => false,
                },
                _ => false,
            },
            None => false,
        }
    }

    /// Whether any course shows the disagreement `v`. Every course is filed below the next id.
    fn any_course_fails(&self, v: InvariantViolation) -> (r: bool)
        requires
            self.indexed(),
        ensures
            r == exists|c: u32| #[trigger] self.course_fails(v, c),
    {
        let mut c: u32 = 0;
        while c < self.next_course_id
            invariant
                c <= self.next_course_id,
                forall|d: u32| d < c ==> !#[trigger] self.course_fails(v, d),
            decreases self.next_course_id - c,
        {
            if self.course_fails_exec(v, c) {
                return true;
            }
            c = c + 1;
        }
        proof {
            assert forall|d: u32| !#[trigger] self.course_fails(v, d) by {
                if self.courses@.contains_key(d) {
                    assert(d < self.next_course_id);
                }
            }
        }
        false
    }

    /// Check that the education records agree with one another: every score and rewarded
    /// count with the awards its courses carry, the rewarded counts with the limit and with
    /// the courses completed, every completed course with a full board, no teacher among their
    /// own ratifiers, and the seeded teachers within the cap. Gives the first kind of
    /// disagreement found.
    pub fn try_state(&self) -> (r: Result<(), InvariantViolation>)
        requires
            self.indexed(),
        ensures
            match self.invariant_violation() {
                Some(e) => r == Err::<(), InvariantViolation>(e),
                None => r == Ok::<(), InvariantViolation>(()),
            },
    {
        if self.any_student_fails(InvariantViolation::ScoreMismatch) {
            return Err(InvariantViolation::ScoreMismatch);
        }
        if self.any_student_fails(InvariantViolation::RewardedCountMismatch) {
            return Err(InvariantViolation::RewardedCountMismatch);
        }
        if self.any_student_fails(InvariantViolation::RewardedOverLimit) {
            return Err(InvariantViolation::RewardedOverLimit);
        }
        if self.any_student_fails(InvariantViolation::RewardedOverCompleted) {
            return Err(InvariantViolation::RewardedOverCompleted);
        }
        if self.any_course_fails(InvariantViolation::BoardIncomplete) {
            return Err(InvariantViolation::BoardIncomplete);
        }
        if self.any_course_fails(InvariantViolation::TeacherRatifiedOwn) {
            return Err(InvariantViolation::TeacherRatifiedOwn);
        }
        if self.honorary_mamoste_count > self.config.max_honorary_mamoste {
            return Err(InvariantViolation::HonoraryOverCap);
        }
        Ok(())
    }
}

} // verus!

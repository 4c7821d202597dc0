use vstd::prelude::*;
use crate::error::StoreError;
use crate::identity::{anonymous_identity, Identity};
use crate::ids::IdAllocator;
use crate::table::{
    copies, copy_strings, has_key_in, lemma_filter_len_update, lemma_filter_none,
    lemma_filter_push, lemma_filter_step, lemma_lookup_update, lookup_in, Record, Table,
};

verus! {

#[derive(Clone, Copy, Debug, PartialEq, Eq, Structural)]
pub enum CourseLevel {
    Beginner,
    Intermediate,
    Advanced,
}

/// One lesson of a course; `id` is its position in the course, from 1.
#[derive(Clone, Debug, PartialEq, Eq)]
pub struct Lesson {
    pub id: u64,
    pub title: String,
    pub content: String,
    pub duration: String,
    pub order: u32,
}

#[derive(Clone, Debug)]
pub struct Course {
    pub id: u64,
    pub title: String,
    pub description: String,
    pub educator: Identity,
    pub lessons: Vec<Lesson>,
    pub level: CourseLevel,
    pub image: String,
    pub tags: Vec<String>,
    pub duration: String,
    pub enrolled_students: u64,
    pub created_at: u64,
    pub updated_at: u64,
}

/// `student` takes course `course_id`.
#[derive(Clone, Copy, Debug, PartialEq, Eq, Structural)]
pub struct Enrollment {
    pub student: Identity,
    pub course_id: u64,
    pub enrolled_at: u64,
    pub completed: bool,
    pub completion_date: Option<u64>,
}

/// `student` finished lesson `lesson_id` of course `course_id`.
#[derive(Clone, Copy, Debug, PartialEq, Eq, Structural)]
pub struct LessonProgress {
    pub student: Identity,
    pub course_id: u64,
    pub lesson_id: u64,
    pub completed: bool,
    pub completed_at: Option<u64>,
}

#[derive(Clone, Debug)]
pub struct CreateCoursePayload {
    pub title: String,
    pub description: String,
    pub lessons: Vec<CreateLessonPayload>,
    pub level: CourseLevel,
    pub image: String,
    pub tags: Vec<String>,
    pub duration: String,
}

#[derive(Clone, Debug)]
pub struct CreateLessonPayload {
    pub title: String,
    pub content: String,
    pub duration: String,
    pub order: u32,
}

/// The fields to change; `None` leaves a field as it is.
#[derive(Clone, Debug)]
pub struct UpdateCoursePayload {
    pub title: Option<String>,
    pub description: Option<String>,
    pub level: Option<CourseLevel>,
    pub image: Option<String>,
    pub tags: Option<Vec<String>>,
    pub duration: Option<String>,
}

impl Record for Course {
    type Key = u64;

    open spec fn key(&self) -> u64 {
        self.id
    }

    fn has_key(&self, k: &u64) -> (r: bool) {
        self.id == *k
    }

    open spec fn same(&self, o: &Self) -> bool {
        &&& self.id == o.id
        &&& self.title == o.title
        &&& self.description == o.description
        &&& self.educator == o.educator
        &&& self.lessons@ == o.lessons@
        &&& self.level == o.level
        &&& self.image == o.image
        &&& self.tags@ == o.tags@
        &&& self.duration == o.duration
        &&& self.enrolled_students == o.enrolled_students
        &&& self.created_at == o.created_at
        &&& self.updated_at == o.updated_at
    }

    fn duplicate(&self) -> (r: Self) {
        Course {
            id: self.id,
            title: self.title.clone(),
            description: self.description.clone(),
            educator: self.educator,
            lessons: copy_lessons(&self.lessons),
            level: self.level,
            image: self.image.clone(),
            tags: copy_strings(&self.tags),
            duration: self.duration.clone(),
            enrolled_students: self.enrolled_students,
            created_at: self.created_at,
            updated_at: self.updated_at,
        }
    }
}

impl Record for Enrollment {
    type Key = (Identity, u64);

    open spec fn key(&self) -> (Identity, u64) {
        (self.student, self.course_id)
    }

    fn has_key(&self, k: &(Identity, u64)) -> (r: bool) {
        self.student == k.0 && self.course_id == k.1
    }

    open spec fn same(&self, o: &Self) -> bool {
        *self == *o
    }

    fn duplicate(&self) -> (r: Self) {
        *self
    }
}

impl Record for LessonProgress {
    type Key = (Identity, u64, u64);

    open spec fn key(&self) -> (Identity, u64, u64) {
        (self.student, self.course_id, self.lesson_id)
    }

    fn has_key(&self, k: &(Identity, u64, u64)) -> (r: bool) {
        self.student == k.0 && self.course_id == k.1 && self.lesson_id == k.2
    }

    open spec fn same(&self, o: &Self) -> bool {
        *self == *o
    }

    fn duplicate(&self) -> (r: Self) {
        *self
    }
}

/// A copy of a lesson.
fn copy_lesson(l: &Lesson) -> (r: Lesson)
    ensures
        r == *l,
{
    Lesson {
        id: l.id,
        title: l.title.clone(),
        content: l.content.clone(),
        duration: l.duration.clone(),
        order: l.order,
    }
}

/// A copy of a list of lessons.
fn copy_lessons(v: &Vec<Lesson>) -> (r: Vec<Lesson>)
    ensures
        r@ == v@,
{
    let mut out: Vec<Lesson> = Vec::new();
    let mut i: usize = 0;
    while i < v.len()
        invariant
            i <= v@.len(),
            out@ == v@.subrange(0, i as int),
        decreases v@.len() - i,
    {
        out.push(copy_lesson(&v[i]));
        i = i + 1;
    }
    proof {
        assert(v@.subrange(0, i as int) =~= v@);
    }
    out
}

/// The lesson made from the `i`-th lesson payload of a course.
pub open spec fn lesson_from(i: int, p: CreateLessonPayload) -> Lesson {
    Lesson { id: (i + 1) as u64, title: p.title, content: p.content, duration: p.duration, order: p.order }
}

/// The lessons of a new course, numbered from 1 in payload order.
pub open spec fn lessons_from(ps: Seq<CreateLessonPayload>) -> Seq<Lesson> {
    Seq::new(ps.len(), |i: int| lesson_from(i, ps[i]))
}

/// Numbers the lesson payloads of a new course.
fn build_lessons(ps: &Vec<CreateLessonPayload>) -> (r: Vec<Lesson>)
    ensures
        r@ == lessons_from(ps@),
{
    let mut out: Vec<Lesson> = Vec::new();
    let mut i: usize = 0;
    while i < ps.len()
        invariant
            i <= ps@.len(),
            out@ == lessons_from(ps@).subrange(0, i as int),
        decreases ps@.len() - i,
    {
        let p = &ps[i];
        out.push(
            Lesson {
                id: (i + 1) as u64,
                title: p.title.clone(),
                content: p.content.clone(),
                duration: p.duration.clone(),
                order: p.order,
            },
        );
        i = i + 1;
    }
    proof {
        assert(lessons_from(ps@).subrange(0, i as int) =~= lessons_from(ps@));
    }
    out
}

/// `c` with the fields of `p` that are present, updated at `now`.
pub open spec fn patched(c: Course, p: UpdateCoursePayload, now: u64) -> Course {
    Course {
        title: match p.title {
            Some(t) => t,
            None => c.title,
        },
        description: match p.description {
            Some(d) => d,
            None => c.description,
        },
        level: match p.level {
            Some(l) => l,
            None => c.level,
        },
        image: match p.image {
            Some(i) => i,
            None => c.image,
        },
        tags: match p.tags {
            Some(t) => t,
            None => c.tags,
        },
        duration: match p.duration {
            Some(d) => d,
            None => c.duration,
        },
        updated_at: now,
        ..c
    }
}

pub open spec fn taught_by(educator: Identity) -> spec_fn(Course) -> bool {
    |c: Course| c.educator == educator
}

pub open spec fn enrollment_of(student: Identity) -> spec_fn(Enrollment) -> bool {
    |e: Enrollment| e.student == student
}

pub open spec fn enrollment_in(course_id: u64) -> spec_fn(Enrollment) -> bool {
    |e: Enrollment| e.course_id == course_id
}

pub open spec fn progress_of(student: Identity, course_id: u64) -> spec_fn(LessonProgress) -> bool {
    |p: LessonProgress| p.student == student && p.course_id == course_id
}

/// Courses, who is enrolled in them, and which lessons they finished.
pub struct CourseStore {
    pub course_ids: IdAllocator,
    pub courses: Table<Course>,
    pub enrollments: Table<Enrollment>,
    pub progress: Table<LessonProgress>,
}

impl CourseStore {
    pub open spec fn wf(&self) -> bool {
        &&& self.courses.wf()
        &&& self.enrollments.wf()
        &&& self.progress.wf()
        &&& forall|i: int|
            0 <= i < self.courses@.len() ==> (#[trigger] self.courses@[i]).id <= self.course_ids.last
        &&& forall|i: int|
            0 <= i < self.enrollments@.len() ==> self.courses.has(
                (#[trigger] self.enrollments@[i]).course_id,
            )
        &&& forall|i: int|
            0 <= i < self.courses@.len() ==> (#[trigger] self.courses@[i]).enrolled_students
                == self.enrollments@.filter(enrollment_in(self.courses@[i].id)).len()
    }

    pub fn new() -> (r: CourseStore)
        ensures
            r.wf(),
            r.courses@.len() == 0,
            r.enrollments@.len() == 0,
            r.progress@.len() == 0,
            r.course_ids.last == 0,
    {
        CourseStore {
            course_ids: IdAllocator::new(),
            courses: Table::new(),
            enrollments: Table::new(),
            progress: Table::new(),
        }
    }

    /// Publishes a course taught by `caller`, its lessons numbered from 1.
    pub fn create_course(&mut self, caller: &Identity, now: u64, payload: CreateCoursePayload) -> (r:
        Result<Course, StoreError>)
        requires
            old(self).wf(),
            old(self).course_ids.last < u64::MAX,
        ensures
            final(self).wf(),
            *caller == anonymous_identity() ==> r == Err::<Course, StoreError>(
                StoreError::Unauthorized,
            ) && *final(self) == *old(self),
            *caller != anonymous_identity() ==> match r {
                Ok(c) => {
                    &&& c.id == old(self).course_ids.last + 1
                    &&& c.title == payload.title
                    &&& c.description == payload.description
                    &&& c.educator == *caller
                    &&& c.lessons@ == lessons_from(payload.lessons@)
                    &&& c.level == payload.level
                    &&& c.image == payload.image
                    &&& c.tags@ == payload.tags@
                    &&& c.duration == payload.duration
                    &&& c.enrolled_students == 0
                    &&& c.created_at == now
                    &&& c.updated_at == now
                    &&& final(self).course_ids.last == c.id
                    &&& final(self).courses@ == old(self).courses@.push(final(self).courses@.last())
                    &&& final(self).courses@.last().same(&c)
                    &&& final(self).enrollments == old(self).enrollments
                    &&& final(self).progress == old(self).progress
                },
                Err(_) => false,
            },
    {
        if caller.is_anonymous() {
            return Err(StoreError::Unauthorized);
        }
        let id = self.course_ids.allocate();
        let lessons = build_lessons(&payload.lessons);
        let c = Course {
            id,
            title: payload.title,
            description: payload.description,
            educator: *caller,
            lessons,
            level: payload.level,
            image: payload.image,
            tags: payload.tags,
            duration: payload.duration,
            enrolled_students: 0,
            created_at: now,
            updated_at: now,
        };
        let ghost cs = self.courses@;
        self.courses.insert(c.duplicate());
        proof {
            assert forall|i: int| 0 <= i < self.enrollments@.len() implies self.courses.has(
                (#[trigger] self.enrollments@[i]).course_id,
            ) by {
                let j = choose|j: int|
                    0 <= j < cs.len() && cs[j].key() == self.enrollments@[i].course_id;
                assert(self.courses@[j] == cs[j]);
            }
            assert forall|i: int| 0 <= i < self.courses@.len() implies (
            #[trigger] self.courses@[i]).id <= self.course_ids.last by {
                if i < cs.len() {
                    assert(self.courses@[i] == cs[i]);
                }
            }
            assert forall|i: int| 0 <= i < self.courses@.len() implies (
            #[trigger] self.courses@[i]).enrolled_students == self.enrollments@.filter(
                enrollment_in(self.courses@[i].id),
            ).len() by {
                if i < cs.len() {
                    assert(self.courses@[i] == cs[i]);
                } else {
                    // nobody is enrolled in the new course yet
                    assert forall|k: int| 0 <= k < self.enrollments@.len() implies !enrollment_in(id)(
                        #[trigger] self.enrollments@[k],
                    ) by {
                        let j = choose|j: int|
                            0 <= j < cs.len() && cs[j].key() == self.enrollments@[k].course_id;
                        assert(cs[j].id <= old(self).course_ids.last);
                    }
                    lemma_filter_none(self.enrollments@, enrollment_in(id));
                }
            }
        }
        Ok(c)
    }

    /// A copy of course `course_id`.
    pub fn get_course(&self, course_id: u64) -> (r: Option<Course>)
        requires
            self.wf(),
        ensures
            r is Some <==> self.courses.has(course_id),
            r matches Some(c) ==> c.same(&self.courses.lookup(course_id).unwrap()),
    {
        self.courses.get(&course_id)
    }

    /// All courses, in creation order.
    pub fn get_all_courses(&self) -> (r: Vec<Course>)
        requires
            self.wf(),
        ensures
            copies(r@, self.courses@),
    {
        self.courses.scan()
    }

    /// The courses taught by `educator`, in creation order.
    pub fn get_courses_by_educator(&self, educator: &Identity) -> (r: Vec<Course>)
        requires
            self.wf(),
        ensures
            copies(r@, self.courses@.filter(taught_by(*educator))),
    {
        let ghost p = taught_by(*educator);
        let mut out: Vec<Course> = Vec::new();
        let mut i: usize = 0;
        while i < self.courses.len()
            invariant
                i <= self.courses@.len(),
                p == taught_by(*educator),
                copies(out@, self.courses@.subrange(0, i as int).filter(p)),
            decreases self.courses@.len() - i,
        {
            let c = self.courses.row(i);
            proof {
                lemma_filter_step(self.courses@, i as int, p);
            }
            if c.educator == *educator {
                out.push(c.duplicate());
            }
            i = i + 1;
        }
        proof {
            assert(self.courses@.subrange(0, i as int) =~= self.courses@);
        }
        out
    }

    /// Changes the fields present in `payload`; only the course's educator may.
    pub fn update_course(&mut self, caller: &Identity, now: u64, course_id: u64, payload: UpdateCoursePayload) -> (r:
        Result<Course, StoreError>)
        requires
            old(self).wf(),
        ensures
            final(self).wf(),
            !old(self).courses.has(course_id) ==> r == Err::<Course, StoreError>(StoreError::NotFound)
                && *final(self) == *old(self),
            old(self).courses.has(course_id) && old(self).courses.lookup(course_id).unwrap().educator
                != *caller ==> r == Err::<Course, StoreError>(StoreError::Unauthorized) && *final(self)
                == *old(self),
            old(self).courses.has(course_id) && old(self).courses.lookup(course_id).unwrap().educator
                == *caller ==> {
                let nc = patched(old(self).courses.lookup(course_id).unwrap(), payload, now);
                &&& r matches Ok(c) && c.same(&nc)
                &&& final(self).courses.lookup(course_id) matches Some(x) && x.same(&nc)
                &&& forall|k: u64|
                    k != course_id ==> final(self).courses.lookup(k) == old(self).courses.lookup(k)
                &&& final(self).enrollments == old(self).enrollments
                &&& final(self).progress == old(self).progress
                &&& final(self).course_ids == old(self).course_ids
            },
    {
        let i = match self.courses.find(&course_id) {
            Some(i) => i,
            None => return Err(StoreError::NotFound),
        };
        if self.courses.row(i).educator != *caller {
            return Err(StoreError::Unauthorized);
        }
        let ghost cs = self.courses@;
        let mut c = self.courses.row(i).duplicate();
        if let Some(t) = payload.title {
            c.title = t;
        }
        if let Some(d) = payload.description {
            c.description = d;
        }
        if let Some(l) = payload.level {
            c.level = l;
        }
        if let Some(im) = payload.image {
            c.image = im;
        }
        if let Some(t) = payload.tags {
            c.tags = t;
        }
        if let Some(d) = payload.duration {
            c.duration = d;
        }
        c.updated_at = now;
        let res = c.duplicate();
        let ghost stored = c;
        self.courses.replace(i, c);
        proof {
            lemma_lookup_update(cs, i as int, stored, course_id);
            assert forall|k: u64| k != course_id implies lookup_in(self.courses@, k) == lookup_in(
                cs,
                k,
            ) by {
                lemma_lookup_update(cs, i as int, stored, k);
            }
            assert forall|j: int| 0 <= j < self.enrollments@.len() implies self.courses.has(
                (#[trigger] self.enrollments@[j]).course_id,
            ) by {
                let k = self.enrollments@[j].course_id;
                if k != course_id {
                    assert(lookup_in(self.courses@, k) == lookup_in(cs, k));
                    assert(has_key_in(cs, k));
                } else {
                    assert(lookup_in(self.courses@, k) is Some);
                }
            }
            assert forall|j: int| 0 <= j < self.courses@.len() implies (
            #[trigger] self.courses@[j]).id <= self.course_ids.last by {
                assert(self.courses@[j].id == cs[j].id);
            }
            assert forall|j: int| 0 <= j < self.courses@.len() implies (
            #[trigger] self.courses@[j]).enrolled_students == self.enrollments@.filter(
                enrollment_in(self.courses@[j].id),
            ).len() by {
                assert(self.courses@[j].id == cs[j].id);
                assert(self.courses@[j].enrolled_students == cs[j].enrolled_students);
            }
        }
        Ok(res)
    }

    /// Enrolls `caller` in course `course_id` and counts the student on it.
    pub fn enroll_in_course(&mut self, caller: &Identity, now: u64, course_id: u64) -> (r: Result<
        Enrollment,
        StoreError,
    >)
        requires
            old(self).wf(),
        ensures
            final(self).wf(),
            ({
                let c = old(self).courses.lookup(course_id).unwrap();
                let e = Enrollment {
                    student: *caller,
                    course_id,
                    enrolled_at: now,
                    completed: false,
                    completion_date: None,
                };
                if *caller == anonymous_identity() {
                    r == Err::<Enrollment, StoreError>(StoreError::Unauthorized) && *final(self)
                        == *old(self)
                } else if !old(self).courses.has(course_id) {
                    r == Err::<Enrollment, StoreError>(StoreError::NotFound) && *final(self) == *old(
                        self,
                    )
                } else if old(self).enrollments.has((*caller, course_id)) {
                    r == Err::<Enrollment, StoreError>(StoreError::Conflict) && *final(self) == *old(
                        self,
                    )
                } else if c.enrolled_students == u64::MAX {
                    r == Err::<Enrollment, StoreError>(StoreError::Overflow) && *final(self) == *old(
                        self,
                    )
                } else {
                    &&& r == Ok::<Enrollment, StoreError>(e)
                    &&& final(self).enrollments@ == old(self).enrollments@.push(e)
                    &&& final(self).courses.lookup(course_id) matches Some(x) && x.same(
                        &Course { enrolled_students: (c.enrolled_students + 1) as u64, ..c },
                    )
                    &&& forall|k: u64|
                        k != course_id ==> final(self).courses.lookup(k) == old(self).courses.lookup(k)
                    &&& final(self).progress == old(self).progress
                    &&& final(self).course_ids == old(self).course_ids
                }
            }),
    {
        if caller.is_anonymous() {
            return Err(StoreError::Unauthorized);
        }
        let i = match self.courses.find(&course_id) {
            Some(i) => i,
            None => return Err(StoreError::NotFound),
        };
        let key = (*caller, course_id);
        if self.enrollments.contains(&key) {
            return Err(StoreError::Conflict);
        }
        if self.courses.row(i).enrolled_students == u64::MAX {
            return Err(StoreError::Overflow);
        }
        let e = Enrollment {
            student: *caller,
            course_id,
            enrolled_at: now,
            completed: false,
            completion_date: None,
        };
        let ghost es = self.enrollments@;
        self.enrollments.insert(e);
        let ghost cs = self.courses@;
        let mut c = self.courses.row(i).duplicate();
        c.enrolled_students = c.enrolled_students + 1;
        let ghost stored = c;
        self.courses.replace(i, c);
        proof {
            lemma_lookup_update(cs, i as int, stored, course_id);
            assert forall|k: u64| k != course_id implies lookup_in(self.courses@, k) == lookup_in(
                cs,
                k,
            ) by {
                lemma_lookup_update(cs, i as int, stored, k);
            }
            assert forall|j: int| 0 <= j < self.enrollments@.len() implies self.courses.has(
                (#[trigger] self.enrollments@[j]).course_id,
            ) by {
                let k = self.enrollments@[j].course_id;
                if j < es.len() {
                    assert(self.enrollments@[j] == es[j]);
                }
                if k != course_id {
                    assert(lookup_in(self.courses@, k) == lookup_in(cs, k));
                    assert(has_key_in(cs, k));
                } else {
                    assert(lookup_in(self.courses@, k) is Some);
                }
            }
            assert forall|j: int| 0 <= j < self.courses@.len() implies (
            #[trigger] self.courses@[j]).id <= self.course_ids.last by {
                assert(self.courses@[j].id == cs[j].id);
            }
            assert forall|j: int| 0 <= j < self.courses@.len() implies (
            #[trigger] self.courses@[j]).enrolled_students == self.enrollments@.filter(
                enrollment_in(self.courses@[j].id),
            ).len() by {
                lemma_filter_push(es, e, enrollment_in(self.courses@[j].id));
                if j != i {
                    assert(cs[j].id != cs[i as int].id);
                    assert(self.courses@[j] == cs[j]);
                }
            }
        }
        Ok(e)
    }

    /// Records that `caller` finished a lesson of a course they are enrolled in.
    pub fn complete_lesson(&mut self, caller: &Identity, now: u64, course_id: u64, lesson_id: u64) -> (r:
        Result<LessonProgress, StoreError>)
        requires
            old(self).wf(),
        ensures
            final(self).wf(),
            ({
                let p = LessonProgress {
                    student: *caller,
                    course_id,
                    lesson_id,
                    completed: true,
                    completed_at: Some(now),
                };
                if !old(self).enrollments.has((*caller, course_id)) {
                    r == Err::<LessonProgress, StoreError>(StoreError::NotFound) && *final(self)
                        == *old(self)
                } else {
                    &&& r == Ok::<LessonProgress, StoreError>(p)
                    &&& final(self).progress.lookup((*caller, course_id, lesson_id)) == Some(p)
                    &&& forall|k: (Identity, u64, u64)|
                        k != (*caller, course_id, lesson_id) ==> final(self).progress.lookup(k) == old(
                            self,
                        ).progress.lookup(k)
                    &&& final(self).courses == old(self).courses
                    &&& final(self).enrollments == old(self).enrollments
                    &&& final(self).course_ids == old(self).course_ids
                }
            }),
    {
        if !self.enrollments.contains(&(*caller, course_id)) {
            return Err(StoreError::NotFound);
        }
        let p = LessonProgress {
            student: *caller,
            course_id,
            lesson_id,
            completed: true,
            completed_at: Some(now),
        };
        self.progress.put(&(*caller, course_id, lesson_id), p);
        Ok(p)
    }

    /// Marks `caller`'s enrollment in course `course_id` as completed at `now`.
    pub fn complete_course(&mut self, caller: &Identity, now: u64, course_id: u64) -> (r: Result<
        Enrollment,
        StoreError,
    >)
        requires
            old(self).wf(),
        ensures
            final(self).wf(),
            ({
                let key = (*caller, course_id);
                if !old(self).enrollments.has(key) {
                    r == Err::<Enrollment, StoreError>(StoreError::NotFound) && *final(self) == *old(
                        self,
                    )
                } else {
                    let e = Enrollment {
                        completed: true,
                        completion_date: Some(now),
                        ..old(self).enrollments.lookup(key).unwrap()
                    };
                    &&& r == Ok::<Enrollment, StoreError>(e)
                    &&& final(self).enrollments.lookup(key) == Some(e)
                    &&& forall|k: (Identity, u64)|
                        k != key ==> final(self).enrollments.lookup(k) == old(self).enrollments.lookup(k)
                    &&& final(self).courses == old(self).courses
                    &&& final(self).progress == old(self).progress
                    &&& final(self).course_ids == old(self).course_ids
                }
            }),
    {
        let key = (*caller, course_id);
        let i = match self.enrollments.find(&key) {
            Some(i) => i,
            None => return Err(StoreError::NotFound),
        };
        let ghost es = self.enrollments@;
        let mut e = *self.enrollments.row(i);
        e.completed = true;
        e.completion_date = Some(now);
        self.enrollments.replace(i, e);
        proof {
            lemma_lookup_update(es, i as int, e, key);
            assert forall|k: (Identity, u64)| k != key implies lookup_in(self.enrollments@, k)
                == lookup_in(es, k) by {
                lemma_lookup_update(es, i as int, e, k);
            }
            assert forall|j: int| 0 <= j < self.enrollments@.len() implies self.courses.has(
                (#[trigger] self.enrollments@[j]).course_id,
            ) by {
                assert(self.enrollments@[j].course_id == es[j].course_id);
            }
            assert forall|j: int| 0 <= j < self.courses@.len() implies (
            #[trigger] self.courses@[j]).enrolled_students == self.enrollments@.filter(
                enrollment_in(self.courses@[j].id),
            ).len() by {
                lemma_filter_len_update(es, i as int, e, enrollment_in(self.courses@[j].id));
                assert(self.enrollments@ == es.update(i as int, e));
            }
        }
        Ok(e)
    }

    /// The enrollments of `student`, in the order they were made.
    pub fn get_student_enrollments(&self, student: &Identity) -> (r: Vec<Enrollment>)
        requires
            self.wf(),
        ensures
            r@ == self.enrollments@.filter(enrollment_of(*student)),
    {
        let ghost p = enrollment_of(*student);
        let mut out: Vec<Enrollment> = Vec::new();
        let mut i: usize = 0;
        while i < self.enrollments.len()
            invariant
                i <= self.enrollments@.len(),
                p == enrollment_of(*student),
                out@ == self.enrollments@.subrange(0, i as int).filter(p),
            decreases self.enrollments@.len() - i,
        {
            let e = *self.enrollments.row(i);
            proof {
                lemma_filter_step(self.enrollments@, i as int, p);
            }
            if e.student == *student {
                out.push(e);
            }
            i = i + 1;
        }
        proof {
            assert(self.enrollments@.subrange(0, i as int) =~= self.enrollments@);
        }
        out
    }

    /// The enrollments in course `course_id`, in the order they were made.
    pub fn get_course_enrollments(&self, course_id: u64) -> (r: Vec<Enrollment>)
        requires
            self.wf(),
        ensures
            r@ == self.enrollments@.filter(enrollment_in(course_id)),
    {
        let ghost p = enrollment_in(course_id);
        let mut out: Vec<Enrollment> = Vec::new();
        let mut i: usize = 0;
        while i < self.enrollments.len()
            invariant
                i <= self.enrollments@.len(),
                p == enrollment_in(course_id),
                out@ == self.enrollments@.subrange(0, i as int).filter(p),
            decreases self.enrollments@.len() - i,
        {
            let e = *self.enrollments.row(i);
            proof {
                lemma_filter_step(self.enrollments@, i as int, p);
            }
            if e.course_id == course_id {
                out.push(e);
            }
            i = i + 1;
        }
        proof {
            assert(self.enrollments@.subrange(0, i as int) =~= self.enrollments@);
        }
        out
    }

    /// The lessons `student` finished in course `course_id`, in the order first recorded.
    pub fn get_lesson_progress(&self, student: &Identity, course_id: u64) -> (r: Vec<LessonProgress>)
        requires
            self.wf(),
        ensures
            r@ == self.progress@.filter(progress_of(*student, course_id)),
    {
        let ghost p = progress_of(*student, course_id);
        let mut out: Vec<LessonProgress> = Vec::new();
        let mut i: usize = 0;
        while i < self.progress.len()
            invariant
                i <= self.progress@.len(),
                p == progress_of(*student, course_id),
                out@ == self.progress@.subrange(0, i as int).filter(p),
            decreases self.progress@.len() - i,
        {
            let e = *self.progress.row(i);
            proof {
                lemma_filter_step(self.progress@, i as int, p);
            }
            if e.student == *student && e.course_id == course_id {
                out.push(e);
            }
            i = i + 1;
        }
        proof {
            assert(self.progress@.subrange(0, i as int) =~= self.progress@);
        }
        out
    }
}

} // verus!
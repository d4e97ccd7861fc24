//! The calendar events of a schedule: one weekly event for each class of
//! each course the student is enrolled in.
use vstd::prelude::*;
use vstd::string::*;
use crate::course::{Class, ClassView, Course, CourseView};
use crate::extract::course_views;
use crate::schedule::{DateTime, Status};

verus! {

/// A weekly calendar event: it first takes place from `start` to `end`,
/// and repeats every week until `until`.
pub struct CalendarEvent {
    pub summary: String,
    pub location: String,
    pub description: String,
    pub start: DateTime,
    pub end: DateTime,
    pub until: DateTime,
}

pub struct CalendarEventView {
    pub summary: Seq<char>,
    pub location: Seq<char>,
    pub description: Seq<char>,
    pub start: DateTime,
    pub end: DateTime,
    pub until: DateTime,
}

impl View for CalendarEvent {
    type V = CalendarEventView;

    open spec fn view(&self) -> CalendarEventView {
        CalendarEventView {
            summary: self.summary@,
            location: self.location@,
            description: self.description@,
            start: self.start,
            end: self.end,
            until: self.until,
        }
    }
}

/// The event of class `class` of course `course`: its summary is
/// `ROOM (COMPONENT) CODE`, its location the address in Ottawa, and its
/// description names the course, the section and the instructor.
pub open spec fn event_of(course: CourseView, class: ClassView) -> CalendarEventView {
    CalendarEventView {
        summary: class.location + " ("@ + class.component.spec_text() + ") "@ + course.code,
        location: class.address + ", Ottawa, ON, Canada"@,
        description: "Name: "@ + course.name + " | Section: "@ + class.section.spec_text()
            + " | Instructor: "@ + class.instructor,
        start: class.time.start,
        end: class.time.end,
        until: class.end,
    }
}

/// The events of one course: none on the waiting list, else one per class
/// in order.
pub open spec fn course_events(course: CourseView) -> Seq<CalendarEventView> {
    if course.status == Status::Waiting {
        Seq::empty()
    } else {
        course.classes.map_values(|c: ClassView| event_of(course, c))
    }
}

/// The events of the first `n` courses, course by course.
pub open spec fn events_upto(courses: Seq<CourseView>, n: nat) -> Seq<CalendarEventView>
    decreases n,
{
    if n == 0 {
        Seq::empty()
    } else {
        events_upto(courses, (n - 1) as nat) + course_events(courses[n - 1])
    }
}

/// The events of all `courses`, course by course.
pub open spec fn events_of(courses: Seq<CourseView>) -> Seq<CalendarEventView> {
    events_upto(courses, courses.len())
}

pub open spec fn event_views(v: Seq<CalendarEvent>) -> Seq<CalendarEventView> {
    v.map_values(|e: CalendarEvent| e@)
}

/// The event of class `class` of course `course`.
pub fn class_event(course: &Course, class: &Class) -> (r: CalendarEvent)
    ensures
        r@ == event_of(course@, class@),
{
    let mut summary = class.location.clone();
    summary.append(" (");
    let component = class.component.to_string();
    summary.append(component.as_str());
    summary.append(") ");
    summary.append(course.code.as_str());
    let mut location = class.address.clone();
    location.append(", Ottawa, ON, Canada");
    let mut description = String::from_str("Name: ");
    description.append(course.name.as_str());
    description.append(" | Section: ");
    let section = class.section.to_string();
    description.append(section.as_str());
    description.append(" | Instructor: ");
    description.append(class.instructor.as_str());
    CalendarEvent {
        summary,
        location,
        description,
        start: class.time.start,
        end: class.time.end,
        until: class.end,
    }
}

/// The calendar events of `courses`: for each course not on the waiting
/// list, one event per class, in order.
pub fn calendar_events(courses: &Vec<Course>) -> (r: Vec<CalendarEvent>)
    ensures
        event_views(r@) == events_of(course_views(courses@)),
{
    let ghost cv = course_views(courses@);
    let mut out: Vec<CalendarEvent> = Vec::new();
    let mut k: usize = 0;
    assert(event_views(out@) =~= Seq::<CalendarEventView>::empty());
    while k < courses.len()
        invariant
            cv == course_views(courses@),
            k <= courses@.len(),
            event_views(out@) == events_upto(cv, k as nat),
        decreases courses@.len() - k,
    {
        let course = &courses[k];
        let ghost before = event_views(out@);
        assert(cv[k as int] == course@);
        if course.status != Status::Waiting {
            let mut i: usize = 0;
            assert(event_views(out@) =~= before + course_events(course@).take(0));
            while i < course.classes.len()
                invariant
                    course@ == cv[k as int],
                    cv[k as int].status != Status::Waiting,
                    i <= course.classes@.len(),
                    event_views(out@) == before + course_events(course@).take(i as int),
                decreases course.classes@.len() - i,
            {
                let e = class_event(course, &course.classes[i]);
                let ghost prev_out = out@;
                out.push(e);
                assert(course_events(course@).take(i + 1) =~= course_events(course@).take(
                    i as int,
                ).push(e@));
                assert(event_views(out@) =~= event_views(prev_out).push(e@));
                i = i + 1;
            }
            assert(course_events(course@).take(i as int) =~= course_events(course@));
        } else {
            assert(before =~= before + course_events(course@));
        }
        k = k + 1;
    }
    assert(cv.len() == courses@.len());
    out
}

/// A course on the waiting list adds no event, whatever its classes.
pub proof fn lemma_waiting_course_adds_no_event(courses: Seq<CourseView>, course: CourseView)
    requires
        course.status == Status::Waiting,
    ensures
        events_of(courses.push(course)) == events_of(courses),
        events_of(seq![course]).len() == 0,
{
    lemma_events_prefix(courses.push(course), courses, courses.len());
    assert(events_of(courses.push(course)) =~= events_upto(courses.push(course), courses.len())
        + Seq::<CalendarEventView>::empty());
    lemma_events_prefix(seq![course], Seq::<CourseView>::empty(), 0);
    assert(events_upto(seq![course], 0) =~= Seq::<CalendarEventView>::empty());
}

/// An enrolled course adds one event per class, in order.
pub proof fn lemma_enrolled_course_adds_its_classes(courses: Seq<CourseView>, course: CourseView)
    requires
        course.status == Status::Enrolled,
    ensures
        events_of(courses.push(course)) == events_of(courses) + course.classes.map_values(
            |c: ClassView| event_of(course, c),
        ),
{
    lemma_events_prefix(courses.push(course), courses, courses.len());
}

/// The events of the first `n` courses depend on those courses alone.
proof fn lemma_events_prefix(a: Seq<CourseView>, b: Seq<CourseView>, n: nat)
    requires
        n <= a.len(),
        n <= b.len(),
        forall|i: int| 0 <= i < n ==> a[i] == b[i],
    ensures
        events_upto(a, n) == events_upto(b, n),
    decreases n,
{
    if n > 0 {
        lemma_events_prefix(a, b, (n - 1) as nat);
    }
}

} // verus!

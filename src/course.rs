//! Courses and their classes, built from the text cells of a schedule grid.
use vstd::prelude::*;
use vstd::string::*;
use crate::schedule::{
    anchored, Component, DateTime, DateTimeRange, DateTimeRangeRaw, Section, Status,
};
use crate::text::{find, find_str, split_pair, split_two, str_eq};

verus! {

/// Why a schedule export could not be read.
#[derive(Debug, Clone, Copy, PartialEq, Eq, Structural)]
pub enum ParseError {
    /// A group divider has no grandparent element holding its grid.
    MissingContainer,
    /// A course block has fewer than two grid rows.
    MissingRow,
    /// The header row has no cell.
    MissingStatus,
    /// The status cell is neither `Enrolled` nor `Waiting`.
    Status,
    /// The course title has no ` - ` between code and name.
    Title,
    /// A blank section or component cell in a course's first class.
    NothingToInherit,
    /// A section cell is not a letter and a number below one hundred.
    Section,
    /// A component cell is not a known component.
    Component,
    /// A meeting-time cell is malformed.
    Time,
    /// A meeting time is not a time of day.
    ClockRange,
    /// A location cell has no ` (`.
    Location,
    /// A term-dates cell does not hold two dates.
    TermDates,
}

/// The blank cell, meaning "same as the class above".
pub open spec fn blank() -> Seq<char> {
    seq!['\u{a0}']
}

/// The number of cells that describe one class.
pub const CELLS_PER_CLASS: usize = 7;

/// The format of the term dates.
pub const DATE_FORMAT: &'static str = "%m/%d/%Y";

/// Name for chrono's reading of `text` as a date in `format`, as a day number
/// (1 is January 1 of year 1).
pub uninterp spec fn date_day_number(text: Seq<char>, format: Seq<char>) -> Option<int>;

/// Relies on chrono's `NaiveDate::parse_from_str` to read a date, and on
/// `Datelike::num_days_from_ce` (an `i32`) for its day number.
#[verifier::external_body]
fn parse_day_number(text: &str, format: &str) -> (r: Option<i64>)
    ensures
        r matches Some(d) ==> date_day_number(text@, format@) == Some(d as int),
        r matches Some(d) ==> i32::MIN <= d <= i32::MAX,
        r is None ==> date_day_number(text@, format@) is None,
{
    chrono::NaiveDate::parse_from_str(text, format).ok().map(
        |d| i64::from(chrono::Datelike::num_days_from_ce(&d)),
    )
}

/// A class meeting of a course.
#[derive(Debug, Clone)]
pub struct Class {
    pub section: Section,
    pub component: Component,
    pub time: DateTimeRange,
    pub location: String,
    pub address: String,
    pub instructor: String,
    /// The end of the term, where the weekly meetings stop.
    pub end: DateTime,
}

pub struct ClassView {
    pub section: Section,
    pub component: Component,
    pub time: DateTimeRange,
    pub location: Seq<char>,
    pub address: Seq<char>,
    pub instructor: Seq<char>,
    pub end: DateTime,
}

impl View for Class {
    type V = ClassView;

    open spec fn view(&self) -> ClassView {
        ClassView {
            section: self.section,
            component: self.component,
            time: self.time,
            location: self.location@,
            address: self.address@,
            instructor: self.instructor@,
            end: self.end,
        }
    }
}

/// A course and its classes.
#[derive(Debug)]
pub struct Course {
    pub name: String,
    pub code: String,
    pub status: Status,
    pub classes: Vec<Class>,
}

pub struct CourseView {
    pub name: Seq<char>,
    pub code: Seq<char>,
    pub status: Status,
    pub classes: Seq<ClassView>,
}

pub open spec fn class_views(v: Seq<Class>) -> Seq<ClassView> {
    v.map_values(|c: Class| c@)
}

impl View for Course {
    type V = CourseView;

    open spec fn view(&self) -> CourseView {
        CourseView {
            name: self.name@,
            code: self.code@,
            status: self.status,
            classes: class_views(self.classes@),
        }
    }
}

/// The (address, room) of a location `ADDRESS (ROOM)`: the address is what
/// stands before the first ` (`, the room what follows it, less one trailing
/// `)`.
pub open spec fn location_parts(s: Seq<char>) -> Option<(Seq<char>, Seq<char>)> {
    match find(s, " ("@) {
        None => None,
        Some(i) => {
            let room = s.skip(i + " ("@.len());
            let room = if room.len() > 0 && room.last() == ')' { room.drop_last() } else { room };
            Some((s.take(i), room))
        },
    }
}

/// Splits a location `ADDRESS (ROOM)` into its address and its room.
pub fn split_location(s: &str) -> (r: Result<(String, String), ()>)
    ensures
        r matches Ok(p) ==> location_parts(s@) == Some((p.0@, p.1@)),
        r is Err ==> location_parts(s@) is None,
{
    let n = s.unicode_len();
    let sep = " (";
    let i = match find_str(s, sep) {
        Some(i) => i,
        None => return Err(()),
    };
    let address = s.substring_char(0, i);
    let from = i + sep.unicode_len();
    let mut to = n;
    if from < n && s.get_char(n - 1) == ')' {
        to = n - 1;
    }
    let room = s.substring_char(from, to);
    assert(room@ =~= location_parts(s@)->Some_0.1);
    Ok((address.to_string(), room.to_string()))
}

/// A section cell: blank inherits the previous class's section.
pub open spec fn section_cell(cell: Seq<char>, prev: Option<(Section, Component)>) -> Result<
    Section,
    ParseError,
> {
    if cell == blank() {
        match prev {
            Some(p) => Ok(p.0),
            None => Err(ParseError::NothingToInherit),
        }
    } else {
        match Section::spec_from(cell) {
            Some(s) => Ok(s),
            None => Err(ParseError::Section),
        }
    }
}

/// A component cell: blank inherits the previous class's component.
pub open spec fn component_cell(cell: Seq<char>, prev: Option<(Section, Component)>) -> Result<
    Component,
    ParseError,
> {
    if cell == blank() {
        match prev {
            Some(p) => Ok(p.1),
            None => Err(ParseError::NothingToInherit),
        }
    } else {
        match Component::spec_from(cell) {
            Some(c) => Ok(c),
            None => Err(ParseError::Component),
        }
    }
}

/// The first and last day numbers of a term written `MM/DD/YYYY - MM/DD/YYYY`.
pub open spec fn term_days(cell: Seq<char>) -> Option<(int, int)> {
    match split_two(cell, " - "@) {
        None => None,
        Some(p) => match (
            date_day_number(p.0, DATE_FORMAT@),
            date_day_number(p.1, DATE_FORMAT@),
        ) {
            (Some(a), Some(b)) => Some((a, b)),
            _ => None,
        },
    }
}

/// The class described by the seven cells `[_, section, component, time,
/// location, instructor, term dates]`, given the section and component of
/// the class above it, if any.
pub open spec fn class_from_cells(
    cells: Seq<Seq<char>>,
    prev: Option<(Section, Component)>,
    tz: chrono_tz::Tz,
) -> Result<ClassView, ParseError> {
    match section_cell(cells[1], prev) {
        Err(e) => Err(e),
        Ok(section) => match component_cell(cells[2], prev) {
            Err(e) => Err(e),
            Ok(component) => match DateTimeRangeRaw::spec_from(cells[3]) {
                None => Err(ParseError::Time),
                Some(raw) => match location_parts(cells[4]) {
                    None => Err(ParseError::Location),
                    Some(loc) => match term_days(cells[6]) {
                        None => Err(ParseError::TermDates),
                        Some(days) => if !raw.clock_valid() {
                            Err(ParseError::ClockRange)
                        } else {
                            Ok(
                                ClassView {
                                    section,
                                    component,
                                    time: anchored(
                                        raw,
                                        DateTime::spec_midnight(days.0 as i64, tz),
                                    ),
                                    location: loc.1,
                                    address: loc.0,
                                    instructor: cells[5],
                                    end: DateTime::spec_midnight(days.1 as i64, tz),
                                },
                            )
                        },
                    },
                },
            },
        },
    }
}

pub open spec fn texts(v: Seq<String>) -> Seq<Seq<char>> {
    v.map_values(|c: String| c@)
}

/// Builds the class from the seven cells of `cells` that start at `base`.
pub fn build_class(
    cells: &Vec<String>,
    base: usize,
    prev: Option<(Section, Component)>,
    tz: chrono_tz::Tz,
) -> (r: Result<Class, ParseError>)
    requires
        base + 7 <= cells@.len(),
    ensures
        r matches Ok(c) ==> class_from_cells(texts(cells@).subrange(base as int, base + 7), prev, tz)
            == Ok::<ClassView, ParseError>(c@),
        r matches Err(e) ==> class_from_cells(texts(cells@).subrange(base as int, base + 7), prev, tz)
            == Err::<ClassView, ParseError>(e),
{
    let _n = cells.len();
    let ghost cs = texts(cells@).subrange(base as int, base + 7);
    assert(forall|i: int| 0 <= i < 7 ==> cs[i] == #[trigger] cells@[base + i]@);
    let blank_cell = "\u{a0}";
    proof {
        reveal_strlit("\u{a0}");
        assert(blank_cell@ =~= blank());
        assert(cs[1] == cells@[base + 1]@);
        assert(cs[2] == cells@[base + 2]@);
        assert(cs[3] == cells@[base + 3]@);
        assert(cs[4] == cells@[base + 4]@);
        assert(cs[5] == cells@[base + 5]@);
        assert(cs[6] == cells@[base + 6]@);
    }
    let sec_text = cells[base + 1].as_str();
    let section = if str_eq(sec_text, blank_cell) {
        match prev {
            Some(p) => p.0,
            None => return Err(ParseError::NothingToInherit),
        }
    } else {
        match Section::from_str(sec_text) {
            Ok(s) => s,
            Err(()) => return Err(ParseError::Section),
        }
    };
    let comp_text = cells[base + 2].as_str();
    let component = if str_eq(comp_text, blank_cell) {
        match prev {
            Some(p) => p.1,
            None => return Err(ParseError::NothingToInherit),
        }
    } else {
        match Component::from_str(comp_text) {
            Ok(c) => c,
            Err(()) => return Err(ParseError::Component),
        }
    };
    let raw = match DateTimeRangeRaw::from_str(cells[base + 3].as_str()) {
        Ok(t) => t,
        Err(()) => return Err(ParseError::Time),
    };
    let (address, location) = match split_location(cells[base + 4].as_str()) {
        Ok(p) => p,
        Err(()) => return Err(ParseError::Location),
    };
    let (first_text, last_text) = match split_pair(cells[base + 6].as_str(), " - ") {
        Some(p) => p,
        None => return Err(ParseError::TermDates),
    };
    let first_day = match parse_day_number(first_text, DATE_FORMAT) {
        Some(d) => d,
        None => return Err(ParseError::TermDates),
    };
    let last_day = match parse_day_number(last_text, DATE_FORMAT) {
        Some(d) => d,
        None => return Err(ParseError::TermDates),
    };
    if !(raw.start.0 < 24 && raw.start.1 < 60 && raw.end.0 < 24 && raw.end.1 < 60) {
        return Err(ParseError::ClockRange);
    }
    let time = raw.into_datetime_range(DateTime::midnight(first_day, tz));
    let instructor = cells[base + 5].clone();
    Ok(
        Class {
            section,
            component,
            time,
            location,
            address,
            instructor,
            end: DateTime::midnight(last_day, tz),
        },
    )
}


/// The section and component that a class passes on to the class below it.
pub open spec fn inherited(v: Seq<ClassView>) -> Option<(Section, Component)> {
    if v.len() > 0 {
        Some((v.last().section, v.last().component))
    } else {
        None
    }
}

/// The classes of the first `n` groups of seven cells, in order, each blank
/// section or component taken from the class above; the first failing
/// group's error otherwise.
pub open spec fn classes_upto(cells: Seq<Seq<char>>, n: nat, tz: chrono_tz::Tz) -> Result<
    Seq<ClassView>,
    ParseError,
>
    decreases n,
{
    if n == 0 {
        Ok(Seq::empty())
    } else {
        match classes_upto(cells, (n - 1) as nat, tz) {
            Err(e) => Err(e),
            Ok(v) => match class_from_cells(
                cells.subrange(7 * (n - 1), 7 * (n as int)),
                inherited(v),
                tz,
            ) {
                Ok(c) => Ok(v.push(c)),
                Err(e) => Err(e),
            },
        }
    }
}

/// The classes described by `cells`, seven cells each; trailing cells that
/// do not fill a group are ignored.
pub open spec fn classes_of(cells: Seq<Seq<char>>, tz: chrono_tz::Tz) -> Result<
    Seq<ClassView>,
    ParseError,
> {
    classes_upto(cells, cells.len() / 7, tz)
}

/// Builds the classes described by the cells of a course's grid.
pub fn build_classes(cells: &Vec<String>, tz: chrono_tz::Tz) -> (r: Result<Vec<Class>, ParseError>)
    ensures
        r matches Ok(v) ==> classes_of(texts(cells@), tz) == Ok::<Seq<ClassView>, ParseError>(
            class_views(v@),
        ),
        r matches Err(e) ==> classes_of(texts(cells@), tz) == Err::<Seq<ClassView>, ParseError>(e),
{
    let len = cells.len();
    let n = len / CELLS_PER_CLASS;
    let mut out: Vec<Class> = Vec::new();
    let mut prev: Option<(Section, Component)> = None;
    let mut k: usize = 0;
    let ghost all = texts(cells@);
    assert(class_views(out@) =~= Seq::<ClassView>::empty());
    assert(classes_upto(all, 0, tz) == Ok::<Seq<ClassView>, ParseError>(Seq::empty()));
    while k < n
        invariant
            n == cells@.len() / 7,
            len == cells@.len(),
            k <= n,
            all == texts(cells@),
            classes_upto(all, k as nat, tz) == Ok::<Seq<ClassView>, ParseError>(class_views(out@)),
            prev == inherited(class_views(out@)),
        decreases n - k,
    {
        assert(k * 7 + 7 <= len) by (nonlinear_arith)
            requires
                k < n,
                n == len / 7,
        ;
        let base = k * CELLS_PER_CLASS;
        let ghost old_views = class_views(out@);
        assert(all.subrange(7 * k, 7 * (k + 1)) == texts(cells@).subrange(base as int, base + 7));
        let c = match build_class(cells, base, prev, tz) {
            Ok(c) => c,
            Err(e) => {
                proof {
                    lemma_prefix_err(all, (k + 1) as nat, n as nat, tz);
                }
                return Err(e);
            },
        };
        prev = Some((c.section, c.component));
        out.push(c);
        assert(class_views(out@) =~= old_views.push(c@));
        assert(classes_upto(all, (k + 1) as nat, tz) == Ok::<Seq<ClassView>, ParseError>(
            old_views.push(c@),
        ));
        k = k + 1;
    }
    Ok(out)
}

/// When the second class's section and component cells are blank, it has
/// the section and component of the first class.
pub proof fn lemma_blank_cells_inherit(cells: Seq<Seq<char>>, tz: chrono_tz::Tz)
    requires
        cells.len() >= 14,
        cells[8] == blank(),
        cells[9] == blank(),
        classes_of(cells, tz) is Ok,
    ensures
        classes_of(cells, tz)->Ok_0[1].section == classes_of(cells, tz)->Ok_0[0].section,
        classes_of(cells, tz)->Ok_0[1].component == classes_of(cells, tz)->Ok_0[0].component,
{
    let n = cells.len() / 7;
    assert(n >= 2);
    lemma_prefix_ok(cells, n, 2, tz);
    lemma_prefix_ok(cells, 2, 1, tz);
    let v1 = classes_upto(cells, 1, tz)->Ok_0;
    let v2 = classes_upto(cells, 2, tz)->Ok_0;
    let full = classes_upto(cells, n, tz)->Ok_0;
    assert(cells.subrange(7, 14)[1] == cells[8]);
    assert(cells.subrange(7, 14)[2] == cells[9]);
    let c = class_from_cells(cells.subrange(7, 14), inherited(v1), tz);
    assert(v2 == v1.push(c->Ok_0));
    assert(v2[0] == full[0]);
    assert(v2[1] == full[1]);
}

/// A build that fails on its first `m` groups fails the same way on more.
proof fn lemma_prefix_err(cells: Seq<Seq<char>>, m: nat, n: nat, tz: chrono_tz::Tz)
    requires
        m <= n,
        classes_upto(cells, m, tz) is Err,
    ensures
        classes_upto(cells, n, tz) == classes_upto(cells, m, tz),
    decreases n,
{
    if m < n {
        lemma_prefix_err(cells, m, (n - 1) as nat, tz);
    }
}

/// A successful build of `n` groups extends the build of its first `m` groups.
proof fn lemma_prefix_ok(cells: Seq<Seq<char>>, n: nat, m: nat, tz: chrono_tz::Tz)
    requires
        m <= n,
        classes_upto(cells, n, tz) is Ok,
    ensures
        classes_upto(cells, m, tz) is Ok,
        classes_upto(cells, m, tz)->Ok_0.len() == m,
        classes_upto(cells, n, tz)->Ok_0.len() == n,
        forall|i: int|
            0 <= i < m ==> #[trigger] classes_upto(cells, m, tz)->Ok_0[i] == classes_upto(
                cells,
                n,
                tz,
            )->Ok_0[i],
    decreases n,
{
    if n > 0 {
        if m < n {
            lemma_prefix_ok(cells, (n - 1) as nat, m, tz);
        } else {
            lemma_prefix_ok(cells, (n - 1) as nat, (n - 1) as nat, tz);
        }
        let prev = classes_upto(cells, (n - 1) as nat, tz)->Ok_0;
        let cur = classes_upto(cells, n, tz)->Ok_0;
        assert(cur == prev.push(cur.last()));
    }
}

} // verus!

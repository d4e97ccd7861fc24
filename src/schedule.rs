//! Schedule values: enrollment status, sections, components, meeting times,
//! and the anchoring of a weekly meeting time onto a term's calendar.
use vstd::prelude::*;
use vstd::string::*;
use crate::text::{
    all_digits, digit_value, digits_value, find, find_char, find_str, first_char,
    is_digit, lemma_find_at, lemma_find_none, lemma_first_char_at, occurs_at, parse_u8, str_eq,
    string_of_chars, u8_of,
};

verus! {

/// chrono-tz's `Tz`, a named time zone of the tz database. The library only
/// carries it along with the date-times it qualifies.
#[verifier::external_type_specification]
#[verifier::external_body]
pub struct ExTz(chrono_tz::Tz);

/// Whether the student is enrolled in a course or on its waiting list.
#[derive(Debug, Clone, Copy, PartialEq, Eq, Structural)]
pub enum Status {
    Enrolled,
    Waiting,
}

impl Status {
    pub open spec fn spec_from(s: Seq<char>) -> Option<Status> {
        if s == "Enrolled"@ {
            Some(Status::Enrolled)
        } else if s == "Waiting"@ {
            Some(Status::Waiting)
        } else {
            None
        }
    }

    /// Reads `Enrolled` or `Waiting`; any other text is an error.
    pub fn from_str(s: &str) -> (r: Result<Status, ()>)
        ensures
            r matches Ok(st) ==> Status::spec_from(s@) == Some(st),
            r is Err ==> Status::spec_from(s@) is None,
    {
        if str_eq(s, "Enrolled") {
            Ok(Status::Enrolled)
        } else if str_eq(s, "Waiting") {
            Ok(Status::Waiting)
        } else {
            Err(())
        }
    }
}


/// A section identifier: a letter and a number below one hundred, shown as
/// `A00`.
#[derive(Debug, Clone, Copy, PartialEq, Eq, Structural)]
pub struct Section(pub char, pub u8);

/// The decimal digit character for `d < 10`.
pub open spec fn digit_char(d: int) -> char {
    (('0' as int) + d) as char
}

/// A number written in decimal with at least two digits.
pub open spec fn two_digit_text(n: u8) -> Seq<char> {
    if n < 100 {
        seq![digit_char(n as int / 10), digit_char(n as int % 10)]
    } else {
        seq![digit_char(n as int / 100), digit_char((n as int / 10) % 10), digit_char(n as int % 10)]
    }
}

fn digit_of(d: u8) -> (c: char)
    requires
        d < 10,
    ensures
        c == digit_char(d as int),
{
    ((('0' as u8) + d) as char)
}

impl Section {
    pub open spec fn spec_from(s: Seq<char>) -> Option<Section> {
        if s.len() == 0 {
            None
        } else {
            match u8_of(s.drop_first()) {
                Some(n) => if n < 100 {
                    Some(Section(s[0], n))
                } else {
                    None
                },
                None => None,
            }
        }
    }

    /// Reads a letter followed by a decimal number below one hundred.
    pub fn from_str(s: &str) -> (r: Result<Section, ()>)
        ensures
            r matches Ok(sec) ==> Section::spec_from(s@) == Some(sec),
            r is Err ==> Section::spec_from(s@) is None,
    {
        let n = s.unicode_len();
        if n == 0 {
            return Err(());
        }
        let letter = s.get_char(0);
        let rest = s.substring_char(1, n);
        assert(rest@ =~= s@.drop_first());
        match parse_u8(rest) {
            Some(number) => if number < 100 {
                Ok(Section(letter, number))
            } else {
                Err(())
            },
            None => Err(()),
        }
    }

    pub open spec fn spec_text(self) -> Seq<char> {
        seq![self.0] + two_digit_text(self.1)
    }

    /// The letter followed by the number in at least two digits.
    pub fn to_string(&self) -> (r: String)
        ensures
            r@ == self.spec_text(),
    {
        let n = self.1;
        let mut cs: Vec<char> = Vec::new();
        cs.push(self.0);
        if n >= 100 {
            cs.push(digit_of(n / 100));
        }
        cs.push(digit_of((n / 10) % 10));
        cs.push(digit_of(n % 10));
        assert(cs@ =~= self.spec_text());
        string_of_chars(&cs)
    }
}

/// The kind of a class meeting.
#[derive(Debug, Clone, Copy, PartialEq, Eq, Structural)]
pub enum Component {
    Laboratory,
    Lecture,
    Tutorial,
}

impl Component {
    pub open spec fn spec_from(s: Seq<char>) -> Option<Component> {
        if s == "Laboratory"@ {
            Some(Component::Laboratory)
        } else if s == "Lecture"@ {
            Some(Component::Lecture)
        } else if s == "Tutorial"@ {
            Some(Component::Tutorial)
        } else {
            None
        }
    }

    /// Reads `Laboratory`, `Lecture` or `Tutorial`; any other text is an error.
    pub fn from_str(s: &str) -> (r: Result<Component, ()>)
        ensures
            r matches Ok(c) ==> Component::spec_from(s@) == Some(c),
            r is Err ==> Component::spec_from(s@) is None,
    {
        if str_eq(s, "Laboratory") {
            Ok(Component::Laboratory)
        } else if str_eq(s, "Lecture") {
            Ok(Component::Lecture)
        } else if str_eq(s, "Tutorial") {
            Ok(Component::Tutorial)
        } else {
            Err(())
        }
    }

    pub open spec fn spec_text(self) -> Seq<char> {
        match self {
            Component::Laboratory => "LAB"@,
            Component::Lecture => "LEC"@,
            Component::Tutorial => "TUT"@,
        }
    }

    /// The short label: `LAB`, `LEC` or `TUT`.
    pub fn to_string(&self) -> (r: String)
        ensures
            r@ == self.spec_text(),
    {
        match self {
            Component::Laboratory => String::from_str("LAB"),
            Component::Lecture => String::from_str("LEC"),
            Component::Tutorial => String::from_str("TUT"),
        }
    }
}


/// The clock hour after applying a 12-hour marker: `P` adds twelve to hours
/// other than 12, and `A` turns 12 into 0. An hour that would pass 255 is
/// rejected.
pub open spec fn twelve_hour(h: u8, marker: char) -> Option<u8> {
    if marker == 'P' && h != 12 {
        if h <= 243 {
            Some((h + 12) as u8)
        } else {
            None
        }
    } else if marker == 'A' && h == 12 {
        Some(0)
    } else {
        Some(h)
    }
}

/// The (hour, minute) written as `H:MM` followed by an optional `AM`/`PM`
/// marker: the hour is what stands before the first `:`, the minute what
/// stands after it up to the first `A` or `P`.
pub open spec fn clock_of(s: Seq<char>) -> Option<(u8, u8)> {
    let c = first_char(s, ':', ':');
    let rest = if c < s.len() { s.skip(c + 1) } else { Seq::<char>::empty() };
    let m = first_char(rest, 'A', 'P');
    let marker = if m < rest.len() { rest[m] } else { ' ' };
    match (u8_of(s.take(c)), u8_of(rest.take(m))) {
        (Some(h), Some(mi)) => match twelve_hour(h, marker) {
            Some(h2) => Some((h2, mi)),
            None => None,
        },
        _ => None,
    }
}

/// Reads a 12-hour clock time such as `1:30PM` into a 24-hour (hour, minute).
pub fn parse_time(s: &str) -> (r: Result<(u8, u8), ()>)
    ensures
        r matches Ok(p) ==> clock_of(s@) == Some(p),
        r is Err ==> clock_of(s@) is None,
{
    let n = s.unicode_len();
    let c = find_char(s, ':', ':');
    let hour_text = s.substring_char(0, c);
    let rest = if c < n {
        s.substring_char(c + 1, n)
    } else {
        s.substring_char(n, n)
    };
    let ghost grest = if c < s@.len() { s@.skip(c + 1) } else { Seq::<char>::empty() };
    assert(rest@ =~= grest);
    let rn = rest.unicode_len();
    let m = find_char(rest, 'A', 'P');
    let marker = if m < rn {
        rest.get_char(m)
    } else {
        ' '
    };
    let minute_text = rest.substring_char(0, m);
    let hour = match parse_u8(hour_text) {
        Some(h) => h,
        None => return Err(()),
    };
    let minute = match parse_u8(minute_text) {
        Some(mi) => mi,
        None => return Err(()),
    };
    let hour = if marker == 'P' && hour != 12 {
        if hour <= 243 {
            hour + 12
        } else {
            return Err(());
        }
    } else if marker == 'A' && hour == 12 {
        0
    } else {
        hour
    };
    Ok((hour, minute))
}

/// The weekday index (Monday is 0) of a two-letter abbreviation.
pub open spec fn weekday_index(d: Seq<char>) -> Option<u8> {
    if d == "Mo"@ {
        Some(0)
    } else if d == "Tu"@ {
        Some(1)
    } else if d == "We"@ {
        Some(2)
    } else if d == "Th"@ {
        Some(3)
    } else if d == "Fr"@ {
        Some(4)
    } else {
        None
    }
}

fn weekday_from(d: &str) -> (r: Option<u8>)
    ensures
        r == weekday_index(d@),
{
    if str_eq(d, "Mo") {
        Some(0)
    } else if str_eq(d, "Tu") {
        Some(1)
    } else if str_eq(d, "We") {
        Some(2)
    } else if str_eq(d, "Th") {
        Some(3)
    } else if str_eq(d, "Fr") {
        Some(4)
    } else {
        None
    }
}

/// A weekly meeting time, not yet placed on a calendar: a weekday (Monday
/// is 0) and 24-hour start and end clock times.
#[derive(Debug, Clone, Copy)]
pub struct DateTimeRangeRaw {
    pub start: (u8, u8),
    pub end: (u8, u8),
    pub weekday: u8,
}

impl DateTimeRangeRaw {
    /// What `<WD> <time> - <time>` denotes: the weekday is the text before
    /// the first space, the start time what follows up to the first ` - `,
    /// the end time what follows that up to the next ` - ` or the end.
    pub open spec fn spec_from(s: Seq<char>) -> Option<DateTimeRangeRaw> {
        let sp = first_char(s, ' ', ' ');
        match weekday_index(s.take(sp)) {
            None => None,
            Some(w) => if sp >= s.len() {
                None
            } else {
                let rest = s.skip(sp + 1);
                match find(rest, " - "@) {
                    None => None,
                    Some(i) => {
                        let after = rest.skip(i + " - "@.len());
                        let end = match find(after, " - "@) {
                            Some(j) => after.take(j),
                            None => after,
                        };
                        match (clock_of(rest.take(i)), clock_of(end)) {
                            (Some(a), Some(b)) => Some(DateTimeRangeRaw { start: a, end: b, weekday: w }),
                            _ => None,
                        }
                    },
                }
            },
        }
    }

    /// Reads a meeting time such as `We 8:30AM - 9:50AM`.
    pub fn from_str(s: &str) -> (r: Result<DateTimeRangeRaw, ()>)
        ensures
            r matches Ok(t) ==> DateTimeRangeRaw::spec_from(s@) == Some(t),
            r is Err ==> DateTimeRangeRaw::spec_from(s@) is None,
    {
        let n = s.unicode_len();
        let sp = find_char(s, ' ', ' ');
        let day = s.substring_char(0, sp);
        let weekday = match weekday_from(day) {
            Some(w) => w,
            None => return Err(()),
        };
        if sp >= n {
            return Err(());
        }
        let rest = s.substring_char(sp + 1, n);
        assert(rest@ =~= s@.skip(sp + 1));
        let rn = rest.unicode_len();
        let sep = " - ";
        let i = match find_str(rest, sep) {
            Some(i) => i,
            None => return Err(()),
        };
        let start_text = rest.substring_char(0, i);
        let after = rest.substring_char(i + sep.unicode_len(), rn);
        assert(after@ =~= rest@.skip(i + sep@.len()));
        let an = after.unicode_len();
        let end_text = match find_str(after, sep) {
            Some(j) => after.substring_char(0, j),
            None => after,
        };
        assert(after@.take(an as int) =~= after@);
        let start = match parse_time(start_text) {
            Ok(t) => t,
            Err(()) => return Err(()),
        };
        let end = match parse_time(end_text) {
            Ok(t) => t,
            Err(()) => return Err(()),
        };
        Ok(DateTimeRangeRaw { start, end, weekday })
    }

    /// Whether both clock times name a time of day.
    pub open spec fn clock_valid(self) -> bool {
        self.start.0 < 24 && self.start.1 < 60 && self.end.0 < 24 && self.end.1 < 60
    }
}


/// A wall-clock date and time in a named time zone. The date is a day
/// number: 1 is January 1 of year 1 of the proleptic Gregorian calendar,
/// a Monday.
#[derive(Debug, Clone, Copy)]
pub struct DateTime {
    pub day: i64,
    pub hour: u8,
    pub minute: u8,
    pub second: u8,
    pub nanosecond: u32,
    pub tz: chrono_tz::Tz,
}

/// The weekday of a day number, Monday being 0.
pub open spec fn weekday_of(day: int) -> int {
    (day - 1) % 7
}

/// Days from a date on weekday `current` to the first date on or after it
/// that falls on weekday `target`.
pub open spec fn days_ahead(current: int, target: int) -> int {
    if current > target {
        7 - current + target
    } else {
        target - current
    }
}

impl DateTime {
    /// Whether the clock fields name a time of day.
    pub open spec fn is_valid(self) -> bool {
        self.hour < 24 && self.minute < 60 && self.second < 60 && self.nanosecond < 1_000_000_000
    }

    /// Midnight at the start of day `day` in zone `tz`.
    pub open spec fn spec_midnight(day: i64, tz: chrono_tz::Tz) -> DateTime {
        DateTime { day, hour: 0, minute: 0, second: 0, nanosecond: 0, tz }
    }

    /// Midnight at the start of day `day` in zone `tz`.
    pub fn midnight(day: i64, tz: chrono_tz::Tz) -> (r: DateTime)
        ensures
            r == DateTime::spec_midnight(day, tz),
            r.is_valid(),
    {
        DateTime { day, hour: 0, minute: 0, second: 0, nanosecond: 0, tz }
    }

    /// The weekday of this date, Monday being 0.
    pub fn weekday(&self) -> (r: u8)
        requires
            self.day > i64::MIN,
        ensures
            r as int == weekday_of(self.day as int),
            r < 7,
    {
        let m = (self.day - 1) % 7;
        let w = if m < 0 {
            m + 7
        } else {
            m
        };
        assert(w as int == weekday_of(self.day as int));
        w as u8
    }
}

/// A start and an end date-time.
#[derive(Debug, Clone, Copy)]
pub struct DateTimeRange {
    pub start: DateTime,
    pub end: DateTime,
}

/// `first_day` moved forward by `days` days and set to `hour:minute:00`.
pub open spec fn at_clock(first_day: DateTime, days: int, clock: (u8, u8)) -> DateTime {
    DateTime {
        day: (first_day.day + days) as i64,
        hour: clock.0,
        minute: clock.1,
        second: 0,
        nanosecond: 0,
        tz: first_day.tz,
    }
}

/// The first occurrence of the meeting `raw` on or after the date of
/// `first_day`, in the zone of `first_day`.
pub open spec fn anchored(raw: DateTimeRangeRaw, first_day: DateTime) -> DateTimeRange {
    let k = days_ahead(weekday_of(first_day.day as int), raw.weekday as int);
    DateTimeRange { start: at_clock(first_day, k, raw.start), end: at_clock(first_day, k, raw.end) }
}

impl DateTimeRangeRaw {
    /// Places the meeting on the first date, on or after the date of
    /// `first_day`, that falls on its weekday.
    pub fn into_datetime_range(self, first_day: DateTime) -> (r: DateTimeRange)
        requires
            self.clock_valid(),
            i64::MIN < first_day.day < i64::MAX - 300,
        ensures
            r == anchored(self, first_day),
            0 <= r.start.day - first_day.day < 7 || self.weekday >= 7,
            self.weekday < 7 ==> weekday_of(r.start.day as int) == self.weekday as int,
            r.start.day == r.end.day,
            r.start.is_valid() && r.end.is_valid(),
    {
        let current = first_day.weekday();
        let days_to_add: i64 = if current > self.weekday {
            7 - (current as i64) + (self.weekday as i64)
        } else {
            (self.weekday as i64) - (current as i64)
        };
        let day = first_day.day + days_to_add;
        let start = DateTime {
            day,
            hour: self.start.0,
            minute: self.start.1,
            second: 0,
            nanosecond: 0,
            tz: first_day.tz,
        };
        let end = DateTime {
            day,
            hour: self.end.0,
            minute: self.end.1,
            second: 0,
            nanosecond: 0,
            tz: first_day.tz,
        };
        DateTimeRange { start, end }
    }
}


/// Anchoring to a date that already falls on the meeting's weekday keeps
/// that date, and anchoring to the day after the meeting's weekday moves
/// six days ahead, wrapping into the next week.
pub proof fn lemma_anchor_on_and_after_weekday(raw: DateTimeRangeRaw, first_day: DateTime)
    requires
        raw.weekday < 7,
        first_day.day < i64::MAX - 7,
    ensures
        weekday_of(first_day.day as int) == raw.weekday as int ==> anchored(raw, first_day).start.day
            == first_day.day,
        weekday_of(first_day.day as int) == (raw.weekday + 1) % 7 ==> anchored(raw, first_day).start.day
            == first_day.day + 6,
{
}


/// The two-letter abbreviation of weekday `w` (Monday is 0, up to Friday).
pub open spec fn weekday_text(w: u8) -> Seq<char> {
    if w == 0 {
        "Mo"@
    } else if w == 1 {
        "Tu"@
    } else if w == 2 {
        "We"@
    } else if w == 3 {
        "Th"@
    } else {
        "Fr"@
    }
}

/// An hour of a 12-hour clock in decimal, without a leading zero.
pub open spec fn hour_text(h: u8) -> Seq<char> {
    if h < 10 {
        seq![digit_char(h as int)]
    } else {
        seq![digit_char(h as int / 10), digit_char(h as int % 10)]
    }
}

/// A 12-hour clock time `H:MMAM` or `H:MMPM`, the marker being `A` or `P`.
pub open spec fn time_text(h: u8, m: u8, marker: char) -> Seq<char> {
    hour_text(h) + seq![':'] + two_digit_text(m) + seq![marker, 'M']
}

/// A meeting time `WD H:MMxM - H:MMxM`.
pub open spec fn range_text(
    w: u8,
    start: (u8, u8, char),
    end: (u8, u8, char),
) -> Seq<char> {
    weekday_text(w) + seq![' '] + time_text(start.0, start.1, start.2) + " - "@ + time_text(
        end.0,
        end.1,
        end.2,
    )
}

/// The 24-hour clock hour of hour `h` (1 to 12) of a 12-hour clock.
pub open spec fn clock24(h: u8, marker: char) -> u8 {
    if marker == 'P' {
        if h == 12 {
            12
        } else {
            (h + 12) as u8
        }
    } else if h == 12 {
        0
    } else {
        h
    }
}

pub open spec fn valid_clock12(t: (u8, u8, char)) -> bool {
    1 <= t.0 <= 12 && t.1 < 60 && (t.2 == 'A' || t.2 == 'P')
}

proof fn lemma_digit_char(d: int)
    requires
        0 <= d < 10,
    ensures
        is_digit(digit_char(d)),
        digit_char(d) != ':' && digit_char(d) != ' ' && digit_char(d) != 'A' && digit_char(d) != 'P'
            && digit_char(d) != '+',
        (digit_char(d) as int) - ('0' as int) == d,
{
}

proof fn lemma_two_digits(a: int, b: int)
    requires
        0 <= a < 10,
        0 <= b < 10,
    ensures
        all_digits(seq![digit_char(a), digit_char(b)]),
        digits_value(seq![digit_char(a), digit_char(b)]) == a * 10 + b,
{
    lemma_digit_char(a);
    lemma_digit_char(b);
    let s = seq![digit_char(a), digit_char(b)];
    let s1 = seq![digit_char(a)];
    assert(s.drop_last() =~= s1);
    assert(s1.drop_last() =~= Seq::<char>::empty());
    assert(digits_value(Seq::<char>::empty()) == 0);
    assert(digits_value(s1) == digits_value(s1.drop_last()) * 10 + digit_value(s1.last()));
    assert(digits_value(s) == digits_value(s.drop_last()) * 10 + digit_value(s.last()));
}

proof fn lemma_one_digit(a: int)
    requires
        0 <= a < 10,
    ensures
        all_digits(seq![digit_char(a)]),
        digits_value(seq![digit_char(a)]) == a,
{
    lemma_digit_char(a);
    let s1 = seq![digit_char(a)];
    assert(s1.drop_last() =~= Seq::<char>::empty());
    assert(digits_value(Seq::<char>::empty()) == 0);
    assert(digits_value(s1) == digits_value(s1.drop_last()) * 10 + digit_value(s1.last()));
}

/// Reading a rendered 12-hour time gives its 24-hour clock time.
proof fn lemma_clock_of_time_text(t: (u8, u8, char))
    requires
        valid_clock12(t),
    ensures
        clock_of(time_text(t.0, t.1, t.2)) == Some((clock24(t.0, t.2), t.1)),
        forall|j: int| 0 <= j < time_text(t.0, t.1, t.2).len() ==> #[trigger] time_text(t.0, t.1, t.2)[j] != ' ',
{
    let (h, m, marker) = t;
    let ht = hour_text(h);
    let mt = two_digit_text(m);
    let s = time_text(h, m, marker);
    if h < 10 {
        lemma_one_digit(h as int);
    } else {
        lemma_two_digits(h as int / 10, h as int % 10);
        lemma_digit_char(h as int / 10);
        lemma_digit_char(h as int % 10);
    }
    lemma_two_digits(m as int / 10, m as int % 10);
    lemma_digit_char(m as int / 10);
    lemma_digit_char(m as int % 10);
    assert(digits_value(ht) == h);
    assert(digits_value(mt) == m);
    let c = ht.len() as int;
    assert(s[c] == ':');
    lemma_first_char_at(s, ':', ':', 0, c);
    assert(s.take(c) =~= ht);
    let rest = s.skip(c + 1);
    assert(rest =~= mt + seq![marker, 'M']);
    lemma_first_char_at(rest, 'A', 'P', 0, 2);
    assert(rest.take(2) =~= mt);
    assert(u8_of(ht) == Some(h));
    assert(u8_of(mt) == Some(m));
    assert forall|j: int| 0 <= j < s.len() implies #[trigger] s[j] != ' ' by {
        if j < c {
            assert(s[j] == ht[j]);
        } else if j == c {
        } else if j < c + 3 {
            assert(s[j] == mt[j - c - 1]);
        } else {
        }
    }
}

/// Reading a rendered meeting time `WD H:MMxM - H:MMxM` gives back its
/// weekday and its start and end as 24-hour clock times.
pub proof fn lemma_time_range_text(w: u8, start: (u8, u8, char), end: (u8, u8, char))
    requires
        w < 5,
        valid_clock12(start),
        valid_clock12(end),
    ensures
        DateTimeRangeRaw::spec_from(range_text(w, start, end)) == Some(
            DateTimeRangeRaw {
                start: (clock24(start.0, start.2), start.1),
                end: (clock24(end.0, end.2), end.1),
                weekday: w,
            },
        ),
{
    reveal_strlit(" - ");
    reveal_strlit("Mo");
    reveal_strlit("Tu");
    reveal_strlit("We");
    reveal_strlit("Th");
    reveal_strlit("Fr");
    let sep = " - "@;
    let t1 = time_text(start.0, start.1, start.2);
    let t2 = time_text(end.0, end.1, end.2);
    lemma_clock_of_time_text(start);
    lemma_clock_of_time_text(end);
    let wt = weekday_text(w);
    let s = range_text(w, start, end);
    assert(wt.len() == 2);
    assert(wt[0] != ' ' && wt[1] != ' ');
    assert(s[2] == ' ');
    lemma_first_char_at(s, ' ', ' ', 0, 2);
    assert(s.take(2) =~= wt);
    assert(weekday_index(wt) == Some(w));
    let rest = s.skip(3);
    assert(rest =~= t1 + sep + t2);
    let k = t1.len() as int;
    assert(rest.subrange(k, k + 3) =~= sep);
    assert forall|j: int| 0 <= j < k implies !occurs_at(rest, sep, j) by {
        assert(rest[j] == t1[j]);
        if occurs_at(rest, sep, j) {
            assert(rest.subrange(j, j + 3)[0] == rest[j]);
        }
    }
    lemma_find_at(rest, sep, 0, k);
    let after = rest.skip(k + 3);
    assert(after =~= t2);
    lemma_find_none(after, sep, 0);
    assert(rest.take(k) =~= t1);
}

} // verus!

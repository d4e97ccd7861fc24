use uo2ics::course::{Course, ParseError};
use uo2ics::document::{HtmlNode, HtmlTree};
use uo2ics::events::calendar_events;
use uo2ics::extract::{parse_document, row_cells};
use uo2ics::schedule::{Component, Section, Status};

const TZ: chrono_tz::Tz = chrono_tz::America::Toronto;

struct Builder {
    nodes: Vec<HtmlNode>,
}

impl Builder {
    fn new() -> Self {
        Builder { nodes: Vec::new() }
    }

    fn element(&mut self, parent: Option<usize>, name: &str, classes: &[&str]) -> usize {
        self.nodes.push(HtmlNode {
            parent,
            name: name.to_string(),
            classes: classes.iter().map(|c| c.to_string()).collect(),
            text: String::new(),
        });
        self.nodes.len() - 1
    }

    fn text(&mut self, parent: usize, text: &str) -> usize {
        self.nodes.push(HtmlNode {
            parent: Some(parent),
            name: String::new(),
            classes: Vec::new(),
            text: text.to_string(),
        });
        self.nodes.len() - 1
    }

    fn span_cell(&mut self, row: usize, value: &str) {
        let td = self.element(Some(row), "td", &[]);
        let span = self.element(Some(td), "span", &[]);
        self.text(span, value);
    }

    fn course(&mut self, root: Option<usize>, title: &str, status: &str, rows: &[[&str; 7]]) {
        let block = self.element(root, "div", &[]);
        let heading = self.element(Some(block), "div", &[]);
        let divider = self.element(Some(heading), "span", &["PSGROUP", "PAGROUPDIVIDER"]);
        self.text(divider, title);
        let head = self.element(Some(block), "table", &["PSLEVEL3GRID"]);
        self.span_cell(head, status);
        let data = self.element(Some(block), "table", &["PSLEVEL3GRID"]);
        for row in rows {
            let tr = self.element(Some(data), "tr", &[]);
            for cell in row {
                self.span_cell(tr, cell);
            }
        }
    }

    fn tree(&self) -> HtmlTree {
        HtmlTree { nodes: self.nodes.clone() }
    }
}

const CLASS: [&str; 7] = [
    "",
    "A00",
    "Lecture",
    "Mo 10:00AM - 11:20AM",
    "STE 1234 (Theatre)",
    "Dr. Smith",
    "09/04/2024 - 12/20/2024",
];

fn one_course(status: &str) -> Vec<Course> {
    let mut b = Builder::new();
    let body = b.element(None, "body", &[]);
    b.course(Some(body), "CSI 2110 - Data Structures", status, &[CLASS]);
    parse_document(&b.tree(), TZ).unwrap()
}

#[test]
fn end_to_end_one_course_one_class() {
    let courses = one_course("Enrolled");
    assert_eq!(courses.len(), 1);
    let c = &courses[0];
    assert_eq!(c.code, "CSI 2110");
    assert_eq!(c.name, "Data Structures");
    assert_eq!(c.status, Status::Enrolled);
    assert_eq!(c.classes.len(), 1);
    let class = &c.classes[0];
    assert_eq!(class.section, Section('A', 0));
    assert_eq!(class.component, Component::Lecture);
    assert_eq!(class.time.start.weekday(), 0);
    assert_eq!((class.time.start.hour, class.time.start.minute), (10, 0));
    assert_eq!(class.address, "STE 1234");
    assert_eq!(class.location, "Theatre");
    assert_eq!(class.instructor, "Dr. Smith");
}

#[test]
fn cell_without_span_reads_as_blank() {
    let mut b = Builder::new();
    let row = b.element(None, "tr", &[]);
    b.element(Some(row), "td", &[]);
    b.span_cell(row, "x");
    let tree = b.tree();
    assert_eq!(row_cells(&tree, row), vec!["\u{a0}".to_string(), "x".to_string()]);
}

#[test]
fn two_courses_in_document_order() {
    let mut b = Builder::new();
    let body = b.element(None, "body", &[]);
    b.course(Some(body), "CSI 2110 - Data Structures", "Enrolled", &[CLASS]);
    b.course(Some(body), "MAT 1341 - Linear Algebra", "Waiting", &[CLASS, CLASS]);
    let courses = parse_document(&b.tree(), TZ).unwrap();
    assert_eq!(courses.len(), 2);
    assert_eq!(courses[1].code, "MAT 1341");
    assert_eq!(courses[1].status, Status::Waiting);
    assert_eq!(courses[1].classes.len(), 2);
}

#[test]
fn bad_status_is_an_error() {
    let mut b = Builder::new();
    let body = b.element(None, "body", &[]);
    b.course(Some(body), "CSI 2110 - Data Structures", "Dropped", &[CLASS]);
    assert_eq!(parse_document(&b.tree(), TZ).unwrap_err(), ParseError::Status);
}

#[test]
fn title_without_separator_is_an_error() {
    let mut b = Builder::new();
    let body = b.element(None, "body", &[]);
    b.course(Some(body), "CSI 2110", "Enrolled", &[CLASS]);
    assert_eq!(parse_document(&b.tree(), TZ).unwrap_err(), ParseError::Title);
}

#[test]
fn divider_without_grandparent_is_an_error() {
    let mut b = Builder::new();
    let divider = b.element(None, "span", &["PAGROUPDIVIDER"]);
    b.text(divider, "CSI 2110 - Data Structures");
    assert_eq!(parse_document(&b.tree(), TZ).unwrap_err(), ParseError::MissingContainer);
}

#[test]
fn block_without_rows_is_an_error() {
    let mut b = Builder::new();
    let block = b.element(None, "div", &[]);
    let heading = b.element(Some(block), "div", &[]);
    let divider = b.element(Some(heading), "span", &["PAGROUPDIVIDER"]);
    b.text(divider, "CSI 2110 - Data Structures");
    assert_eq!(parse_document(&b.tree(), TZ).unwrap_err(), ParseError::MissingRow);
    let head = b.element(Some(block), "table", &["PSLEVEL3GRID"]);
    assert_eq!(parse_document(&b.tree(), TZ).unwrap_err(), ParseError::MissingStatus);
    b.span_cell(head, "Enrolled");
    assert_eq!(parse_document(&b.tree(), TZ).unwrap_err(), ParseError::MissingRow);
}

#[test]
fn empty_document_has_no_courses() {
    assert_eq!(parse_document(&HtmlTree { nodes: Vec::new() }, TZ).unwrap().len(), 0);
}

#[test]
fn waiting_course_gives_no_events() {
    let courses = one_course("Waiting");
    assert_eq!(courses[0].classes.len(), 1);
    assert_eq!(calendar_events(&courses).len(), 0);
}

#[test]
fn enrolled_course_gives_one_event_per_class() {
    let courses = one_course("Enrolled");
    let events = calendar_events(&courses);
    assert_eq!(events.len(), 1);
    assert_eq!(events[0].summary, "Theatre (LEC) CSI 2110");
    assert_eq!(events[0].location, "STE 1234, Ottawa, ON, Canada");
    assert_eq!(
        events[0].description,
        "Name: Data Structures | Section: A00 | Instructor: Dr. Smith"
    );
    assert_eq!(events[0].start.day, courses[0].classes[0].time.start.day);
    assert_eq!(events[0].until.day, courses[0].classes[0].end.day);
}

//! Reading the courses of a schedule export out of its HTML document.
use vstd::prelude::*;
use vstd::string::*;
use crate::course::{
    blank, build_classes, classes_of, texts, Course, CourseView, ParseError,
};
use crate::document::{find_all_spec, parent_of, text_spec, HtmlNodeView, HtmlTree};
use crate::schedule::Status;
use crate::text::{split_pair, split_two};

verus! {

/// The class marking the title of a course block.
pub const GROUP_DIVIDER: &'static str = "PAGROUPDIVIDER";

/// The class marking a row of a course's grid.
pub const GRID_ROW: &'static str = "PSLEVEL3GRID";

/// The displayed value of a table cell: the text of its first `span`, or
/// the blank cell when it has none.
pub open spec fn cell_text_spec(t: Seq<HtmlNodeView>, td: usize) -> Seq<char> {
    let spans = find_all_spec(t, Some(td), false, "span"@);
    if spans.len() > 0 {
        text_spec(t, spans[0] as int)
    } else {
        blank()
    }
}

/// The displayed values of the `td` cells under `row`, in document order.
pub open spec fn row_cells_spec(t: Seq<HtmlNodeView>, row: usize) -> Seq<Seq<char>> {
    find_all_spec(t, Some(row), false, "td"@).map_values(|td: usize| cell_text_spec(t, td))
}

/// The course whose block is titled by the group divider `marker`: its grid
/// rows are found under the divider's grandparent; the first cell of the
/// first row is the status, the cells of the second row describe the
/// classes, and the divider's text is `CODE - NAME`.
pub open spec fn course_at(t: Seq<HtmlNodeView>, marker: usize, tz: chrono_tz::Tz) -> Result<
    CourseView,
    ParseError,
> {
    let container = match parent_of(t, marker as int) {
        Some(p) => parent_of(t, p),
        None => None,
    };
    match container {
        None => Err(ParseError::MissingContainer),
        Some(c) => {
            let rows = find_all_spec(t, Some(c as usize), true, GRID_ROW@);
            if rows.len() == 0 {
                Err(ParseError::MissingRow)
            } else {
                let head = row_cells_spec(t, rows[0]);
                if head.len() == 0 {
                    Err(ParseError::MissingStatus)
                } else {
                    match Status::spec_from(head[0]) {
                        None => Err(ParseError::Status),
                        Some(status) => match split_two(text_spec(t, marker as int), " - "@) {
                            None => Err(ParseError::Title),
                            Some(title) => if rows.len() < 2 {
                                Err(ParseError::MissingRow)
                            } else {
                                match classes_of(row_cells_spec(t, rows[1]), tz) {
                                    Err(e) => Err(e),
                                    Ok(classes) => Ok(
                                        CourseView { name: title.1, code: title.0, status, classes },
                                    ),
                                }
                            },
                        },
                    }
                }
            }
        },
    }
}

/// The courses of the first `n` group dividers `markers`, or the first
/// error.
pub open spec fn courses_upto(
    t: Seq<HtmlNodeView>,
    markers: Seq<usize>,
    n: nat,
    tz: chrono_tz::Tz,
) -> Result<Seq<CourseView>, ParseError>
    decreases n,
{
    if n == 0 {
        Ok(Seq::empty())
    } else {
        match courses_upto(t, markers, (n - 1) as nat, tz) {
            Err(e) => Err(e),
            Ok(v) => match course_at(t, markers[n - 1], tz) {
                Ok(c) => Ok(v.push(c)),
                Err(e) => Err(e),
            },
        }
    }
}

/// The courses of a document, one for each group divider, in document order.
pub open spec fn courses_of(t: Seq<HtmlNodeView>, tz: chrono_tz::Tz) -> Result<
    Seq<CourseView>,
    ParseError,
> {
    let markers = find_all_spec(t, None, true, GROUP_DIVIDER@);
    courses_upto(t, markers, markers.len(), tz)
}

pub open spec fn course_views(v: Seq<Course>) -> Seq<CourseView> {
    v.map_values(|c: Course| c@)
}

/// The displayed value of the table cell `td`.
pub fn cell_text(tree: &HtmlTree, td: usize) -> (r: String)
    ensures
        r@ == cell_text_spec(tree@, td),
{
    let spans = tree.find_all(Some(td), false, "span");
    if spans.len() > 0 {
        tree.text(spans[0])
    } else {
        let b = "\u{a0}";
        proof {
            reveal_strlit("\u{a0}");
            assert(b@ =~= blank());
        }
        String::from_str(b)
    }
}

/// The displayed values of the cells of `row`, in document order.
pub fn row_cells(tree: &HtmlTree, row: usize) -> (r: Vec<String>)
    ensures
        texts(r@) == row_cells_spec(tree@, row),
{
    let tds = tree.find_all(Some(row), false, "td");
    let mut out: Vec<String> = Vec::new();
    let mut k: usize = 0;
    while k < tds.len()
        invariant
            tds@ == find_all_spec(tree@, Some(row), false, "td"@),
            k <= tds@.len(),
            texts(out@) =~= tds@.take(k as int).map_values(|td: usize| cell_text_spec(tree@, td)),
        decreases tds@.len() - k,
    {
        let c = cell_text(tree, tds[k]);
        let ghost old_out = out@;
        out.push(c);
        assert(texts(out@) =~= texts(old_out).push(c@));
        assert(tds@.take(k + 1) =~= tds@.take(k as int).push(tds@[k as int]));
        k = k + 1;
    }
    assert(tds@.take(tds@.len() as int) =~= tds@);
    out
}

/// Reads the course whose block is titled by the group divider `marker`.
pub fn read_course(tree: &HtmlTree, marker: usize, tz: chrono_tz::Tz) -> (r: Result<
    Course,
    ParseError,
>)
    requires
        marker < tree@.len(),
    ensures
        r matches Ok(c) ==> course_at(tree@, marker, tz) == Ok::<CourseView, ParseError>(c@),
        r matches Err(e) ==> course_at(tree@, marker, tz) == Err::<CourseView, ParseError>(e),
{
    let container = match tree.parent(marker) {
        Some(p) => tree.parent(p),
        None => None,
    };
    let container = match container {
        Some(c) => c,
        None => return Err(ParseError::MissingContainer),
    };
    let rows = tree.find_all(Some(container), true, GRID_ROW);
    if rows.len() == 0 {
        return Err(ParseError::MissingRow);
    }
    let head = row_cells(tree, rows[0]);
    if head.len() == 0 {
        return Err(ParseError::MissingStatus);
    }
    assert(texts(head@)[0] == head@[0]@);
    let status = match Status::from_str(head[0].as_str()) {
        Ok(s) => s,
        Err(()) => return Err(ParseError::Status),
    };
    let title = tree.text(marker);
    let (code, name) = match split_pair(title.as_str(), " - ") {
        Some(p) => p,
        None => return Err(ParseError::Title),
    };
    if rows.len() < 2 {
        return Err(ParseError::MissingRow);
    }
    let cells = row_cells(tree, rows[1]);
    let classes = match build_classes(&cells, tz) {
        Ok(v) => v,
        Err(e) => return Err(e),
    };
    Ok(Course { name: name.to_string(), code: code.to_string(), status, classes })
}

/// Reads every course of a schedule export, in document order. Classes take
/// their dates in zone `tz`.
pub fn parse_document(tree: &HtmlTree, tz: chrono_tz::Tz) -> (r: Result<Vec<Course>, ParseError>)
    ensures
        r matches Ok(v) ==> courses_of(tree@, tz) == Ok::<Seq<CourseView>, ParseError>(
            course_views(v@),
        ),
        r matches Err(e) ==> courses_of(tree@, tz) == Err::<Seq<CourseView>, ParseError>(e),
{
    let markers = tree.find_all(None, true, GROUP_DIVIDER);
    let mut out: Vec<Course> = Vec::new();
    let mut k: usize = 0;
    assert(course_views(out@) =~= Seq::<CourseView>::empty());
    while k < markers.len()
        invariant
            markers@ == find_all_spec(tree@, None, true, GROUP_DIVIDER@),
            k <= markers@.len(),
            forall|i: int| 0 <= i < markers@.len() ==> #[trigger] markers@[i] < tree@.len(),
            courses_upto(tree@, markers@, k as nat, tz) == Ok::<Seq<CourseView>, ParseError>(
                course_views(out@),
            ),
        decreases markers@.len() - k,
    {
        let ghost old_views = course_views(out@);
        let c = match read_course(tree, markers[k], tz) {
            Ok(c) => c,
            Err(e) => {
                proof {
                    lemma_courses_err(tree@, markers@, (k + 1) as nat, markers@.len(), tz);
                }
                return Err(e);
            },
        };
        out.push(c);
        assert(course_views(out@) =~= old_views.push(c@));
        k = k + 1;
    }
    Ok(out)
}

proof fn lemma_courses_err(
    t: Seq<HtmlNodeView>,
    markers: Seq<usize>,
    m: nat,
    n: nat,
    tz: chrono_tz::Tz,
)
    requires
        m <= n,
        courses_upto(t, markers, m, tz) is Err,
    ensures
        courses_upto(t, markers, n, tz) == courses_upto(t, markers, m, tz),
    decreases n,
{
    if m < n {
        lemma_courses_err(t, markers, m, (n - 1) as nat, tz);
    }
}

} // verus!

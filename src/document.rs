//! A parsed HTML document as a flat list of nodes in document order, and the
//! queries the schedule reader makes on it.
use vstd::prelude::*;
use vstd::string::*;
use crate::text::str_eq;

verus! {

/// A node of an HTML document: an element, with its tag name and class
/// names, or a text node, with its text.
#[derive(Debug, Clone)]
pub struct HtmlNode {
    /// The index of the parent node. A parent stands before its children;
    /// a link to a later node is treated as no link.
    pub parent: Option<usize>,
    /// The tag name of an element; empty for other nodes.
    pub name: String,
    /// The names in an element's `class` attribute.
    pub classes: Vec<String>,
    /// The text of a text node; empty for other nodes.
    pub text: String,
}

pub struct HtmlNodeView {
    pub parent: Option<usize>,
    pub name: Seq<char>,
    pub classes: Seq<Seq<char>>,
    pub text: Seq<char>,
}

impl View for HtmlNode {
    type V = HtmlNodeView;

    open spec fn view(&self) -> HtmlNodeView {
        HtmlNodeView {
            parent: self.parent,
            name: self.name@,
            classes: self.classes@.map_values(|c: String| c@),
            text: self.text@,
        }
    }
}

/// The nodes of a document, in document order (each node before its
/// descendants, siblings in order).
pub struct HtmlTree {
    pub nodes: Vec<HtmlNode>,
}

impl View for HtmlTree {
    type V = Seq<HtmlNodeView>;

    open spec fn view(&self) -> Seq<HtmlNodeView> {
        self.nodes@.map_values(|n: HtmlNode| n@)
    }
}

/// The parent of node `j`, when it links to an earlier node.
pub open spec fn parent_of(t: Seq<HtmlNodeView>, j: int) -> Option<int> {
    match t[j].parent {
        Some(p) => if p < j {
            Some(p as int)
        } else {
            None
        },
        None => None,
    }
}

/// Whether node `j` is `root` or one of its descendants.
pub open spec fn within(t: Seq<HtmlNodeView>, j: int, root: int) -> bool
    decreases j,
{
    if j == root {
        true
    } else if j < 0 || j >= t.len() {
        false
    } else {
        match parent_of(t, j) {
            Some(p) => 0 <= p && within(t, p, root),
            None => false,
        }
    }
}

/// What to look for: an element with a given class name, or with a given
/// tag name.
pub open spec fn node_matches(n: HtmlNodeView, by_class: bool, word: Seq<char>) -> bool {
    if by_class {
        exists|i: int| 0 <= i < n.classes.len() && n.classes[i] == word
    } else {
        n.name == word
    }
}

/// Whether node `j` lies in the searched scope: the whole document, or the
/// proper descendants of a node.
pub open spec fn in_scope(t: Seq<HtmlNodeView>, scope: Option<usize>, j: int) -> bool {
    match scope {
        None => true,
        Some(r) => j != r && within(t, j, r as int),
    }
}

/// The matching nodes in scope among the first `n`, in document order.
pub open spec fn matching(
    t: Seq<HtmlNodeView>,
    scope: Option<usize>,
    by_class: bool,
    word: Seq<char>,
    n: nat,
) -> Seq<usize>
    decreases n,
{
    if n == 0 {
        Seq::empty()
    } else {
        let rest = matching(t, scope, by_class, word, (n - 1) as nat);
        let j = n - 1;
        if in_scope(t, scope, j) && node_matches(t[j], by_class, word) {
            rest.push(j as usize)
        } else {
            rest
        }
    }
}

/// The matching nodes in scope, in document order.
pub open spec fn find_all_spec(
    t: Seq<HtmlNodeView>,
    scope: Option<usize>,
    by_class: bool,
    word: Seq<char>,
) -> Seq<usize> {
    matching(t, scope, by_class, word, t.len())
}

/// The text of the nodes among the first `n` that are `root` or its
/// descendants, concatenated in document order.
pub open spec fn text_upto(t: Seq<HtmlNodeView>, root: int, n: nat) -> Seq<char>
    decreases n,
{
    if n == 0 {
        Seq::empty()
    } else {
        let j = n - 1;
        if within(t, j, root) {
            text_upto(t, root, (n - 1) as nat) + t[j].text
        } else {
            text_upto(t, root, (n - 1) as nat)
        }
    }
}

/// The text content of node `root`: the text of it and its descendants.
pub open spec fn text_spec(t: Seq<HtmlNodeView>, root: int) -> Seq<char> {
    text_upto(t, root, t.len())
}

impl HtmlTree {
    /// Whether node `j` is `root` or one of its descendants.
    pub fn within(&self, j: usize, root: usize) -> (r: bool)
        requires
            j < self@.len(),
        ensures
            r == within(self@, j as int, root as int),
    {
        let mut cur = j;
        while cur != root
            invariant
                cur < self@.len(),
                within(self@, j as int, root as int) == within(self@, cur as int, root as int),
            decreases cur,
        {
            match self.nodes[cur].parent {
                Some(p) => {
                    if p < cur {
                        cur = p;
                    } else {
                        return false;
                    }
                },
                None => return false,
            }
        }
        true
    }

    /// The parent of node `j`, when it links to an earlier node.
    pub fn parent(&self, j: usize) -> (r: Option<usize>)
        requires
            j < self@.len(),
        ensures
            r matches Some(p) ==> parent_of(self@, j as int) == Some(p as int),
            r is None ==> parent_of(self@, j as int) is None,
    {
        match self.nodes[j].parent {
            Some(p) => if p < j {
                Some(p)
            } else {
                None
            },
            None => None,
        }
    }

    fn node_matches(&self, j: usize, by_class: bool, word: &str) -> (r: bool)
        requires
            j < self@.len(),
        ensures
            r == node_matches(self@[j as int], by_class, word@),
    {
        let node = &self.nodes[j];
        if by_class {
            let ghost v = self@[j as int];
            assert(v == node@);
            let mut i: usize = 0;
            while i < node.classes.len()
                invariant
                    j < self@.len(),
                    v == self@[j as int],
                    by_class,
                    v == node@,
                    i <= node.classes@.len(),
                    forall|k: int| 0 <= k < i ==> v.classes[k] != word@,
                decreases node.classes@.len() - i,
            {
                if str_eq(node.classes[i].as_str(), word) {
                    assert(v.classes[i as int] == node.classes@[i as int]@);
                    assert(v.classes.len() == node.classes@.len());
                    assert(node_matches(v, by_class, word@));
                    return true;
                }
                assert(v.classes[i as int] == node.classes@[i as int]@);
                i = i + 1;
            }
            false
        } else {
            str_eq(node.name.as_str(), word)
        }
    }

    /// The nodes in `scope` (the whole document, or the proper descendants of
    /// a node) that have class `word` (when `by_class`) or tag name `word`,
    /// in document order.
    pub fn find_all(&self, scope: Option<usize>, by_class: bool, word: &str) -> (r: Vec<usize>)
        ensures
            r@ == find_all_spec(self@, scope, by_class, word@),
            forall|i: int| 0 <= i < r@.len() ==> #[trigger] r@[i] < self@.len(),
    {
        let n = self.nodes.len();
        let mut out: Vec<usize> = Vec::new();
        let mut j: usize = 0;
        while j < n
            invariant
                n == self@.len(),
                j <= n,
                out@ == matching(self@, scope, by_class, word@, j as nat),
                forall|i: int| 0 <= i < out@.len() ==> #[trigger] out@[i] < j,
            decreases n - j,
        {
            let in_scope = match scope {
                None => true,
                Some(root) => j != root && self.within(j, root),
            };
            if in_scope && self.node_matches(j, by_class, word) {
                out.push(j);
            }
            j = j + 1;
        }
        out
    }

    /// The text content of node `root`: the text of it and its descendants,
    /// in document order.
    pub fn text(&self, root: usize) -> (r: String)
        ensures
            r@ == text_spec(self@, root as int),
    {
        let n = self.nodes.len();
        let mut out = String::new();
        let mut j: usize = 0;
        while j < n
            invariant
                n == self@.len(),
                j <= n,
                out@ == text_upto(self@, root as int, j as nat),
            decreases n - j,
        {
            if self.within(j, root) {
                out.append(self.nodes[j].text.as_str());
            }
            j = j + 1;
        }
        out
    }
}

} // verus!

//! The document model: one entry per element of the parsed markup, in
//! document order (top-to-bottom, depth-first), carrying exactly what the
//! extraction rules read of an element. The HTML engine that builds this
//! snapshot is the one outside capability the library relies on.
use vstd::prelude::*;

verus! {

/// Mathematical model of one element of the parsed document.
pub ghost struct ElemModel {
    /// Number of ancestor nodes (the document root included).
    pub depth: nat,
    /// Lowercased tag name.
    pub tag: Seq<char>,
    /// The element's classes, as the engine reports them.
    pub classes: Seq<Seq<char>>,
    /// The `src` attribute, when present.
    pub src: Option<Seq<char>>,
    /// Concatenated text of all descendant text nodes.
    pub text: Seq<char>,
}

/// One element of the parsed document, as handed out by the HTML engine.
pub struct RawElem {
    /// Number of ancestor nodes (the document root included).
    pub depth: usize,
    /// Lowercased tag name.
    pub tag: String,
    /// The element's classes.
    pub classes: Vec<String>,
    /// The `src` attribute, when present.
    pub src: Option<String>,
    /// Concatenated text of all descendant text nodes.
    pub text: String,
}

impl View for RawElem {
    type V = ElemModel;

    open spec fn view(&self) -> ElemModel {
        ElemModel {
            depth: self.depth as nat,
            tag: self.tag@,
            classes: self.classes@.map_values(|c: String| c@),
            src: match self.src {
                Some(s) => Some(s@),
                None => None,
            },
            text: self.text@,
        }
    }
}

/// The models of a sequence of elements.
pub open spec fn views_of(es: Seq<RawElem>) -> Seq<ElemModel> {
    es.map_values(|e: RawElem| e@)
}

/// The element sequence that the HTML engine produces from the given markup,
/// in document order. The engine's output is a function of the markup alone;
/// this name stands for it.
pub uninterp spec fn elems_of(html: Seq<char>) -> Seq<ElemModel>;

/// Relies on `scraper::Html::parse_document` (building the document tree from
/// markup), `scraper::Selector::parse` with the universal selector (which
/// never fails) and `scraper::Html::select` (all elements, in document
/// order), `ego_tree::NodeRef::ancestors` (the chain of ancestor nodes),
/// `scraper::node::Element::name` (the lowercased tag name),
/// `scraper::node::Element::classes` (the classes of the `class` attribute),
/// `scraper::ElementRef::attr` (an attribute's value) and
/// `scraper::ElementRef::text` (descendant text nodes in document order).
#[verifier::external_body]
pub fn scan_elements(html: &str) -> (r: Vec<RawElem>)
    ensures
        views_of(r@) == elems_of(html@),
{
    let doc = scraper::Html::parse_document(html);
    let all = scraper::Selector::parse("*").unwrap();
    let mut out: Vec<RawElem> = Vec::new();
    for el in doc.select(&all) {
        out.push(RawElem {
            depth: el.ancestors().count(),
            tag: el.value().name().to_string(),
            classes: el.value().classes().map(|c| c.to_string()).collect(),
            src: el.attr("src").map(|s| s.to_string()),
            text: el.text().collect::<String>(),
        });
    }
    out
}

/// Element `j` is a strict ancestor of element `i`: it stands before `i` in
/// document order and every element between them, `i` included, lies deeper.
pub open spec fn is_ancestor(es: Seq<ElemModel>, j: int, i: int) -> bool {
    0 <= j < i < es.len() && forall|k: int| j < k <= i ==> es[k].depth > es[j].depth
}

/// Executable test for `is_ancestor`.
pub fn is_ancestor_at(es: &Vec<RawElem>, j: usize, i: usize) -> (r: bool)
    requires
        j < i < es@.len(),
    ensures
        r == is_ancestor(views_of(es@), j as int, i as int),
{
    let n = es.len();
    let dj = es[j].depth;
    let mut k: usize = j + 1;
    while k <= i
        invariant
            j < k <= i + 1,
            i < n == es@.len(),
            dj == es@[j as int].depth,
            forall|m: int| j < m < k ==> views_of(es@)[m].depth > views_of(es@)[j as int].depth,
        decreases i + 1 - k,
    {
        if es[k].depth <= dj {
            assert(views_of(es@)[k as int].depth <= views_of(es@)[j as int].depth);
            return false;
        }
        k = k + 1;
    }
    true
}

} // verus!

//! The fixed selector rules: which elements the extraction queries match,
//! and first-match-in-document-order search. The queries are the library's
//! own, fixed for good:
//! - title: `div.inventory_gameinfo h2, div.inventory_gameinfo h1, h1`
//! - aggregate and per-card credits: `.credit_value`
//! - card containers: `div.inventory_gamecards div.inventory_gamecard`
//! - card name: `.inventory_gamecard_name`; card image: `img`.
use crate::dom::{is_ancestor, is_ancestor_at, views_of, ElemModel, RawElem};
use crate::strutil::str_eq;
use vstd::prelude::*;

verus! {

/// The element carries the class `c`.
pub open spec fn has_cls(e: ElemModel, c: Seq<char>) -> bool {
    exists|k: int| 0 <= k < e.classes.len() && e.classes[k] == c
}

/// The element is a `div` carrying the class `c`.
pub open spec fn is_div_with(e: ElemModel, c: Seq<char>) -> bool {
    e.tag == "div"@ && has_cls(e, c)
}

/// Element `i` has a strict ancestor that is a `div` with class `c`.
pub open spec fn has_div_ancestor(es: Seq<ElemModel>, i: int, c: Seq<char>) -> bool {
    exists|j: int| is_ancestor(es, j, i) && is_div_with(es[j], c)
}

/// Element `i` matches the combined title query
/// (`div.inventory_gameinfo h2, div.inventory_gameinfo h1, h1`): a heading
/// inside the designated info container, or any top-level heading. The
/// combined query yields matches in document order across all alternatives,
/// and the consumer takes the first.
pub open spec fn matches_title(es: Seq<ElemModel>, i: int) -> bool {
    (es[i].tag == "h2"@ && has_div_ancestor(es, i, "inventory_gameinfo"@)) || (es[i].tag == "h1"@
        && has_div_ancestor(es, i, "inventory_gameinfo"@)) || es[i].tag == "h1"@
}

/// Element `i` matches the credit-value query (`.credit_value`). The same
/// query serves the page aggregate and the per-card values.
pub open spec fn matches_credit(es: Seq<ElemModel>, i: int) -> bool {
    has_cls(es[i], "credit_value"@)
}

/// Element `i` matches the card-container query
/// (`div.inventory_gamecards div.inventory_gamecard`).
pub open spec fn matches_card(es: Seq<ElemModel>, i: int) -> bool {
    is_div_with(es[i], "inventory_gamecard"@) && has_div_ancestor(
        es,
        i,
        "inventory_gamecards"@,
    )
}

/// The sub-element queries evaluated inside one card container.
#[derive(Clone, Copy)]
pub enum SubSel {
    /// The card's name element (`.inventory_gamecard_name`).
    Name,
    /// The card's image element (`img`).
    Image,
    /// The card's credit-value element (`.credit_value`).
    Credit,
}

/// The element matches the given sub-element query.
pub open spec fn sub_matches(which: SubSel, e: ElemModel) -> bool {
    match which {
        SubSel::Name => has_cls(e, "inventory_gamecard_name"@),
        SubSel::Image => e.tag == "img"@,
        SubSel::Credit => has_cls(e, "credit_value"@),
    }
}

/// Element `j` matches the sub-element query within the scope of the card
/// container at `c`: it matches and is a descendant of the container.
pub open spec fn in_card_matches(es: Seq<ElemModel>, c: int, which: SubSel, j: int) -> bool {
    is_ancestor(es, c, j) && sub_matches(which, es[j])
}

/// The least `m >= j` for which `p(es, m)` holds, if any.
pub open spec fn first_from(
    es: Seq<ElemModel>,
    j: int,
    p: spec_fn(Seq<ElemModel>, int) -> bool,
) -> Option<int>
    decreases es.len() - j,
{
    if j < 0 || j >= es.len() {
        None
    } else if p(es, j) {
        Some(j)
    } else {
        first_from(es, j + 1, p)
    }
}

/// What `first_from` returns: the first index from `j` on that satisfies
/// `p`, and nothing before it does; or none satisfies `p` at all.
pub proof fn lemma_first_from(es: Seq<ElemModel>, j: int, p: spec_fn(Seq<ElemModel>, int) -> bool)
    requires
        0 <= j,
    ensures
        match first_from(es, j, p) {
            Some(m) => j <= m < es.len() && p(es, m) && (forall|k: int| j <= k < m ==> !(#[trigger] p(es, k))),
            None => forall|k: int| j <= k < es.len() ==> !(#[trigger] p(es, k)),
        },
    decreases es.len() - j,
{
    if j < es.len() && !p(es, j) {
        lemma_first_from(es, j + 1, p);
    }
}

/// Executable test: the element at `i` carries the class `class`.
pub fn elem_has_class(e: &RawElem, class: &str) -> (r: bool)
    ensures
        r == has_cls(e@, class@),
{
    let n = e.classes.len();
    for i in 0..n
        invariant
            n == e.classes@.len(),
            forall|k: int| 0 <= k < i ==> e.classes@[k]@ != class@,
    {
        if str_eq(e.classes[i].as_str(), class) {
            assert(e@.classes[i as int] == class@);
            return true;
        }
    }
    assert(forall|k: int| 0 <= k < e@.classes.len() ==> e@.classes[k] != class@);
    false
}

/// Executable test: element `i` is a `div` with class `class`.
fn is_div_with_at(es: &Vec<RawElem>, i: usize, class: &str) -> (r: bool)
    requires
        i < es@.len(),
    ensures
        r == is_div_with(views_of(es@)[i as int], class@),
{
    assert(views_of(es@)[i as int] == es@[i as int]@);
    str_eq(es[i].tag.as_str(), "div") && elem_has_class(&es[i], class)
}

/// Executable test for `has_div_ancestor`.
pub fn has_div_ancestor_at(es: &Vec<RawElem>, i: usize, class: &str) -> (r: bool)
    requires
        i < es@.len(),
    ensures
        r == has_div_ancestor(views_of(es@), i as int, class@),
{
    for j in 0..i
        invariant
            i < es@.len(),
            forall|m: int|
                0 <= m < j ==> !(is_ancestor(views_of(es@), m, i as int) && is_div_with(
                    views_of(es@)[m],
                    class@,
                )),
    {
        if is_div_with_at(es, j, class) && is_ancestor_at(es, j, i) {
            assert(is_ancestor(views_of(es@), j as int, i as int) && is_div_with(
                views_of(es@)[j as int],
                class@,
            ));
            return true;
        }
    }
    proof {
        assert forall|j: int|
            !(is_ancestor(views_of(es@), j, i as int) && is_div_with(
                views_of(es@)[j],
                class@,
            )) by {
            if is_ancestor(views_of(es@), j, i as int) {
                assert(0 <= j < i as int);
            }
        }
    }
    false
}

/// Executable test for `matches_title`.
pub fn matches_title_at(es: &Vec<RawElem>, i: usize) -> (r: bool)
    requires
        i < es@.len(),
    ensures
        r == matches_title(views_of(es@), i as int),
{
    assert(views_of(es@)[i as int] == es@[i as int]@);
    if str_eq(es[i].tag.as_str(), "h1") {
        return true;
    }
    str_eq(es[i].tag.as_str(), "h2") && has_div_ancestor_at(es, i, "inventory_gameinfo")
}

/// Executable test for `matches_credit`.
pub fn matches_credit_at(es: &Vec<RawElem>, i: usize) -> (r: bool)
    requires
        i < es@.len(),
    ensures
        r == matches_credit(views_of(es@), i as int),
{
    assert(views_of(es@)[i as int] == es@[i as int]@);
    elem_has_class(&es[i], "credit_value")
}

/// Executable test for `matches_card`.
pub fn matches_card_at(es: &Vec<RawElem>, i: usize) -> (r: bool)
    requires
        i < es@.len(),
    ensures
        r == matches_card(views_of(es@), i as int),
{
    is_div_with_at(es, i, "inventory_gamecard") && has_div_ancestor_at(
        es,
        i,
        "inventory_gamecards",
    )
}

/// Executable test for `sub_matches` at element `j`.
fn sub_matches_at(es: &Vec<RawElem>, which: SubSel, j: usize) -> (r: bool)
    requires
        j < es@.len(),
    ensures
        r == sub_matches(which, views_of(es@)[j as int]),
{
    assert(views_of(es@)[j as int] == es@[j as int]@);
    match which {
        SubSel::Name => elem_has_class(&es[j], "inventory_gamecard_name"),
        SubSel::Image => str_eq(es[j].tag.as_str(), "img"),
        SubSel::Credit => elem_has_class(&es[j], "credit_value"),
    }
}

/// The spec query that `find_first_title` answers.
pub open spec fn title_pred() -> spec_fn(Seq<ElemModel>, int) -> bool {
    |es: Seq<ElemModel>, i: int| matches_title(es, i)
}

/// The spec query that `find_first_credit` answers.
pub open spec fn credit_pred() -> spec_fn(Seq<ElemModel>, int) -> bool {
    |es: Seq<ElemModel>, i: int| matches_credit(es, i)
}

/// First element of the whole document matching the title query.
pub fn find_first_title(es: &Vec<RawElem>) -> (r: Option<usize>)
    ensures
        match r {
            Some(m) => first_from(views_of(es@), 0, title_pred()) == Some(m as int) && m
                < es@.len(),
            None => first_from(views_of(es@), 0, title_pred()) is None,
        },
{
    let ghost vs = views_of(es@);
    let ghost p = title_pred();
    proof {
        lemma_first_from(vs, 0, p);
    }
    let n = es.len();
    for i in 0..n
        invariant
            n == es@.len(),
            vs == views_of(es@),
            p == title_pred(),
            forall|k: int| 0 <= k < i ==> !(#[trigger] p(vs, k)),
    {
        if matches_title_at(es, i) {
            proof {
                assert(p(vs, i as int));
                lemma_first_from(vs, 0, p);
                match first_from(vs, 0, p) {
                    Some(m) => {
                        if m < i as int {
                            assert(!p(vs, m));
                        } else if m > i as int {
                            assert(!p(vs, i as int));
                        }
                    },
                    None => {
                        assert(!p(vs, i as int));
                    },
                }
            }
            return Some(i);
        }
        assert(!p(vs, i as int));
    }
    None
}

/// First element of the whole document matching the credit-value query.
pub fn find_first_credit(es: &Vec<RawElem>) -> (r: Option<usize>)
    ensures
        match r {
            Some(m) => first_from(views_of(es@), 0, credit_pred()) == Some(m as int) && m
                < es@.len(),
            None => first_from(views_of(es@), 0, credit_pred()) is None,
        },
{
    let ghost vs = views_of(es@);
    let ghost p = credit_pred();
    proof {
        lemma_first_from(vs, 0, p);
    }
    let n = es.len();
    for i in 0..n
        invariant
            n == es@.len(),
            vs == views_of(es@),
            p == credit_pred(),
            forall|k: int| 0 <= k < i ==> !(#[trigger] p(vs, k)),
    {
        if matches_credit_at(es, i) {
            proof {
                assert(p(vs, i as int));
                lemma_first_from(vs, 0, p);
                match first_from(vs, 0, p) {
                    Some(m) => {
                        if m < i as int {
                            assert(!p(vs, m));
                        } else if m > i as int {
                            assert(!p(vs, i as int));
                        }
                    },
                    None => {
                        assert(!p(vs, i as int));
                    },
                }
            }
            return Some(i);
        }
        assert(!p(vs, i as int));
    }
    None
}

/// The spec query that `find_in_card` answers.
pub open spec fn in_card_pred(c: int, which: SubSel) -> spec_fn(Seq<ElemModel>, int) -> bool {
    |es: Seq<ElemModel>, j: int| in_card_matches(es, c, which, j)
}

/// First element matching the sub-element query among the descendants of the
/// card container at `c`, in document order.
pub fn find_in_card(es: &Vec<RawElem>, c: usize, which: SubSel) -> (r: Option<usize>)
    requires
        c < es@.len(),
    ensures
        match r {
            Some(m) => first_from(views_of(es@), c + 1, in_card_pred(c as int, which)) == Some(
                m as int,
            ) && m < es@.len(),
            None => first_from(views_of(es@), c + 1, in_card_pred(c as int, which)) is None,
        },
{
    let ghost vs = views_of(es@);
    let ghost p = in_card_pred(c as int, which);
    let n = es.len();
    proof {
        lemma_first_from(vs, c + 1, p);
    }
    let mut j: usize = c + 1;
    while j < n
        invariant
            c < j,
            n == es@.len(),
            vs == views_of(es@),
            p == in_card_pred(c as int, which),
            forall|k: int| c + 1 <= k < j ==> !(#[trigger] p(vs, k)),
        decreases n - j,
    {
        if is_ancestor_at(es, c, j) && sub_matches_at(es, which, j) {
            proof {
                assert(p(vs, j as int));
                lemma_first_from(vs, c + 1, p);
                match first_from(vs, c + 1, p) {
                    Some(m) => {
                        if m < j as int {
                            assert(!p(vs, m));
                        } else if m > j as int {
                            assert(!p(vs, j as int));
                        }
                    },
                    None => {
                        assert(!p(vs, j as int));
                    },
                }
            }
            return Some(j);
        }
        assert(!p(vs, j as int));
        j = j + 1;
    }
    None
}

} // verus!

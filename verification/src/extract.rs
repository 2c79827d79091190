//! The extractor: from the document's element sequence to a `GameInfo`
//! record. Per-field fallback policy: a missing name or image becomes the
//! empty string; a missing title, aggregate credit value or per-card credit
//! value stays absent. The card list keeps document order.
use crate::dom::{views_of, ElemModel, RawElem};
use crate::select::{
    credit_pred, find_first_credit, find_first_title, find_in_card, first_from, in_card_pred,
    lemma_first_from, matches_card, matches_card_at, title_pred, SubSel,
};
use crate::strutil::{trim_spec, trim_str};
use vstd::prelude::*;

verus! {

/// Model of one extracted card entry.
pub ghost struct CardV {
    pub name: Seq<char>,
    pub image: Seq<char>,
    pub credits: Option<Seq<char>>,
}

/// Model of one extracted page record.
pub ghost struct GameInfoV {
    pub title: Option<Seq<char>>,
    pub total_credits: Option<Seq<char>>,
    pub cards: Seq<CardV>,
}

/// One extracted card entry: its name, its image source, and its credit
/// value when one is present within the card's scope.
pub struct CardInfo {
    /// The card's trimmed name text; empty when no name sub-element exists.
    pub name: String,
    /// The first image's `src` attribute; empty when element or attribute is
    /// missing.
    pub image: String,
    /// The trimmed per-card credit text; absent when none is found.
    pub credits: Option<String>,
}

/// The extracted page record: title, aggregate credit value, and the cards
/// in document order.
pub struct GameInfo {
    /// The first matching heading's trimmed text, when one exists.
    pub title: Option<String>,
    /// The first credit-value element's trimmed text, when one exists.
    pub total_credits: Option<String>,
    /// The card entries, in document order of their containers.
    pub cards: Vec<CardInfo>,
}

impl View for CardInfo {
    type V = CardV;

    open spec fn view(&self) -> CardV {
        CardV {
            name: self.name@,
            image: self.image@,
            credits: match self.credits {
                Some(s) => Some(s@),
                None => None,
            },
        }
    }
}

impl View for GameInfo {
    type V = GameInfoV;

    open spec fn view(&self) -> GameInfoV {
        GameInfoV {
            title: match self.title {
                Some(s) => Some(s@),
                None => None,
            },
            total_credits: match self.total_credits {
                Some(s) => Some(s@),
                None => None,
            },
            cards: self.cards@.map_values(|c: CardInfo| c@),
        }
    }
}

/// The extracted title: trimmed text of the first element matching the
/// title query, if any.
pub open spec fn title_of(es: Seq<ElemModel>) -> Option<Seq<char>> {
    match first_from(es, 0, title_pred()) {
        Some(i) => Some(trim_spec(es[i].text)),
        None => None,
    }
}

/// The extracted aggregate credit value: trimmed text of the first element
/// of the whole document matching the credit-value query, if any. The query
/// is the same one used for per-card credits, so on pages where the first
/// such element sits inside a card, that card's value is captured here.
pub open spec fn total_credits_of(es: Seq<ElemModel>) -> Option<Seq<char>> {
    match first_from(es, 0, credit_pred()) {
        Some(i) => Some(trim_spec(es[i].text)),
        None => None,
    }
}

/// The card extracted from the container at index `c`.
pub open spec fn card_of(es: Seq<ElemModel>, c: int) -> CardV {
    CardV {
        name: match first_from(es, c + 1, in_card_pred(c, SubSel::Name)) {
            Some(j) => trim_spec(es[j].text),
            None => Seq::empty(),
        },
        image: match first_from(es, c + 1, in_card_pred(c, SubSel::Image)) {
            Some(j) => match es[j].src {
                Some(s) => s,
                None => Seq::empty(),
            },
            None => Seq::empty(),
        },
        credits: match first_from(es, c + 1, in_card_pred(c, SubSel::Credit)) {
            Some(j) => Some(trim_spec(es[j].text)),
            None => None,
        },
    }
}

/// The indices below `j` of elements matching the card-container query, in
/// increasing order.
pub open spec fn card_indices_upto(es: Seq<ElemModel>, j: int) -> Seq<int>
    decreases j,
{
    if j <= 0 {
        Seq::empty()
    } else if matches_card(es, j - 1) {
        card_indices_upto(es, j - 1).push(j - 1)
    } else {
        card_indices_upto(es, j - 1)
    }
}

/// The indices of all card containers, in document order.
pub open spec fn card_indices(es: Seq<ElemModel>) -> Seq<int> {
    card_indices_upto(es, es.len() as int)
}

/// The record extracted from the element sequence.
pub open spec fn game_of(es: Seq<ElemModel>) -> GameInfoV {
    GameInfoV {
        title: title_of(es),
        total_credits: total_credits_of(es),
        cards: card_indices(es).map_values(|c: int| card_of(es, c)),
    }
}

/// Extracts the card entry of the container at `c`.
fn extract_card(es: &Vec<RawElem>, c: usize) -> (card: CardInfo)
    requires
        c < es@.len(),
    ensures
        card@ == card_of(views_of(es@), c as int),
{
    let ghost vs = views_of(es@);
    let name = match find_in_card(es, c, SubSel::Name) {
        Some(j) => {
            proof {
                assert(vs[j as int] == es@[j as int]@);
            }
            trim_str(es[j].text.as_str())
        },
        None => String::new(),
    };
    let image = match find_in_card(es, c, SubSel::Image) {
        Some(j) => {
            proof {
                assert(vs[j as int] == es@[j as int]@);
            }
            match &es[j].src {
                Some(s) => s.clone(),
                None => String::new(),
            }
        },
        None => String::new(),
    };
    let credits = match find_in_card(es, c, SubSel::Credit) {
        Some(j) => {
            proof {
                assert(vs[j as int] == es@[j as int]@);
            }
            Some(trim_str(es[j].text.as_str()))
        },
        None => None,
    };
    CardInfo { name, image, credits }
}

/// Extracts the page record from the element sequence: the first title
/// match, the first credit-value match, and one card entry per card
/// container, in document order.
pub fn extract(es: &Vec<RawElem>) -> (g: GameInfo)
    ensures
        g@ == game_of(views_of(es@)),
{
    let ghost vs = views_of(es@);
    let title = match find_first_title(es) {
        Some(i) => {
            proof {
                assert(vs[i as int] == es@[i as int]@);
            }
            Some(trim_str(es[i].text.as_str()))
        },
        None => None,
    };
    let total_credits = match find_first_credit(es) {
        Some(i) => {
            proof {
                assert(vs[i as int] == es@[i as int]@);
            }
            Some(trim_str(es[i].text.as_str()))
        },
        None => None,
    };
    let n = es.len();
    let mut cards: Vec<CardInfo> = Vec::new();
    for c in 0..n
        invariant
            n == es@.len(),
            vs == views_of(es@),
            cards@.map_values(|cd: CardInfo| cd@) == card_indices_upto(vs, c as int).map_values(
                |ci: int| card_of(vs, ci),
            ),
    {
        if matches_card_at(es, c) {
            let ghost prev = cards@;
            let card = extract_card(es, c);
            cards.push(card);
            proof {
                let f = |cd: CardInfo| cd@;
                let g = |ci: int| card_of(vs, ci);
                assert(cards@ == prev.push(card));
                assert(prev.push(card).map_values(f) =~= prev.map_values(f).push(card@));
                assert(card_indices_upto(vs, c + 1) == card_indices_upto(vs, c as int).push(
                    c as int,
                ));
                assert(card_indices_upto(vs, c as int).push(c as int).map_values(g)
                    =~= card_indices_upto(vs, c as int).map_values(g).push(card_of(vs, c as int)));
            }
        } else {
            proof {
                assert(card_indices_upto(vs, c + 1) == card_indices_upto(vs, c as int));
            }
        }
    }
    let g = GameInfo { title, total_credits, cards };
    proof {
        assert(g@.cards == game_of(vs).cards);
    }
    g
}

/// Properties of the card-index sequence: every entry lies below `j` and
/// matches the card query, the entries increase strictly, and every matching
/// index below `j` appears.
pub proof fn lemma_card_indices_upto_props(es: Seq<ElemModel>, j: int)
    requires
        j <= es.len(),
    ensures
        forall|k: int|
            0 <= k < card_indices_upto(es, j).len() ==> 0 <= #[trigger] card_indices_upto(es, j)[k]
                < j && matches_card(es, card_indices_upto(es, j)[k]),
        forall|k1: int, k2: int|
            0 <= k1 < k2 < card_indices_upto(es, j).len() ==> card_indices_upto(es, j)[k1]
                < card_indices_upto(es, j)[k2],
        forall|i: int|
            0 <= i < j && matches_card(es, i) ==> card_indices_upto(es, j).contains(i),
    decreases j,
{
    if j > 0 {
        lemma_card_indices_upto_props(es, j - 1);
        let prev = card_indices_upto(es, j - 1);
        let cur = card_indices_upto(es, j);
        if matches_card(es, j - 1) {
            assert(cur == prev.push(j - 1));
        } else {
            assert(cur == prev);
        }
        assert forall|k: int|
            0 <= k < cur.len() implies 0 <= #[trigger] cur[k] < j && matches_card(es, cur[k]) by {
            if k < prev.len() {
                assert(0 <= card_indices_upto(es, j - 1)[k] < j - 1 && matches_card(
                    es,
                    card_indices_upto(es, j - 1)[k],
                ));
                assert(cur[k] == prev[k]);
            } else {
                assert(cur[k] == j - 1);
            }
        }
        assert forall|k1: int, k2: int| 0 <= k1 < k2 < cur.len() implies cur[k1] < cur[k2] by {
            assert(0 <= cur[k1] < j && matches_card(es, cur[k1]));
            if k2 < prev.len() {
                assert(card_indices_upto(es, j - 1)[k1] < card_indices_upto(es, j - 1)[k2]);
            } else if k2 == prev.len() && matches_card(es, j - 1) {
                assert(cur[k2] == j - 1);
                assert(cur[k1] == card_indices_upto(es, j - 1)[k1]);
                assert(0 <= card_indices_upto(es, j - 1)[k1] < j - 1 && matches_card(
                    es,
                    card_indices_upto(es, j - 1)[k1],
                ));
            }
        }
        assert forall|i: int|
            0 <= i < j && matches_card(es, i) implies #[trigger] cur.contains(i) by {
            if i < j - 1 {
                assert(prev.contains(i));
                let k = choose|k: int| 0 <= k < prev.len() && prev[k] == i;
                assert(cur[k] == i);
            } else {
                assert(matches_card(es, j - 1));
                assert(cur[cur.len() - 1] == i);
            }
        }
    }
}

/// For all documents lacking any card-container match, the extracted card
/// list is the empty sequence, never absent.
pub proof fn lemma_no_card_match_empty_cards(es: Seq<ElemModel>)
    requires
        forall|i: int| 0 <= i < es.len() ==> !matches_card(es, i),
    ensures
        game_of(es).cards == Seq::<CardV>::empty(),
{
    lemma_card_indices_upto_props(es, es.len() as int);
    if card_indices(es).len() > 0 {
        assert(matches_card(es, card_indices(es)[0]));
    }
    assert(card_indices(es) =~= Seq::<int>::empty());
    assert(card_indices(es).map_values(|c: int| card_of(es, c)) =~= Seq::<CardV>::empty());
}

/// The extracted card list is exactly the per-container extraction, in
/// document order: the k-th card comes from the k-th matching container, and
/// the container indices increase strictly — no reordering ever happens.
pub proof fn lemma_cards_in_document_order(es: Seq<ElemModel>)
    ensures
        game_of(es).cards.len() == card_indices(es).len(),
        forall|k: int|
            0 <= k < card_indices(es).len() ==> game_of(es).cards[k] == card_of(
                es,
                #[trigger] card_indices(es)[k],
            ),
        forall|k1: int, k2: int|
            0 <= k1 < k2 < card_indices(es).len() ==> #[trigger] card_indices(es)[k1]
                < #[trigger] card_indices(es)[k2],
        forall|k: int|
            0 <= k < card_indices(es).len() ==> matches_card(es, #[trigger] card_indices(es)[k]),
        forall|i: int|
            0 <= i < es.len() && matches_card(es, i) ==> card_indices(es).contains(i),
{
    lemma_card_indices_upto_props(es, es.len() as int);
}

/// For all card containers lacking a name sub-element, the extracted name is
/// the empty string, never absent.
pub proof fn lemma_missing_name_is_empty(es: Seq<ElemModel>, c: int)
    requires
        forall|j: int| 0 <= j < es.len() ==> !crate::select::in_card_matches(es, c, SubSel::Name, j),
    ensures
        card_of(es, c).name == Seq::<char>::empty(),
{
    if c + 1 >= 0 {
        lemma_first_from(es, c + 1, in_card_pred(c, SubSel::Name));
        match first_from(es, c + 1, in_card_pred(c, SubSel::Name)) {
            Some(m) => {
                assert(in_card_pred(c, SubSel::Name)(es, m));
                assert(crate::select::in_card_matches(es, c, SubSel::Name, m));
            },
            None => {},
        }
    }
}

/// For all card containers lacking an image sub-element, the extracted image
/// source is the empty string, never absent.
pub proof fn lemma_missing_image_is_empty(es: Seq<ElemModel>, c: int)
    requires
        forall|j: int|
            0 <= j < es.len() ==> !crate::select::in_card_matches(es, c, SubSel::Image, j),
    ensures
        card_of(es, c).image == Seq::<char>::empty(),
{
    if c + 1 >= 0 {
        lemma_first_from(es, c + 1, in_card_pred(c, SubSel::Image));
        match first_from(es, c + 1, in_card_pred(c, SubSel::Image)) {
            Some(m) => {
                assert(in_card_pred(c, SubSel::Image)(es, m));
                assert(crate::select::in_card_matches(es, c, SubSel::Image, m));
            },
            None => {},
        }
    }
}

/// For all card containers lacking a credit-value sub-element, the extracted
/// credit value is absent.
pub proof fn lemma_missing_credit_is_none(es: Seq<ElemModel>, c: int)
    requires
        forall|j: int|
            0 <= j < es.len() ==> !crate::select::in_card_matches(es, c, SubSel::Credit, j),
    ensures
        card_of(es, c).credits is None,
{
    if c + 1 >= 0 {
        lemma_first_from(es, c + 1, in_card_pred(c, SubSel::Credit));
        match first_from(es, c + 1, in_card_pred(c, SubSel::Credit)) {
            Some(m) => {
                assert(in_card_pred(c, SubSel::Credit)(es, m));
                assert(crate::select::in_card_matches(es, c, SubSel::Credit, m));
            },
            None => {},
        }
    }
}

} // verus!

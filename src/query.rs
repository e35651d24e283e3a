//! Filters and lookups over a set of cards.
use vstd::prelude::*;
use crate::card::{Card, CardView, views};
use crate::text::{lower_of, lowercase, string_of, string_views};

verus! {

/// The cards of `cs` whose entry in `keep` is true, in their order.
pub open spec fn kept(cs: Seq<CardView>, keep: Seq<bool>) -> Seq<CardView>
    decreases cs.len(),
{
    if cs.len() == 0 || keep.len() == 0 {
        Seq::empty()
    } else {
        let rest = kept(cs.drop_last(), keep.drop_last());
        if keep.last() {
            rest.push(cs.last())
        } else {
            rest
        }
    }
}

proof fn lemma_views_prefix(cs: Seq<Card>, i: int)
    requires
        0 <= i < cs.len(),
    ensures
        views(cs.subrange(0, i + 1)) == views(cs.subrange(0, i)).push(cs[i]@),
        views(cs.subrange(0, i + 1)).drop_last() == views(cs.subrange(0, i)),
        views(cs.subrange(0, i + 1)).last() == cs[i]@,
{
    assert(views(cs.subrange(0, i + 1)) =~= views(cs.subrange(0, i)).push(cs[i]@));
    assert(views(cs.subrange(0, i + 1)).drop_last() =~= views(cs.subrange(0, i)));
}

/// The cards for which `pred` holds, in their order. The input is left as it is.
pub fn filter_cards<F: Fn(&Card) -> bool>(cards: &[Card], pred: &F) -> (r: Vec<Card>)
    requires
        forall|i: int| 0 <= i < cards@.len() ==> pred.requires((&cards@[i],)),
    ensures
        exists|keep: Seq<bool>|
            keep.len() == cards@.len() && (forall|i: int|
                0 <= i < cards@.len() ==> pred.ensures((&cards@[i],), #[trigger] keep[i]))
                && views(r@) == kept(views(cards@), keep),
{
    let mut r: Vec<Card> = Vec::new();
    let ghost mut keep: Seq<bool> = Seq::empty();
    let mut i: usize = 0;
    while i < cards.len()
        invariant
            i <= cards@.len(),
            forall|j: int| 0 <= j < cards@.len() ==> pred.requires((&cards@[j],)),
            keep.len() == i,
            forall|j: int| 0 <= j < i ==> pred.ensures((&cards@[j],), #[trigger] keep[j]),
            views(r@) == kept(views(cards@.subrange(0, i as int)), keep),
        decreases cards.len() - i,
    {
        let b = pred(&cards[i]);
        proof {
            lemma_views_prefix(cards@, i as int);
            assert(keep.push(b).drop_last() =~= keep);
        }
        if b {
            let c = cards[i].duplicate();
            let ghost prev = r@;
            r.push(c);
            assert(views(r@) =~= views(prev).push(c@));
        }
        proof {
            keep = keep.push(b);
        }
        i = i + 1;
    }
    assert(cards@.subrange(0, cards@.len() as int) =~= cards@);
    r
}

pub proof fn lemma_kept_filter(cs: Seq<CardView>, keep: Seq<bool>, p: spec_fn(CardView) -> bool)
    requires
        keep.len() == cs.len(),
        forall|i: int| 0 <= i < cs.len() ==> keep[i] == p(cs[i]),
    ensures
        kept(cs, keep) == cs.filter(p),
    decreases cs.len(),
{
    reveal(Seq::filter);
    if cs.len() > 0 {
        lemma_kept_filter(cs.drop_last(), keep.drop_last(), p);
    }
}

/// A card is collectible unless its `uncollectible` field is `true`.
pub open spec fn is_collectible(c: CardView) -> bool {
    c.uncollectible != Some(true)
}

/// The collectible cards, in their order.
pub fn filter_uncollectible(cards: &[Card]) -> (r: Vec<Card>)
    ensures
        views(r@) == views(cards@).filter(|c: CardView| is_collectible(c)),
{
    let pred = |c: &Card| -> (b: bool)
        ensures
            b == is_collectible(c@),
        {
            match c.uncollectible {
                Some(true) => false,
                _ => true,
            }
        };
    let r = filter_cards(cards, &pred);
    proof {
        let keep = choose|keep: Seq<bool>|
            keep.len() == cards@.len() && (forall|i: int|
                0 <= i < cards@.len() ==> pred.ensures((&cards@[i],), #[trigger] keep[i]))
                && views(r@) == kept(views(cards@), keep);
        lemma_kept_filter(views(cards@), keep, |c: CardView| is_collectible(c));
    }
    r
}

/// The class of cards that every class may use.
pub open spec fn neutral() -> Seq<char> {
    seq!['N', 'e', 'u', 't', 'r', 'a', 'l']
}

/// A card of the given class or a neutral card.
pub open spec fn class_allowed(c: CardView, class: Seq<char>) -> bool {
    c.class == Some(neutral()) || c.class == Some(class)
}

/// The collectible cards whose class is exactly `Neutral` or `class`.
pub fn setup_cards(cards: &[Card], class: &String) -> (r: Vec<Card>)
    ensures
        views(r@) == views(cards@).filter(|c: CardView| is_collectible(c)).filter(
            |c: CardView| class_allowed(c, class@),
        ),
{
    let collectible = filter_uncollectible(cards);
    let nv = vec!['N', 'e', 'u', 't', 'r', 'a', 'l'];
    assert(nv@ =~= neutral());
    let neutral_name = string_of(&nv);
    let pred = |c: &Card| -> (b: bool)
        ensures
            b == class_allowed(c@, class@),
        {
            match &c.class {
                Some(k) => *k == neutral_name || *k == *class,
                None => false,
            }
        };
    let r = filter_cards(collectible.as_slice(), &pred);
    proof {
        let keep = choose|keep: Seq<bool>|
            keep.len() == collectible@.len() && (forall|i: int|
                0 <= i < collectible@.len() ==> pred.ensures((&collectible@[i],), #[trigger] keep[i]))
                && views(r@) == kept(views(collectible@), keep);
        lemma_kept_filter(views(collectible@), keep, |c: CardView| class_allowed(c, class@));
    }
    r
}

/// The `name` field, or the empty text when there is none.
pub open spec fn name_text(c: CardView) -> Seq<char> {
    match c.name {
        Some(n) => n,
        None => Seq::empty(),
    }
}

/// The id as text: the string itself when the id is a JSON string, else its
/// JSON text.
pub open spec fn id_text(c: CardView) -> Seq<char> {
    match c.id_str {
        Some(s) => s,
        None => c.id,
    }
}

/// The card's name matches `q` ignoring case, or its id is exactly `q`.
pub open spec fn card_matches(c: CardView, q: Seq<char>) -> bool {
    lower_of(name_text(c)) == lower_of(q) || id_text(c) == q
}

/// The first position from `i` on whose folded name is `qf` or whose card's
/// id text is `q`, or -1.
pub open spec fn first_folded_from(
    cs: Seq<CardView>,
    folds: Seq<Seq<char>>,
    qf: Seq<char>,
    q: Seq<char>,
    i: int,
) -> int
    decreases cs.len() - i,
{
    if i < 0 || i >= cs.len() {
        -1
    } else if folds[i] == qf || id_text(cs[i]) == q {
        i
    } else {
        first_folded_from(cs, folds, qf, q, i + 1)
    }
}

proof fn lemma_folded_is_match(
    cs: Seq<CardView>,
    folds: Seq<Seq<char>>,
    q: Seq<char>,
    i: int,
)
    requires
        0 <= i,
        folds.len() == cs.len(),
        forall|k: int| 0 <= k < cs.len() ==> #[trigger] folds[k] == lower_of(name_text(cs[k])),
    ensures
        first_folded_from(cs, folds, lower_of(q), q, i) == first_match_from(cs, q, i),
    decreases cs.len() - i,
{
    if i < cs.len() {
        lemma_folded_is_match(cs, folds, q, i + 1);
    }
}

/// The id of `card` as text: the string itself for a string id.
pub fn card_id_text(card: &Card) -> (r: &String)
    ensures
        r@ == id_text(card@),
{
    match &card.id_str {
        Some(s) => s,
        None => &card.id,
    }
}

/// The position of the first card whose folded name (`name_folds`, one per
/// card) is `query_fold`, or whose id text is `query`.
pub fn first_match_folded(
    cards: &[Card],
    name_folds: &[String],
    query_fold: &String,
    query: &String,
) -> (r: Option<usize>)
    requires
        name_folds@.len() == cards@.len(),
    ensures
        match r {
            Some(i) => first_folded_from(
                views(cards@),
                string_views(name_folds@),
                query_fold@,
                query@,
                0,
            ) == i as int && i < cards@.len(),
            None => first_folded_from(
                views(cards@),
                string_views(name_folds@),
                query_fold@,
                query@,
                0,
            ) == -1,
        },
{
    let ghost cs = views(cards@);
    let ghost fs = string_views(name_folds@);
    let mut i: usize = 0;
    while i < cards.len()
        invariant
            i <= cards@.len() == name_folds@.len(),
            cs == views(cards@),
            fs == string_views(name_folds@),
            first_folded_from(cs, fs, query_fold@, query@, 0) == first_folded_from(
                cs,
                fs,
                query_fold@,
                query@,
                i as int,
            ),
        decreases cards.len() - i,
    {
        assert(cs[i as int] == cards@[i as int]@);
        assert(fs[i as int] == name_folds@[i as int]@);
        if name_folds[i] == *query_fold || *card_id_text(&cards[i]) == *query {
            return Some(i);
        }
        i = i + 1;
    }
    None
}

/// The index of the first card from `i` on that matches `q`, or -1.
pub open spec fn first_match_from(cs: Seq<CardView>, q: Seq<char>, i: int) -> int
    decreases cs.len() - i,
{
    if i < 0 || i >= cs.len() {
        -1
    } else if card_matches(cs[i], q) {
        i
    } else {
        first_match_from(cs, q, i + 1)
    }
}

pub open spec fn first_match(cs: Seq<CardView>, q: Seq<char>) -> int {
    first_match_from(cs, q, 0)
}

pub proof fn lemma_first_match_bounds(cs: Seq<CardView>, q: Seq<char>, i: int)
    requires
        0 <= i,
    ensures
        first_match_from(cs, q, i) == -1 || (i <= first_match_from(cs, q, i) < cs.len()
            && card_matches(cs[first_match_from(cs, q, i)], q)),
    decreases cs.len() - i,
{
    if i < cs.len() && !card_matches(cs[i], q) {
        lemma_first_match_bounds(cs, q, i + 1);
    }
}

/// The position of the first card whose name matches `name_or_id` ignoring
/// case, or whose id is exactly `name_or_id`.
pub fn find_card_index(cards: &[Card], name_or_id: &str) -> (r: Option<usize>)
    ensures
        match r {
            Some(i) => first_match(views(cards@), name_or_id@) == i as int && i < cards@.len(),
            None => first_match(views(cards@), name_or_id@) == -1,
        },
{
    let empty = String::new();
    let mut folds: Vec<String> = Vec::new();
    let mut i: usize = 0;
    while i < cards.len()
        invariant
            i <= cards@.len(),
            folds@.len() == i,
            empty@ == Seq::<char>::empty(),
            forall|k: int|
                0 <= k < i ==> #[trigger] string_views(folds@)[k] == lower_of(
                    name_text(views(cards@)[k]),
                ),
        decreases cards.len() - i,
    {
        let f = match &cards[i].name {
            Some(n) => {
                assert(cards@[i as int]@.name == Some(n@));
                lowercase(n.as_str())
            },
            None => lowercase(empty.as_str()),
        };
        assert(views(cards@)[i as int] == cards@[i as int]@);
        assert(f@ == lower_of(name_text(views(cards@)[i as int])));
        let ghost prev = folds@;
        let ghost fv = f@;
        folds.push(f);
        assert forall|k: int| 0 <= k < i + 1 implies #[trigger] string_views(folds@)[k] == lower_of(
            name_text(views(cards@)[k]),
        ) by {
            assert(string_views(folds@)[k] == folds@[k]@);
            if k < i {
                assert(folds@[k] == prev[k]);
                assert(string_views(prev)[k] == prev[k]@);
            } else {
                assert(folds@[k]@ == fv);
            }
        }
        i = i + 1;
    }
    let query_fold = lowercase(name_or_id);
    let query = String::from_str(name_or_id);
    proof {
        lemma_folded_is_match(views(cards@), string_views(folds@), name_or_id@, 0);
    }
    first_match_folded(cards, folds.as_slice(), &query_fold, &query)
}

/// The first card whose name matches `name_or_id` ignoring case, or whose id
/// is exactly `name_or_id`.
pub fn find_card(cards: &[Card], name_or_id: &str) -> (r: Option<Card>)
    ensures
        match r {
            Some(c) => 0 <= first_match(views(cards@), name_or_id@) && c@ == views(
                cards@,
            )[first_match(views(cards@), name_or_id@)],
            None => first_match(views(cards@), name_or_id@) == -1,
        },
{
    match find_card_index(cards, name_or_id) {
        Some(i) => Some(cards[i].duplicate()),
        None => None,
    }
}

/// How a card is listed: its name, ` - `, its id.
pub open spec fn listing(c: CardView) -> Seq<char> {
    name_text(c) + seq![' ', '-', ' '] + c.id
}

/// The line that lists `card`.
pub fn card_line(card: &Card) -> (r: String)
    ensures
        r@ == listing(card@),
{
    let mut r = match &card.name {
        Some(n) => n.clone(),
        None => String::new(),
    };
    let sep = string_of(&vec![' ', '-', ' ']);
    assert(sep@ =~= seq![' ', '-', ' ']);
    r = r.concat(sep.as_str());
    r.concat(card.id.as_str())
}

/// Cards listed on one page.
pub const CARDS_PER_PAGE: usize = 15;

/// The range of positions that page `page` (counted from 1) shows of `len`
/// cards, cut off at `len`.
pub fn page_bounds(len: usize, page: usize) -> (r: (usize, usize))
    requires
        page >= 1,
    ensures
        r.0 as int == if 15 * (page - 1) <= len { 15 * (page - 1) } else { len as int },
        r.1 as int == if 15 * page <= len { 15 * page } else { len as int },
{
    let per = CARDS_PER_PAGE;
    let start = if page - 1 <= len / per {
        let s = (page - 1) * per;
        assert(s <= len) by (nonlinear_arith)
            requires s == (page - 1) * 15, page - 1 <= len / 15, per == 15;
        s
    } else {
        assert(15 * (page - 1) > len) by (nonlinear_arith)
            requires page - 1 > len / 15;
        len
    };
    let end = if page <= len / per {
        assert(page * 15 <= len) by (nonlinear_arith)
            requires page <= len / 15;
        page * per
    } else {
        assert(15 * page > len) by (nonlinear_arith)
            requires page > len / 15;
        len
    };
    (start, end)
}

} // verus!

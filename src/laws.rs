//! Properties that relate several functions of the library, proved over the
//! spec functions that their contracts use.
use vstd::prelude::*;
use crate::card::CardView;
use crate::command::{Action, Command, add_name, dispatched, split_command};
use crate::error::DeckError;
use crate::extract::{
    Scan, block_open, close_object, cut_from, extracted, is_boundary, line_open, marker,
    quote_keys, strip_comments, strip_from, trim_tail,
};
use crate::query::{card_matches, first_match, first_match_from, kept};
use crate::text::{first_from, is_ws, lemma_first_from_bounds, occurs_at, trim, trim_end, trim_start};

verus! {

proof fn lemma_trim_start_is_suffix(s: Seq<char>)
    ensures
        exists|a: int| 0 <= a <= s.len() && trim_start(s) == s.subrange(a, s.len() as int),
    decreases s.len(),
{
    if s.len() > 0 && is_ws(s[0]) {
        lemma_trim_start_is_suffix(s.drop_first());
        let a = choose|a: int|
            0 <= a <= s.drop_first().len() && trim_start(s.drop_first()) == s.drop_first().subrange(
                a,
                s.drop_first().len() as int,
            );
        assert(s.drop_first().subrange(a, s.drop_first().len() as int) =~= s.subrange(
            a + 1,
            s.len() as int,
        ));
    } else {
        assert(s.subrange(0, s.len() as int) =~= s);
    }
}

proof fn lemma_trim_end_is_prefix(s: Seq<char>)
    ensures
        exists|b: int| 0 <= b <= s.len() && trim_end(s) == s.subrange(0, b),
    decreases s.len(),
{
    if s.len() > 0 && is_ws(s.last()) {
        lemma_trim_end_is_prefix(s.drop_last());
        let b = choose|b: int|
            0 <= b <= s.drop_last().len() && trim_end(s.drop_last()) == s.drop_last().subrange(0, b);
        assert(s.drop_last().subrange(0, b) =~= s.subrange(0, b));
    } else {
        assert(s.subrange(0, s.len() as int) =~= s);
    }
}

proof fn lemma_no_occurrence(s: Seq<char>, p: Seq<char>, i: int)
    requires
        0 <= i,
        forall|k: int| !occurs_at(s, p, k),
    ensures
        first_from(s, p, i) == -1,
    decreases s.len() - i,
{
    if i + p.len() <= s.len() && i < s.len() {
        lemma_no_occurrence(s, p, i + 1);
    }
}

/// Once the comments are removed, a text without the `module.exports = `
/// marker has no card: extraction fails with `MarkerNotFound`.
pub proof fn lemma_missing_marker(text: Seq<char>)
    requires
        forall|k: int| !occurs_at(strip_comments(text), marker(), k),
    ensures
        extracted(text) is None,
{
    let s = strip_comments(text);
    lemma_trim_start_is_suffix(s);
    let a = choose|a: int| 0 <= a <= s.len() && trim_start(s) == s.subrange(a, s.len() as int);
    let u = trim_start(s);
    lemma_trim_end_is_prefix(u);
    let b = choose|b: int| 0 <= b <= u.len() && trim_end(u) == u.subrange(0, b);
    let t = trim(s);
    assert(t =~= s.subrange(a, a + b));
    lemma_first_from_bounds(t, marker(), 0);
    let m = first_from(t, marker(), 0);
    if m >= 0 {
        assert(t.subrange(m, m + marker().len()) =~= s.subrange(a + m, a + m + marker().len()));
        assert(occurs_at(s, marker(), a + m));
    }
}

/// A bare object literal: it starts with `{` and ends with `}`, and holds no
/// comment opener, no `module.exports = ` marker and no blank line.
pub open spec fn plain_literal(lit: Seq<char>) -> bool {
    &&& lit.len() > 0
    &&& lit[0] == '{'
    &&& lit.last() == '}'
    &&& forall|k: int| !occurs_at(lit, line_open(), k) && !occurs_at(lit, block_open(), k)
    &&& forall|k: int| !occurs_at(lit, marker(), k)
    &&& forall|k: int| !is_boundary(lit, k)
}

proof fn lemma_shifted_occurrence(lit: Seq<char>, p: Seq<char>, k: int)
    requires
        p.len() == 2,
        p[0] == '/',
        forall|j: int| !occurs_at(lit, p, j),
    ensures
        !occurs_at(marker() + lit, p, k),
{
    let t = marker() + lit;
    let n = marker().len() as int;
    if occurs_at(t, p, k) {
        assert(t.subrange(k, k + 2)[0] == t[k]);
        if k < n {
            assert(t[k] == marker()[k]);
        } else {
            assert(t.subrange(k, k + 2) =~= lit.subrange(k - n, k - n + 2));
            assert(occurs_at(lit, p, k - n));
        }
    }
}

proof fn lemma_strip_plain(t: Seq<char>, i: int)
    requires
        0 <= i <= t.len(),
        forall|k: int| !occurs_at(t, line_open(), k) && !occurs_at(t, block_open(), k),
    ensures
        strip_from(t, i, Scan::Code) == t.subrange(i, t.len() as int),
    decreases t.len() - i,
{
    if i < t.len() {
        lemma_strip_plain(t, i + 1);
        assert(seq![t[i]] + t.subrange(i + 1, t.len() as int) =~= t.subrange(i, t.len() as int));
    } else {
        assert(t.subrange(i, t.len() as int) =~= Seq::<char>::empty());
    }
}

proof fn lemma_no_cut(s: Seq<char>, i: int)
    requires
        0 <= i,
        forall|k: int| !is_boundary(s, k),
    ensures
        cut_from(s, i) == s.len(),
    decreases s.len() - i,
{
    if i < s.len() {
        lemma_no_cut(s, i + 1);
    }
}

/// A card source that is the marker followed by a bare object literal
/// extracts to that literal, closed and with its keys quoted: cutting at a
/// blank line changes nothing, so `extract_card` gives exactly what parsing
/// the closed, key-quoted literal gives. A final comma before the closing
/// brace is dropped; a literal whose last field has no comma and whose `}`
/// stands on its own line is kept as it is.
pub proof fn lemma_plain_literal(lit: Seq<char>)
    requires
        plain_literal(lit),
    ensures
        extracted(marker() + lit) == Some(quote_keys(close_object(lit))),
        lit.len() >= 3 && lit[lit.len() - 2] == '\n' && !is_ws(lit[lit.len() - 3]) && lit[lit.len()
            - 3] != ',' ==> close_object(lit) == lit,
{
    let t = marker() + lit;
    let n = marker().len() as int;
    assert forall|k: int| !occurs_at(t, line_open(), k) && !occurs_at(t, block_open(), k) by {
        lemma_shifted_occurrence(lit, line_open(), k);
        lemma_shifted_occurrence(lit, block_open(), k);
    }
    lemma_strip_plain(t, 0);
    assert(t.subrange(0, t.len() as int) =~= t);
    assert(strip_comments(t) == t);
    assert(t[0] == 'm');
    assert(trim_start(t) == t);
    assert(t.last() == '}');
    assert(trim(t) == t);
    assert(t.subrange(0, n) =~= marker());
    assert(first_from(t, marker(), 0) == 0);
    assert(t.subrange(n, t.len() as int) =~= lit);
    lemma_no_occurrence(lit, marker(), 0);
    lemma_no_cut(lit, 0);
    assert(lit.subrange(0, lit.len() as int) =~= lit);
    assert(trim_start(lit) == lit);
    assert(trim(lit) == lit);
    if lit.len() >= 3 && lit[lit.len() - 2] == '\n' && !is_ws(lit[lit.len() - 3]) && lit[lit.len()
        - 3] != ',' {
        let x = lit.drop_last().drop_last();
        assert(lit.drop_last().drop_last() == x);
        assert(trim_tail(lit.drop_last()) == trim_tail(x));
        assert(trim_tail(x) == x);
        assert(x + seq!['\n', '}'] =~= lit);
    }
}

/// Filtering with a predicate that holds of every card keeps every card, in
/// order.
pub proof fn lemma_filter_all(cs: Seq<CardView>, keep: Seq<bool>)
    requires
        keep.len() == cs.len(),
        forall|i: int| 0 <= i < keep.len() ==> keep[i],
    ensures
        kept(cs, keep) == cs,
    decreases cs.len(),
{
    if cs.len() > 0 {
        lemma_filter_all(cs.drop_last(), keep.drop_last());
        assert(cs.drop_last().push(cs.last()) =~= cs);
    }
}

/// Filtering with a predicate that holds of no card keeps nothing.
pub proof fn lemma_filter_none(cs: Seq<CardView>, keep: Seq<bool>)
    requires
        keep.len() == cs.len(),
        forall|i: int| 0 <= i < keep.len() ==> !keep[i],
    ensures
        kept(cs, keep) == Seq::<CardView>::empty(),
    decreases cs.len(),
{
    if cs.len() > 0 {
        lemma_filter_none(cs.drop_last(), keep.drop_last());
    }
}

/// `add` with an argument that names no card fails with `CardNotFound` and
/// leaves the deck as it was.
pub proof fn lemma_add_unknown_card(
    reg: Map<Seq<char>, Command>,
    line: Seq<char>,
    deck: Seq<CardView>,
    cards: Seq<CardView>,
)
    requires
        reg.contains_key(add_name()),
        reg[add_name()] == Command::Add,
        split_command(line).0 == add_name(),
        first_match(cards, split_command(line).1) < 0,
    ensures
        dispatched(reg, line, deck, cards) == (deck, Err::<Action, DeckError>(
            DeckError::CardNotFound,
        )),
{
}

proof fn lemma_only_match(cs: Seq<CardView>, q: Seq<char>, k: int, i: int)
    requires
        0 <= i <= k < cs.len(),
        card_matches(cs[k], q),
        forall|j: int| 0 <= j < cs.len() && j != k ==> !card_matches(#[trigger] cs[j], q),
    ensures
        first_match_from(cs, q, i) == k,
    decreases k - i,
{
    if i < k {
        lemma_only_match(cs, q, k, i + 1);
    }
}

/// Looking a card up by its name and by its id gives the same record, when
/// that card is the only one that either text matches.
pub proof fn lemma_name_and_id_agree(
    cs: Seq<CardView>,
    by_name: Seq<char>,
    by_id: Seq<char>,
    k: int,
)
    requires
        0 <= k < cs.len(),
        card_matches(cs[k], by_name),
        card_matches(cs[k], by_id),
        forall|j: int|
            0 <= j < cs.len() && j != k ==> !card_matches(#[trigger] cs[j], by_name)
                && !card_matches(cs[j], by_id),
    ensures
        first_match(cs, by_name) == k,
        first_match(cs, by_id) == k,
        cs[first_match(cs, by_name)] == cs[first_match(cs, by_id)],
{
    lemma_only_match(cs, by_name, k, 0);
    lemma_only_match(cs, by_id, k, 0);
}

} // verus!

//! The playable classes, read from the names of the starting-hero cards.
use vstd::prelude::*;
use crate::card::{Card, CardView, views};
use crate::text::{chars_of, string_of, string_views, sub_chars};

verus! {

/// Strict lexicographic order by code point, the order of `String`'s `Ord`.
pub open spec fn lex_lt(a: Seq<char>, b: Seq<char>) -> bool
    decreases a.len(),
{
    if a.len() == 0 {
        b.len() > 0
    } else if b.len() == 0 {
        false
    } else if a[0] != b[0] {
        a[0] < b[0]
    } else {
        lex_lt(a.drop_first(), b.drop_first())
    }
}

pub proof fn lemma_lex_irreflexive(a: Seq<char>)
    ensures
        !lex_lt(a, a),
    decreases a.len(),
{
    if a.len() > 0 {
        lemma_lex_irreflexive(a.drop_first());
    }
}

pub proof fn lemma_lex_transitive(a: Seq<char>, b: Seq<char>, c: Seq<char>)
    requires
        lex_lt(a, b),
        lex_lt(b, c),
    ensures
        lex_lt(a, c),
    decreases a.len(),
{
    if a.len() > 0 && b.len() > 0 && c.len() > 0 && a[0] == b[0] && b[0] == c[0] {
        lemma_lex_transitive(a.drop_first(), b.drop_first(), c.drop_first());
    }
}

pub proof fn lemma_lex_total(a: Seq<char>, b: Seq<char>)
    requires
        a != b,
    ensures
        lex_lt(a, b) || lex_lt(b, a),
    decreases a.len(),
{
    if a.len() == 0 && b.len() == 0 {
        assert(a =~= b);
    }
    if a.len() > 0 && b.len() > 0 && a[0] == b[0] {
        if a.drop_first() == b.drop_first() {
            assert(a =~= seq![a[0]] + a.drop_first());
            assert(b =~= seq![b[0]] + b.drop_first());
        }
        lemma_lex_total(a.drop_first(), b.drop_first());
    }
}

/// Each text of `s` comes strictly before the next: sorted, with no repeats.
pub open spec fn strictly_sorted(s: Seq<Seq<char>>) -> bool {
    forall|i: int, j: int| 0 <= i < j < s.len() ==> lex_lt(#[trigger] s[i], #[trigger] s[j])
}

/// The suffix that marks a starting-hero card.
pub open spec fn hero_suffix() -> Seq<char> {
    seq![' ', 'S', 't', 'a', 'r', 't', 'i', 'n', 'g', ' ', 'H', 'e', 'r', 'o']
}

/// The class that a card stands for: its name without the starting-hero
/// suffix, when the name ends with it.
pub open spec fn hero_class(c: CardView) -> Option<Seq<char>> {
    match c.name {
        Some(n) => if n.len() >= hero_suffix().len() && n.subrange(
            n.len() - hero_suffix().len(),
            n.len() as int,
        ) == hero_suffix() {
            Some(n.subrange(0, n.len() - hero_suffix().len()))
        } else {
            None
        },
        None => None,
    }
}

/// `x` is the class of some card of `cs`.
pub open spec fn is_class_of(cs: Seq<CardView>, x: Seq<char>) -> bool {
    exists|k: int| 0 <= k < cs.len() && #[trigger] hero_class(cs[k]) == Some(x)
}

pub open spec fn char_views(v: Seq<Vec<char>>) -> Seq<Seq<char>> {
    v.map_values(|w: Vec<char>| w@)
}

fn lex_less(a: &Vec<char>, b: &Vec<char>) -> (r: bool)
    ensures
        r == lex_lt(a@, b@),
{
    let mut i: usize = 0;
    assert(a@.subrange(0, a@.len() as int) =~= a@);
    assert(b@.subrange(0, b@.len() as int) =~= b@);
    while i < a.len() && i < b.len() && a[i] == b[i]
        invariant
            i <= a.len(),
            i <= b.len(),
            lex_lt(a@, b@) == lex_lt(
                a@.subrange(i as int, a@.len() as int),
                b@.subrange(i as int, b@.len() as int),
            ),
        decreases a.len() - i,
    {
        assert(a@.subrange(i as int, a@.len() as int).drop_first() =~= a@.subrange(
            i + 1,
            a@.len() as int,
        ));
        assert(b@.subrange(i as int, b@.len() as int).drop_first() =~= b@.subrange(
            i + 1,
            b@.len() as int,
        ));
        i = i + 1;
    }
    if i == a.len() {
        i < b.len()
    } else if i == b.len() {
        false
    } else {
        a[i] < b[i]
    }
}

/// Adds `x` to the strictly sorted `v` unless it is there already.
fn insert_sorted(v: &mut Vec<Vec<char>>, x: Vec<char>)
    requires
        strictly_sorted(char_views(old(v)@)),
    ensures
        strictly_sorted(char_views(final(v)@)),
        forall|y: Seq<char>|
            char_views(final(v)@).contains(y) <==> (char_views(old(v)@).contains(y) || y == x@),
{
    let ghost s = char_views(v@);
    let mut p: usize = 0;
    while p < v.len() && lex_less(&v[p], &x)
        invariant
            p <= v.len(),
            s == char_views(v@),
            forall|i: int| 0 <= i < p ==> lex_lt(#[trigger] s[i], x@),
        decreases v.len() - p,
    {
        p = p + 1;
    }
    if p < v.len() && !lex_less(&x, &v[p]) {
        proof {
            if s[p as int] != x@ {
                lemma_lex_total(s[p as int], x@);
            }
            assert(s[p as int] == x@);
        }
        return;
    }
    proof {
        if p < s.len() {
            lemma_lex_irreflexive(x@);
        }
    }
    v.insert(p, x);
    let ghost w = char_views(v@);
    assert(w =~= s.insert(p as int, x@));
    assert forall|i: int, j: int| 0 <= i < j < w.len() implies lex_lt(#[trigger] w[i], #[trigger] w[j]) by {
        if j < p {
        } else if j == p {
        } else if i < p {
        } else if i == p {
            if j - 1 > p {
                lemma_lex_transitive(x@, s[p as int], s[j - 1]);
            }
        } else {
        }
    }
    assert forall|y: Seq<char>| w.contains(y) <==> (s.contains(y) || y == x@) by {
        if w.contains(y) {
            let i = choose|i: int| 0 <= i < w.len() && w[i] == y;
            if i < p {
                assert(s[i] == y);
            } else if i > p {
                assert(s[i - 1] == y);
            }
        }
        if s.contains(y) {
            let i = choose|i: int| 0 <= i < s.len() && s[i] == y;
            if i < p {
                assert(w[i] == y);
            } else {
                assert(w[i + 1] == y);
            }
        }
        if y == x@ {
            assert(w[p as int] == y);
        }
    }
}

fn hero_suffix_chars() -> (r: Vec<char>)
    ensures
        r@ == hero_suffix(),
{
    let r = vec![' ', 'S', 't', 'a', 'r', 't', 'i', 'n', 'g', ' ', 'H', 'e', 'r', 'o'];
    assert(r@ =~= hero_suffix());
    r
}

/// The class a card stands for, when it is a starting-hero card.
fn card_class(c: &Card, suffix: &Vec<char>) -> (r: Option<Vec<char>>)
    requires
        suffix@ == hero_suffix(),
    ensures
        match r {
            Some(x) => hero_class(c@) == Some(x@),
            None => hero_class(c@) is None,
        },
{
    match &c.name {
        None => None,
        Some(n) => {
            assert(c@.name == Some(n@));
            let cs = chars_of(n.as_str());
            let l = suffix.len();
            if cs.len() < l {
                return None;
            }
            let mut k: usize = 0;
            while k < l
                invariant
                    l == suffix@.len() <= cs@.len(),
                    suffix@ == hero_suffix(),
                    cs@ == n@,
                    c@.name == Some(n@),
                    k <= l,
                    forall|t: int| 0 <= t < k ==> cs@[cs@.len() - l + t] == suffix@[t],
                decreases l - k,
            {
                if cs[cs.len() - l + k] != suffix[k] {
                    assert(cs@.subrange(cs@.len() - l, cs@.len() as int)[k as int] != suffix@[k as int]);
                    assert(cs@.subrange(cs@.len() - l, cs@.len() as int) != hero_suffix());
                    assert(hero_class(c@) is None);
                    return None;
                }
                k = k + 1;
            }
            assert(cs@.subrange(cs@.len() - l, cs@.len() as int) =~= suffix@);
            Some(sub_chars(&cs, 0, cs.len() - l))
        },
    }
}

/// The classes of the starting-hero cards: each name that ends with
/// ` Starting Hero`, without that suffix, once each, in ascending order.
pub fn find_classes(cards: &[Card]) -> (r: Vec<String>)
    ensures
        strictly_sorted(string_views(r@)),
        forall|x: Seq<char>|
            string_views(r@).contains(x) <==> is_class_of(views(cards@), x),
{
    let suffix = hero_suffix_chars();
    let mut v: Vec<Vec<char>> = Vec::new();
    let mut i: usize = 0;
    while i < cards.len()
        invariant
            i <= cards@.len(),
            suffix@ == hero_suffix(),
            strictly_sorted(char_views(v@)),
            forall|x: Seq<char>|
                char_views(v@).contains(x) <==> is_class_of(
                    views(cards@).subrange(0, i as int),
                    x,
                ),
        decreases cards.len() - i,
    {
        let ghost before = char_views(v@);
        let cc = card_class(&cards[i], &suffix);
        let ghost pre = views(cards@).subrange(0, i as int);
        let ghost post = views(cards@).subrange(0, i + 1);
        assert(post[i as int] == cards@[i as int]@);
        match cc {
            Some(x) => {
                let ghost xv = x@;
                insert_sorted(&mut v, x);
                assert forall|y: Seq<char>| is_class_of(post, y) <==> (is_class_of(pre, y) || y == xv) by {
                    if is_class_of(post, y) {
                        let k = choose|k: int| 0 <= k < post.len() && #[trigger] hero_class(post[k]) == Some(y);
                        if k < i {
                            assert(pre[k] == post[k]);
                        }
                    }
                    if is_class_of(pre, y) {
                        let k = choose|k: int| 0 <= k < pre.len() && #[trigger] hero_class(pre[k]) == Some(y);
                        assert(pre[k] == post[k]);
                    }
                }
            },
            None => {
                assert forall|y: Seq<char>| is_class_of(post, y) <==> is_class_of(pre, y) by {
                    if is_class_of(post, y) {
                        let k = choose|k: int| 0 <= k < post.len() && #[trigger] hero_class(post[k]) == Some(y);
                        if k < i {
                            assert(pre[k] == post[k]);
                        }
                    }
                    if is_class_of(pre, y) {
                        let k = choose|k: int| 0 <= k < pre.len() && #[trigger] hero_class(pre[k]) == Some(y);
                        assert(pre[k] == post[k]);
                    }
                }
            },
        }
        i = i + 1;
    }
    assert(views(cards@).subrange(0, cards@.len() as int) =~= views(cards@));
    let mut out: Vec<String> = Vec::new();
    let mut j: usize = 0;
    while j < v.len()
        invariant
            j <= v.len(),
            string_views(out@) == char_views(v@).subrange(0, j as int),
        decreases v.len() - j,
    {
        let s = string_of(&v[j]);
        let ghost prev = out@;
        out.push(s);
        assert(string_views(out@) =~= string_views(prev).push(s@));
        assert(char_views(v@).subrange(0, j + 1) =~= char_views(v@).subrange(0, j as int).push(v@[j as int]@));
        j = j + 1;
    }
    assert(char_views(v@).subrange(0, v@.len() as int) =~= char_views(v@));
    out
}

} // verus!

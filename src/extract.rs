//! Turns a card's script source into the JSON text of its record.
//!
//! A card source assigns an object literal to `module.exports`, with bare
//! keys, comments, and methods after the data fields. Extraction removes the
//! comments, keeps the literal up to the first blank line, closes it and
//! quotes its keys.
use vstd::prelude::*;
use crate::error::DeckError;
use crate::text::{
    chars_of, find_from, first_from, is_whitespace, is_ws, lemma_first_from_bounds, occurs_at,
    occurs_at_exec, string_of, sub_chars, trim, trim_chars, trim_end,
};

verus! {

/// The assignment that introduces a card's object literal.
pub open spec fn marker() -> Seq<char> {
    seq!['m', 'o', 'd', 'u', 'l', 'e', '.', 'e', 'x', 'p', 'o', 'r', 't', 's', ' ', '=', ' ']
}

pub open spec fn line_open() -> Seq<char> {
    seq!['/', '/']
}

pub open spec fn block_open() -> Seq<char> {
    seq!['/', '*']
}

pub open spec fn block_close() -> Seq<char> {
    seq!['*', '/']
}

pub open spec fn newline() -> Seq<char> {
    seq!['\n']
}

/// The separator between a key and its value.
pub open spec fn key_sep() -> Seq<char> {
    seq![':', ' ']
}

/// Where the comment scanner stands.
pub enum Scan {
    Code,
    Line,
    Block,
}

/// The text from `i` on with its comments removed, when scanning in `mode`.
/// A line comment runs from `//` up to the end of its line, whose newline stays;
/// a block comment runs from `/*` to the first `*/` after it, and a `/*` that
/// no `*/` follows is plain text.
pub open spec fn strip_from(s: Seq<char>, i: int, mode: Scan) -> Seq<char>
    decreases s.len() - i,
{
    if i < 0 || i >= s.len() {
        Seq::empty()
    } else {
        match mode {
            Scan::Line => if s[i] == '\n' {
                seq!['\n'] + strip_from(s, i + 1, Scan::Code)
            } else {
                strip_from(s, i + 1, Scan::Line)
            },
            Scan::Block => if occurs_at(s, block_close(), i) {
                strip_from(s, i + 2, Scan::Code)
            } else {
                strip_from(s, i + 1, Scan::Block)
            },
            Scan::Code => if occurs_at(s, line_open(), i) {
                strip_from(s, i + 2, Scan::Line)
            } else if occurs_at(s, block_open(), i) && first_from(s, block_close(), i + 2) >= 0 {
                strip_from(s, i + 2, Scan::Block)
            } else {
                seq![s[i]] + strip_from(s, i + 1, Scan::Code)
            },
        }
    }
}

pub open spec fn strip_comments(s: Seq<char>) -> Seq<char> {
    strip_from(s, 0, Scan::Code)
}

/// A newline at `k` that only whitespace separates from a further newline:
/// the start of a blank line.
pub open spec fn is_boundary(s: Seq<char>, k: int) -> bool {
    &&& 0 <= k < s.len()
    &&& s[k] == '\n'
    &&& exists|m: int|
        k < m < s.len() && s[m] == '\n' && forall|j: int| k < j < m ==> #[trigger] is_ws(s[j])
}

/// The first blank-line boundary at or after `i`, or the length of `s`.
pub open spec fn cut_from(s: Seq<char>, i: int) -> int
    decreases s.len() - i,
{
    if i < 0 || i >= s.len() {
        s.len() as int
    } else if is_boundary(s, i) {
        i
    } else {
        cut_from(s, i + 1)
    }
}

/// `s` without its trailing whitespace and commas.
pub open spec fn trim_tail(s: Seq<char>) -> Seq<char>
    decreases s.len(),
{
    if s.len() > 0 && (is_ws(s.last()) || s.last() == ',') {
        trim_tail(s.drop_last())
    } else {
        s
    }
}

/// Closes the object literal: when it ends in `}` or in `,`, every comma and
/// whitespace before that end goes, and a single `\n}` ends it.
pub open spec fn close_object(t: Seq<char>) -> Seq<char> {
    if t.len() > 0 && t.last() == '}' {
        trim_tail(t.drop_last()) + seq!['\n', '}']
    } else if t.len() > 0 && t.last() == ',' {
        trim_tail(t) + seq!['\n', '}']
    } else {
        t
    }
}

/// The text ends in a single `}` with no comma before it (whitespace aside).
pub open spec fn closes_cleanly(j: Seq<char>) -> bool {
    &&& j.len() > 0
    &&& j.last() == '}'
    &&& (trim_end(j.drop_last()).len() == 0 || trim_end(j.drop_last()).last() != ',')
}

/// A character that may stand in a bare key. Keys of card sources are
/// ASCII identifiers: a key with other characters is not recognised as one.
pub open spec fn is_word(c: char) -> bool {
    ('a' <= c && c <= 'z') || ('A' <= c && c <= 'Z') || ('0' <= c && c <= '9') || c == '_'
}

/// The start of the run of key characters that ends at `j`.
pub open spec fn word_start(l: Seq<char>, j: int) -> int
    decreases j,
{
    if 0 < j <= l.len() && is_word(l[j - 1]) {
        word_start(l, j - 1)
    } else {
        j
    }
}

/// One line with the key before its first `: ` put in double quotes.
pub open spec fn quote_line(l: Seq<char>) -> Seq<char> {
    let j = first_from(l, key_sep(), 0);
    if j < 0 {
        l
    } else {
        let w = word_start(l, j);
        l.subrange(0, w) + seq!['"'] + l.subrange(w, j) + seq!['"'] + l.subrange(j, l.len() as int)
    }
}

/// The lines from the line that starts at `i` on, each with its key quoted.
pub open spec fn quote_from(s: Seq<char>, i: int) -> Seq<char>
    decreases s.len() - i,
    via quote_from_decreases
{
    if i < 0 || i > s.len() {
        Seq::empty()
    } else {
        let e = first_from(s, newline(), i);
        if e < 0 {
            quote_line(s.subrange(i, s.len() as int))
        } else {
            quote_line(s.subrange(i, e)) + newline() + quote_from(s, e + 1)
        }
    }
}

#[via_fn]
proof fn quote_from_decreases(s: Seq<char>, i: int) {
    if 0 <= i {
        lemma_first_from_bounds(s, newline(), i);
    }
}

pub open spec fn quote_keys(s: Seq<char>) -> Seq<char> {
    quote_from(s, 0)
}

/// The object literal of `text`, or `None` when `text` (once its comments are
/// removed) has no `module.exports = ` marker. The literal is taken up to the
/// next marker, cut at its first blank line (all of it when there is none),
/// and trimmed.
pub open spec fn literal_of(text: Seq<char>) -> Option<Seq<char>> {
    let t = trim(strip_comments(text));
    let m = first_from(t, marker(), 0);
    if m < 0 {
        None
    } else {
        let after = t.subrange(m + marker().len(), t.len() as int);
        let n = first_from(after, marker(), 0);
        let seg = if n < 0 {
            after
        } else {
            after.subrange(0, n)
        };
        Some(trim(seg.subrange(0, cut_from(seg, 0))))
    }
}

/// The JSON text of the record in `text`: its literal, closed and key-quoted.
pub open spec fn extracted(text: Seq<char>) -> Option<Seq<char>> {
    match literal_of(text) {
        None => None,
        Some(body) => Some(quote_keys(close_object(body))),
    }
}

/// The literal ends in `,` or `}`, so that closing it applies.
pub open spec fn ends_open(t: Seq<char>) -> bool {
    t.len() > 0 && (t.last() == ',' || t.last() == '}')
}

/// When the literal of `text` ends in `,` or `}`, the JSON text `j` ends in a
/// single `}` with no comma before it.
pub open spec fn cleanly_closed(text: Seq<char>, j: Seq<char>) -> bool {
    match literal_of(text) {
        Some(b) => ends_open(b) ==> closes_cleanly(j),
        None => true,
    }
}

proof fn lemma_trim_tail_last(s: Seq<char>)
    ensures
        trim_tail(s).len() > 0 ==> !is_ws(trim_tail(s).last()) && trim_tail(s).last() != ',',
    decreases s.len(),
{
    if s.len() > 0 && (is_ws(s.last()) || s.last() == ',') {
        lemma_trim_tail_last(s.drop_last());
    }
}

proof fn lemma_newline_in_closed(s: Seq<char>, i: int)
    requires
        0 <= i <= s.len(),
    ensures
        first_from(s + seq!['\n', '}'], newline(), i) == if first_from(s, newline(), i) >= 0 {
            first_from(s, newline(), i)
        } else {
            s.len() as int
        },
    decreases s.len() - i,
{
    let s2 = s + seq!['\n', '}'];
    if i == s.len() {
        assert(s2.subrange(i, i + 1) =~= newline());
    } else {
        assert(s2.subrange(i, i + 1) =~= s.subrange(i, i + 1));
        if !occurs_at(s, newline(), i) {
            lemma_newline_in_closed(s, i + 1);
        }
    }
}

proof fn lemma_quote_closed(s: Seq<char>, i: int)
    requires
        0 <= i <= s.len(),
    ensures
        quote_from(s + seq!['\n', '}'], i) == quote_from(s, i) + seq!['\n', '}'],
    decreases s.len() - i,
{
    let s2 = s + seq!['\n', '}'];
    let n = s.len() as int;
    lemma_first_from_bounds(s, newline(), i);
    lemma_newline_in_closed(s, i);
    let e = first_from(s, newline(), i);
    if e >= 0 {
        lemma_quote_closed(s, e + 1);
        assert(s2.subrange(i, e) =~= s.subrange(i, e));
        assert(quote_from(s2, i) == quote_line(s2.subrange(i, e)) + newline() + quote_from(s2, e + 1));
        assert(quote_from(s, i) == quote_line(s.subrange(i, e)) + newline() + quote_from(s, e + 1));
        assert(quote_line(s.subrange(i, e)) + newline() + (quote_from(s, e + 1) + seq!['\n', '}'])
            =~= quote_line(s.subrange(i, e)) + newline() + quote_from(s, e + 1) + seq!['\n', '}']);
    } else {
        assert(s2.subrange(n + 1, n + 1 + 1) =~= seq!['}']);
        assert(s2.subrange(n + 1, n + 1 + 1)[0] != newline()[0]);
        assert(!occurs_at(s2, newline(), n + 1));
        assert(first_from(s2, newline(), n + 2) == -1);
        assert(first_from(s2, newline(), n + 1) == -1);
        assert(s2.subrange(n + 1, s2.len() as int) =~= seq!['}']);
        assert(first_from(seq!['}'], key_sep(), 0) == -1);
        assert(quote_line(seq!['}']) == seq!['}']);
        assert(s2.subrange(i, n) =~= s.subrange(i, n));
        assert(quote_from(s2, i) == quote_line(s2.subrange(i, n)) + newline() + quote_from(s2, n + 1));
        assert(quote_from(s, i) == quote_line(s.subrange(i, n)));
        assert(quote_line(s.subrange(i, n)) + newline() + seq!['}'] =~= quote_line(s.subrange(i, n))
            + seq!['\n', '}']);
    }
}

proof fn lemma_quote_line_last(l: Seq<char>)
    requires
        l.len() > 0,
    ensures
        quote_line(l).len() > 0,
        quote_line(l).last() == l.last(),
{
    lemma_first_from_bounds(l, key_sep(), 0);
    let j = first_from(l, key_sep(), 0);
    if j >= 0 {
        let w = word_start(l, j);
        let tail = l.subrange(j, l.len() as int);
        let head = l.subrange(0, w) + seq!['"'] + l.subrange(w, j) + seq!['"'];
        assert(quote_line(l) == head + tail);
        assert((head + tail)[head.len() + tail.len() - 1] == tail[tail.len() - 1]);
    }
}

proof fn lemma_quote_from_last(s: Seq<char>, i: int)
    requires
        0 <= i < s.len(),
        s.last() != '\n',
    ensures
        quote_from(s, i).len() > 0,
        quote_from(s, i).last() == s.last(),
    decreases s.len() - i,
{
    lemma_first_from_bounds(s, newline(), i);
    let e = first_from(s, newline(), i);
    if e >= 0 {
        assert(s.subrange(e, e + 1)[0] == s[e]);
        lemma_quote_from_last(s, e + 1);
        let a = quote_line(s.subrange(i, e)) + newline();
        let b = quote_from(s, e + 1);
        assert((a + b)[a.len() + b.len() - 1] == b[b.len() - 1]);
    } else {
        lemma_quote_line_last(s.subrange(i, s.len() as int));
    }
}

/// Closing a literal that ends in `,` or `}` and then quoting its keys ends
/// the text in a single `}` with no comma before it.
pub proof fn lemma_closed_cleanly(b: Seq<char>)
    requires
        ends_open(b),
    ensures
        closes_cleanly(quote_keys(close_object(b))),
{
    let base = if b.last() == '}' {
        b.drop_last()
    } else {
        b
    };
    let t = trim_tail(base);
    assert(close_object(b) == t + seq!['\n', '}']);
    lemma_quote_closed(t, 0);
    let q = quote_keys(t);
    let j = q + seq!['\n', '}'];
    assert(j.last() == '}');
    assert(j.drop_last() =~= q.push('\n'));
    assert(q.push('\n').drop_last() =~= q);
    assert(trim_end(j.drop_last()) == trim_end(q));
    lemma_trim_tail_last(base);
    if t.len() > 0 {
        lemma_quote_from_last(t, 0);
        assert(trim_end(q) == q);
    } else {
        assert(first_from(t, newline(), 0) == -1);
        assert(first_from(t, key_sep(), 0) == -1);
        assert(t.subrange(0, 0) =~= t);
        assert(q.len() == 0);
    }
}

fn seq2(a: char, b: char) -> (r: Vec<char>)
    ensures
        r@ == seq![a, b],
{
    let r = vec![a, b];
    assert(r@ =~= seq![a, b]);
    r
}

fn marker_chars() -> (r: Vec<char>)
    ensures
        r@ == marker(),
{
    let r = vec!['m', 'o', 'd', 'u', 'l', 'e', '.', 'e', 'x', 'p', 'o', 'r', 't', 's', ' ', '=', ' '];
    assert(r@ =~= marker());
    r
}

/// Removes line and block comments from `s`.
pub fn strip_comment_chars(s: &Vec<char>) -> (r: Vec<char>)
    ensures
        r@ == strip_comments(s@),
{
    let lo = seq2('/', '/');
    let bo = seq2('/', '*');
    let bc = seq2('*', '/');
    let mut out: Vec<char> = Vec::new();
    let mut mode = Scan::Code;
    let mut i: usize = 0;
    while i < s.len()
        invariant
            i <= s.len(),
            lo@ == line_open(),
            bo@ == block_open(),
            bc@ == block_close(),
            strip_comments(s@) == out@ + strip_from(s@, i as int, mode),
        decreases s.len() - i,
    {
        let c = s[i];
        match mode {
            Scan::Line => {
                if c == '\n' {
                    assert(out@.push(c) + strip_from(s@, i + 1, Scan::Code) =~= out@ + (seq![c]
                        + strip_from(s@, i + 1, Scan::Code)));
                    out.push(c);
                    mode = Scan::Code;
                }
                i = i + 1;
            },
            Scan::Block => {
                if occurs_at_exec(s, &bc, i) {
                    mode = Scan::Code;
                    i = i + 2;
                } else {
                    i = i + 1;
                }
            },
            Scan::Code => {
                if occurs_at_exec(s, &lo, i) {
                    mode = Scan::Line;
                    i = i + 2;
                } else if occurs_at_exec(s, &bo, i) && find_from(s, &bc, i + 2).is_some() {
                    mode = Scan::Block;
                    i = i + 2;
                } else {
                    assert(out@.push(c) + strip_from(s@, i + 1, Scan::Code) =~= out@ + (seq![c]
                        + strip_from(s@, i + 1, Scan::Code)));
                    out.push(c);
                    i = i + 1;
                }
            },
        }
    }
    assert(out@ + strip_from(s@, i as int, mode) =~= out@);
    out
}

/// Whether a blank-line boundary starts at `k`.
fn boundary_at(s: &Vec<char>, k: usize) -> (r: bool)
    requires
        k < s.len(),
    ensures
        r == is_boundary(s@, k as int),
{
    if s[k] != '\n' {
        return false;
    }
    let mut j: usize = k + 1;
    while j < s.len() && s[j] != '\n' && is_whitespace(s[j])
        invariant
            k < j <= s.len(),
            forall|t: int| k < t < j ==> is_ws(s@[t]) && s@[t] != '\n',
        decreases s.len() - j,
    {
        j = j + 1;
    }
    if j < s.len() && s[j] == '\n' {
        assert(forall|t: int| k < t < j ==> #[trigger] is_ws(s@[t]));
        true
    } else {
        assert forall|m: int|
            k < m < s.len() && s@[m] == '\n' implies !(forall|t: int|
                k < t < m ==> #[trigger] is_ws(s@[t])) by {
            if m > j {
                assert(k < j < m);
            }
        }
        false
    }
}

/// The position of the first blank-line boundary in `s`, or its length.
fn cut_index(s: &Vec<char>) -> (r: usize)
    ensures
        r == cut_from(s@, 0),
{
    let mut i: usize = 0;
    while i < s.len()
        invariant
            i <= s.len(),
            cut_from(s@, 0) == cut_from(s@, i as int),
        decreases s.len() - i,
    {
        if boundary_at(s, i) {
            return i;
        }
        i = i + 1;
    }
    i
}

/// `t[..j]` without its trailing whitespace and commas.
fn trim_tail_chars(t: &Vec<char>, j: usize) -> (r: Vec<char>)
    requires
        j <= t.len(),
    ensures
        r@ == trim_tail(t@.subrange(0, j as int)),
{
    let mut k: usize = j;
    while k > 0 && (is_whitespace(t[k - 1]) || t[k - 1] == ',')
        invariant
            k <= j <= t.len(),
            trim_tail(t@.subrange(0, j as int)) == trim_tail(t@.subrange(0, k as int)),
        decreases k,
    {
        assert(t@.subrange(0, k as int).drop_last() =~= t@.subrange(0, k - 1));
        k = k - 1;
    }
    sub_chars(t, 0, k)
}

/// Ends the object literal in a single closing brace with no comma before it.
fn close_object_chars(t: &Vec<char>) -> (r: Vec<char>)
    ensures
        r@ == close_object(t@),
{
    let n = t.len();
    if n > 0 && (t[n - 1] == '}' || t[n - 1] == ',') {
        let end = if t[n - 1] == '}' {
            n - 1
        } else {
            n
        };
        let mut r = trim_tail_chars(t, end);
        r.push('\n');
        r.push('}');
        assert(t@.subrange(0, n as int) =~= t@);
        assert(t@.subrange(0, n - 1) =~= t@.drop_last());
        assert(r@ =~= trim_tail(t@.subrange(0, end as int)) + seq!['\n', '}']);
        r
    } else {
        t.clone()
    }
}

fn is_word_char(c: char) -> (r: bool)
    ensures
        r == is_word(c),
{
    ('a' <= c && c <= 'z') || ('A' <= c && c <= 'Z') || ('0' <= c && c <= '9') || c == '_'
}

/// Quotes the key of one line.
fn quote_line_chars(l: &Vec<char>) -> (r: Vec<char>)
    ensures
        r@ == quote_line(l@),
{
    let sep = seq2(':', ' ');
    match find_from(l, &sep, 0) {
        None => l.clone(),
        Some(j) => {
            proof {
                lemma_first_from_bounds(l@, key_sep(), 0);
            }
            let mut w: usize = j;
            while w > 0 && is_word_char(l[w - 1])
                invariant
                    w <= j <= l.len(),
                    word_start(l@, j as int) == word_start(l@, w as int),
                decreases w,
            {
                w = w - 1;
            }
            let mut r = sub_chars(l, 0, w);
            r.push('"');
            let mut key = sub_chars(l, w, j);
            r.append(&mut key);
            r.push('"');
            let mut rest = sub_chars(l, j, l.len());
            r.append(&mut rest);
            assert(r@ =~= l@.subrange(0, w as int) + seq!['"'] + l@.subrange(w as int, j as int)
                + seq!['"'] + l@.subrange(j as int, l@.len() as int));
            r
        },
    }
}

/// Quotes the key of every line of `s`.
pub fn quote_key_chars(s: &Vec<char>) -> (r: Vec<char>)
    ensures
        r@ == quote_keys(s@),
{
    let nl = vec!['\n'];
    assert(nl@ =~= newline());
    let mut out: Vec<char> = Vec::new();
    let mut i: usize = 0;
    loop
        invariant
            i <= s.len(),
            nl@ == newline(),
            quote_keys(s@) == out@ + quote_from(s@, i as int),
        decreases s.len() - i,
    {
        proof {
            lemma_first_from_bounds(s@, newline(), i as int);
        }
        match find_from(s, &nl, i) {
            None => {
                let mut q = quote_line_chars(&sub_chars(s, i, s.len()));
                out.append(&mut q);
                return out;
            },
            Some(e) => {
                let mut q = quote_line_chars(&sub_chars(s, i, e));
                let ghost prev = out@;
                out.append(&mut q);
                out.push('\n');
                assert(out@ + quote_from(s@, e + 1) =~= prev + (quote_line(s@.subrange(i as int, e as int)) + newline()
                    + quote_from(s@, e + 1)));
                i = e + 1;
            },
        }
    }
}

/// The JSON text of the card record that `text` assigns to `module.exports`.
///
/// Comments are removed and the text trimmed; the literal after the marker is
/// cut at its first blank line (a literal without one is kept whole), trimmed,
/// closed with a single `}` and given quoted keys.
pub fn extract_json_from_card(text: &str) -> (r: Result<String, DeckError>)
    ensures
        match r {
            Ok(j) => extracted(text@) == Some(j@) && cleanly_closed(text@, j@),
            Err(e) => extracted(text@) is None && e is MarkerNotFound,
        },
{
    let s = chars_of(text);
    let stripped = strip_comment_chars(&s);
    let t = trim_chars(&stripped);
    let mk = marker_chars();
    match find_from(&t, &mk, 0) {
        None => Err(DeckError::MarkerNotFound),
        Some(m) => {
            proof {
                lemma_first_from_bounds(t@, marker(), 0);
            }
            let after = sub_chars(&t, m + mk.len(), t.len());
            let seg = match find_from(&after, &mk, 0) {
                None => after,
                Some(n) => {
                    proof {
                        lemma_first_from_bounds(after@, marker(), 0);
                    }
                    sub_chars(&after, 0, n)
                },
            };
            let c = cut_index(&seg);
            proof {
                lemma_cut_bounds(seg@, 0);
            }
            let body = trim_chars(&sub_chars(&seg, 0, c));
            let closed = close_object_chars(&body);
            proof {
                if ends_open(body@) {
                    lemma_closed_cleanly(body@);
                }
            }
            let quoted = quote_key_chars(&closed);
            Ok(string_of(&quoted))
        },
    }
}

pub proof fn lemma_cut_bounds(s: Seq<char>, i: int)
    requires
        0 <= i,
    ensures
        i <= cut_from(s, i) <= s.len() || (i > s.len() && cut_from(s, i) == s.len()),
    decreases s.len() - i,
{
    if i < s.len() && !is_boundary(s, i) {
        lemma_cut_bounds(s, i + 1);
    }
}

} // verus!

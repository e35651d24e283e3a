//! Which card sources are loaded, and the card set that loading them gives.
//! Reading the directory is left to the caller, which hands over each file's
//! path and text.
use vstd::prelude::*;
use crate::card::{Card, CardView, card_from_json, extract_card, views};
use crate::error::DeckError;
use crate::extract::extracted;
use crate::text::{chars_of, find_from, first_from, occurs_at, occurs_at_exec, sub_chars};

verus! {

/// One card source file: its path and its text.
pub struct SourceRecord {
    pub path: String,
    pub text: String,
}

pub open spec fn source_views(s: Seq<SourceRecord>) -> Seq<(Seq<char>, Seq<char>)> {
    s.map_values(|r: SourceRecord| (r.path@, r.text@))
}

pub open spec fn script_ext() -> Seq<char> {
    seq!['.', 'j', 's']
}

pub open spec fn tests_dir() -> Seq<char> {
    seq!['T', 'e', 's', 't', 's']
}

pub open spec fn examples_dir() -> Seq<char> {
    seq!['E', 'x', 'a', 'm', 'p', 'l', 'e', 's']
}

/// The start of the last path segment among the first `j` characters.
pub open spec fn name_start(p: Seq<char>, j: int) -> int
    decreases j,
{
    if 0 < j <= p.len() && p[j - 1] != '/' {
        name_start(p, j - 1)
    } else {
        j
    }
}

/// The last segment of a path.
pub open spec fn file_name(p: Seq<char>) -> Seq<char> {
    p.subrange(name_start(p, p.len() as int), p.len() as int)
}

/// `seg` is a whole segment of `p` at position `i`.
pub open spec fn segment_at(p: Seq<char>, seg: Seq<char>, i: int) -> bool {
    &&& occurs_at(p, seg, i)
    &&& (i == 0 || p[i - 1] == '/')
    &&& (i + seg.len() == p.len() || p[i + seg.len()] == '/')
}

pub open spec fn has_segment(p: Seq<char>, seg: Seq<char>) -> bool {
    exists|i: int| segment_at(p, seg, i)
}

/// A path is loaded when its file name contains `.js` and no segment of it
/// is `Tests` or `Examples`.
pub open spec fn is_card_path(p: Seq<char>) -> bool {
    &&& first_from(file_name(p), script_ext(), 0) >= 0
    &&& !has_segment(p, tests_dir())
    &&& !has_segment(p, examples_dir())
}

/// The card that a source defines, when extraction and parsing succeed.
pub open spec fn source_card(text: Seq<char>) -> Option<CardView> {
    match extracted(text) {
        None => None,
        Some(j) => card_from_json(j),
    }
}

/// `e` is the error that extracting the card of `text` reports.
pub open spec fn source_error(text: Seq<char>, e: DeckError) -> bool {
    match extracted(text) {
        None => e is MarkerNotFound,
        Some(j) => e matches DeckError::MalformedRecord(t) && t@ == j,
    }
}

/// The first loaded source at or after `i` whose card fails, or -1.
pub open spec fn first_failure(s: Seq<(Seq<char>, Seq<char>)>, i: int) -> int
    decreases s.len() - i,
{
    if i < 0 || i >= s.len() {
        -1
    } else if is_card_path(s[i].0) && source_card(s[i].1) is None {
        i
    } else {
        first_failure(s, i + 1)
    }
}

/// The cards of the loaded sources, in order.
pub open spec fn loaded_cards(s: Seq<(Seq<char>, Seq<char>)>) -> Seq<CardView>
    decreases s.len(),
{
    if s.len() == 0 {
        Seq::empty()
    } else {
        let rest = loaded_cards(s.drop_last());
        if is_card_path(s.last().0) && source_card(s.last().1) is Some {
            rest.push(source_card(s.last().1).unwrap())
        } else {
            rest
        }
    }
}

fn has_segment_exec(p: &Vec<char>, seg: &Vec<char>) -> (r: bool)
    requires
        seg@.len() > 0,
    ensures
        r == has_segment(p@, seg@),
{
    let mut i: usize = 0;
    while i < p.len()
        invariant
            i <= p.len(),
            seg@.len() > 0,
            forall|j: int| 0 <= j < i ==> !segment_at(p@, seg@, j),
        decreases p.len() - i,
    {
        if occurs_at_exec(p, seg, i) && (i == 0 || p[i - 1] == '/') && (i + seg.len() == p.len()
            || p[i + seg.len()] == '/') {
            assert(segment_at(p@, seg@, i as int));
            return true;
        }
        i = i + 1;
    }
    assert forall|j: int| !segment_at(p@, seg@, j) by {
        if j >= p@.len() {
            assert(!occurs_at(p@, seg@, j));
        }
    }
    false
}

/// Whether the file at `path` is a card source to load.
pub fn is_card_path_exec(path: &str) -> (r: bool)
    ensures
        r == is_card_path(path@),
{
    let p = chars_of(path);
    let mut s: usize = p.len();
    while s > 0 && p[s - 1] != '/'
        invariant
            s <= p.len(),
            name_start(p@, p@.len() as int) == name_start(p@, s as int),
        decreases s,
    {
        s = s - 1;
    }
    let name = sub_chars(&p, s, p.len());
    let ext = vec!['.', 'j', 's'];
    assert(ext@ =~= script_ext());
    if find_from(&name, &ext, 0).is_none() {
        return false;
    }
    let tests = vec!['T', 'e', 's', 't', 's'];
    assert(tests@ =~= tests_dir());
    let examples = vec!['E', 'x', 'a', 'm', 'p', 'l', 'e', 's'];
    assert(examples@ =~= examples_dir());
    !has_segment_exec(&p, &tests) && !has_segment_exec(&p, &examples)
}

/// The cards of the given sources, in their order. Sources whose path is not
/// a card path are passed over; the first loaded source whose card cannot be
/// extracted ends the load with that error, and no card is returned.
pub fn load_cards(sources: &[SourceRecord]) -> (r: Result<Vec<Card>, DeckError>)
    ensures
        first_failure(source_views(sources@), 0) < 0 ==> (r matches Ok(cs) && views(cs@)
            == loaded_cards(source_views(sources@))),
        first_failure(source_views(sources@), 0) >= 0 ==> (r matches Err(e) && source_error(
            source_views(sources@)[first_failure(source_views(sources@), 0)].1,
            e,
        )),
{
    let ghost sv = source_views(sources@);
    let mut out: Vec<Card> = Vec::new();
    let mut i: usize = 0;
    while i < sources.len()
        invariant
            i <= sources@.len(),
            sv == source_views(sources@),
            first_failure(sv, 0) == first_failure(sv, i as int),
            views(out@) == loaded_cards(sv.subrange(0, i as int)),
        decreases sources.len() - i,
    {
        assert(sv[i as int] == (sources@[i as int].path@, sources@[i as int].text@));
        assert(sv.subrange(0, i + 1).drop_last() =~= sv.subrange(0, i as int));
        if is_card_path_exec(sources[i].path.as_str()) {
            match extract_card(sources[i].text.as_str()) {
                Err(e) => {
                    return Err(e);
                },
                Ok(c) => {
                    let ghost prev = out@;
                    out.push(c);
                    assert(views(out@) =~= views(prev).push(c@));
                },
            }
        }
        i = i + 1;
    }
    assert(sv.subrange(0, sv.len() as int) =~= sv);
    Ok(out)
}

} // verus!

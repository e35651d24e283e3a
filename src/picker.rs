//! Choosing a class, and for the rune-bearing class three runes, one answer
//! at a time.
use vstd::prelude::*;
use crate::error::DeckError;
use crate::text::{
    capitalize, capitalized, chars_of, is_whitespace, lemma_ws_from_bounds, lower_of, lowercase,
    string_of, string_views, sub_chars, ws_from,
};

verus! {

/// The class chosen for a deck, with its runes (none, or three of B, F, U).
#[derive(Debug)]
pub struct ClassSelection {
    pub class_name: String,
    pub runes: String,
}

/// Each whitespace-separated word of `s` from position `i` on, capitalised;
/// the whitespace between words is kept.
pub open spec fn capitalize_from(s: Seq<char>, i: int) -> Seq<char>
    decreases s.len() - i,
    via capitalize_from_decreases
{
    if i < 0 || i > s.len() {
        Seq::empty()
    } else {
        let e = ws_from(s, i);
        if e >= s.len() {
            capitalized(s.subrange(i, s.len() as int))
        } else {
            capitalized(s.subrange(i, e)) + seq![s[e]] + capitalize_from(s, e + 1)
        }
    }
}

#[via_fn]
proof fn capitalize_from_decreases(s: Seq<char>, i: int) {
    if 0 <= i <= s.len() {
        lemma_ws_from_bounds(s, i);
    }
}

/// `s` with every whitespace-separated word capitalised.
pub open spec fn capitalize_words(s: Seq<char>) -> Seq<char> {
    capitalize_from(s, 0)
}

/// Capitalises every whitespace-separated word of `s`.
pub fn normalize_class(s: &str) -> (r: String)
    ensures
        r@ == capitalize_words(s@),
{
    let cs = chars_of(s);
    let mut out = String::new();
    let mut i: usize = 0;
    loop
        invariant
            i <= cs.len(),
            cs@ == s@,
            capitalize_words(s@) == out@ + capitalize_from(s@, i as int),
        decreases cs.len() - i,
    {
        let mut e: usize = i;
        while e < cs.len() && !is_whitespace(cs[e])
            invariant
                i <= e <= cs.len(),
                ws_from(cs@, i as int) == ws_from(cs@, e as int),
            decreases cs.len() - e,
        {
            e = e + 1;
        }
        let word = string_of(&sub_chars(&cs, i, e));
        let c = capitalize(word.as_str());
        if e >= cs.len() {
            return out.concat(c.as_str());
        }
        let ghost prev = out@;
        let sep = string_of(&sub_chars(&cs, e, e + 1));
        out = out.concat(c.as_str());
        out = out.concat(sep.as_str());
        proof {
            assert(cs@.subrange(e as int, e + 1) =~= seq![cs@[e as int]]);
            assert(out@ + capitalize_from(s@, e + 1) =~= prev + (capitalized(
                s@.subrange(i as int, e as int),
            ) + seq![s@[e as int]] + capitalize_from(s@, e + 1)));
        }
        i = e + 1;
    }
}

/// `name` is one of `classes`, ignoring case.
pub open spec fn class_ok(classes: Seq<Seq<char>>, name: Seq<char>) -> bool {
    exists|i: int| 0 <= i < classes.len() && #[trigger] lower_of(classes[i]) == lower_of(name)
}

/// The class whose players choose runes.
pub open spec fn rune_class() -> Seq<char> {
    seq!['d', 'e', 'a', 't', 'h', ' ', 'k', 'n', 'i', 'g', 'h', 't']
}

pub open spec fn is_rune_class(name: Seq<char>) -> bool {
    lower_of(name) == rune_class()
}

/// B, F or U, in either case.
pub open spec fn is_rune(c: char) -> bool {
    c == 'b' || c == 'f' || c == 'u' || c == 'B' || c == 'F' || c == 'U'
}

pub open spec fn rune_upper(c: char) -> char {
    if c == 'b' {
        'B'
    } else if c == 'f' {
        'F'
    } else if c == 'u' {
        'U'
    } else {
        c
    }
}

/// The rune that an answer gives: its first character, upper-cased, when that
/// is a rune.
pub open spec fn rune_of(line: Seq<char>) -> Option<char> {
    if line.len() > 0 && is_rune(line[0]) {
        Some(rune_upper(line[0]))
    } else {
        None
    }
}

/// What one answer leads to.
pub enum StepResult {
    BadClass,
    BadRune,
    More,
    Picked(Seq<char>, Seq<char>),
    Exhausted,
}

pub struct PickerView {
    pub class_name: Option<Seq<char>>,
    pub runes: Seq<char>,
}

pub open spec fn fresh() -> PickerView {
    PickerView { class_name: None, runes: Seq::empty() }
}

/// The state after one answer, and what the answer led to.
pub open spec fn step(classes: Seq<Seq<char>>, st: PickerView, line: Seq<char>) -> (
    PickerView,
    StepResult,
) {
    match st.class_name {
        None => {
            let name = capitalize_words(line);
            if !class_ok(classes, name) {
                (st, StepResult::BadClass)
            } else if !is_rune_class(name) {
                (fresh(), StepResult::Picked(name, Seq::empty()))
            } else {
                (PickerView { class_name: Some(name), runes: Seq::empty() }, StepResult::More)
            }
        },
        Some(name) => match rune_of(line) {
            None => (st, StepResult::BadRune),
            Some(c) => if st.runes.len() + 1 >= 3 {
                (fresh(), StepResult::Picked(name, st.runes.push(c)))
            } else {
                (PickerView { class_name: Some(name), runes: st.runes.push(c) }, StepResult::More)
            },
        },
    }
}

/// The outcome of answering `lines` in order from `st`: the first selection,
/// or the first invalid answer that is not skipped, or `Exhausted`.
pub open spec fn run(
    classes: Seq<Seq<char>>,
    st: PickerView,
    lines: Seq<Seq<char>>,
    skip_bad_rune: bool,
    skip_bad_class: bool,
) -> StepResult
    decreases lines.len(),
{
    if lines.len() == 0 {
        StepResult::Exhausted
    } else {
        let (next, res) = step(classes, st, lines[0]);
        let rest = run(classes, next, lines.drop_first(), skip_bad_rune, skip_bad_class);
        match res {
            StepResult::BadClass => if skip_bad_class {
                rest
            } else {
                res
            },
            StepResult::BadRune => if skip_bad_rune {
                rest
            } else {
                res
            },
            StepResult::More => rest,
            _ => res,
        }
    }
}

/// B, F or U.
pub open spec fn is_rune_letter(c: char) -> bool {
    c == 'B' || c == 'F' || c == 'U'
}

/// A selection as the data model has it: three runes, each B, F or U, for
/// the rune-bearing class, and none for any other class.
pub open spec fn valid_selection(name: Seq<char>, runes: Seq<char>) -> bool {
    &&& if is_rune_class(name) {
        runes.len() == 3
    } else {
        runes.len() == 0
    }
    &&& forall|i: int| 0 <= i < runes.len() ==> is_rune_letter(#[trigger] runes[i])
}

/// A picker state from which only valid selections can come.
pub open spec fn sound(st: PickerView) -> bool {
    &&& st.runes.len() < 3
    &&& forall|i: int| 0 <= i < st.runes.len() ==> is_rune_letter(#[trigger] st.runes[i])
    &&& match st.class_name {
        None => st.runes.len() == 0,
        Some(n) => is_rune_class(n),
    }
}

proof fn lemma_step_sound(classes: Seq<Seq<char>>, st: PickerView, line: Seq<char>)
    requires
        sound(st),
    ensures
        sound(step(classes, st, line).0),
        match step(classes, st, line).1 {
            StepResult::Picked(n, rs) => valid_selection(n, rs),
            _ => true,
        },
{
    match st.class_name {
        None => {},
        Some(n) => match rune_of(line) {
            None => {},
            Some(c) => {
                assert(is_rune_letter(c));
                assert forall|i: int| 0 <= i < st.runes.push(c).len() implies is_rune_letter(
                    #[trigger] st.runes.push(c)[i],
                ) by {
                    if i < st.runes.len() {
                        assert(st.runes.push(c)[i] == st.runes[i]);
                    }
                }
            },
        },
    }
}

/// Whatever the answers, a pick that ends in a selection ends in a valid
/// one: no runes for an ordinary class, three of B, F and U for the
/// rune-bearing class.
pub proof fn lemma_selection_valid(
    classes: Seq<Seq<char>>,
    lines: Seq<Seq<char>>,
    skip_bad_rune: bool,
    skip_bad_class: bool,
)
    ensures
        match run(classes, fresh(), lines, skip_bad_rune, skip_bad_class) {
            StepResult::Picked(n, rs) => valid_selection(n, rs),
            _ => true,
        },
{
    lemma_run_sound(classes, fresh(), lines, skip_bad_rune, skip_bad_class);
}

proof fn lemma_run_sound(
    classes: Seq<Seq<char>>,
    st: PickerView,
    lines: Seq<Seq<char>>,
    skip_bad_rune: bool,
    skip_bad_class: bool,
)
    requires
        sound(st),
    ensures
        match run(classes, st, lines, skip_bad_rune, skip_bad_class) {
            StepResult::Picked(n, rs) => valid_selection(n, rs),
            _ => true,
        },
    decreases lines.len(),
{
    if lines.len() > 0 {
        lemma_step_sound(classes, st, lines[0]);
        let (next, res) = step(classes, st, lines[0]);
        lemma_run_sound(classes, next, lines.drop_first(), skip_bad_rune, skip_bad_class);
    }
}

/// How a class answer stands against the offered classes.
#[derive(Clone, Copy, PartialEq, Eq, Structural, Debug)]
pub enum ClassVerdict {
    /// No offered class has the answer's case-folded form.
    Unknown,
    /// An offered class without runes.
    Plain,
    /// The rune-bearing class.
    RuneBearing,
}

/// The verdict on an answer whose case-folded form is `name_fold`, given the
/// case-folded offered classes.
pub open spec fn verdict_of(folds: Seq<Seq<char>>, name_fold: Seq<char>) -> ClassVerdict {
    if !(exists|i: int| 0 <= i < folds.len() && folds[i] == name_fold) {
        ClassVerdict::Unknown
    } else if name_fold == rune_class() {
        ClassVerdict::RuneBearing
    } else {
        ClassVerdict::Plain
    }
}

/// Decides a class answer from case-folded values: the offered classes and
/// the answer, each folded.
pub fn class_verdict(class_folds: &[String], name_fold: &String) -> (r: ClassVerdict)
    ensures
        r == verdict_of(string_views(class_folds@), name_fold@),
{
    let ghost fs = string_views(class_folds@);
    let mut i: usize = 0;
    while i < class_folds.len()
        invariant
            i <= class_folds@.len(),
            fs == string_views(class_folds@),
            forall|j: int| 0 <= j < i ==> fs[j] != name_fold@,
        decreases class_folds.len() - i,
    {
        assert(fs[i as int] == class_folds@[i as int]@);
        if class_folds[i] == *name_fold {
            let rc = string_of(&vec!['d', 'e', 'a', 't', 'h', ' ', 'k', 'n', 'i', 'g', 'h', 't']);
            assert(rc@ =~= rune_class());
            if *name_fold == rc {
                return ClassVerdict::RuneBearing;
            }
            return ClassVerdict::Plain;
        }
        i = i + 1;
    }
    ClassVerdict::Unknown
}

/// A class picker: it holds the offered classes and what was answered so far.
pub struct ClassPicker {
    classes: Vec<String>,
    class_name: Option<String>,
    runes: Vec<char>,
}

impl View for ClassPicker {
    type V = PickerView;

    closed spec fn view(&self) -> PickerView {
        PickerView {
            class_name: match self.class_name {
                Some(n) => Some(n@),
                None => None,
            },
            runes: self.runes@,
        }
    }
}

impl ClassPicker {
    /// The offered classes.
    pub closed spec fn classes(&self) -> Seq<Seq<char>> {
        string_views(self.classes@)
    }

    /// No class is chosen without its runes being empty, and fewer than three
    /// runes are pending.
    pub open spec fn wf(&self) -> bool {
        &&& self@.runes.len() < 3
        &&& self@.class_name is None ==> self@.runes.len() == 0
    }

    /// A picker that offers `classes` and has had no answer yet.
    pub fn new(classes: &[String]) -> (r: ClassPicker)
        ensures
            r.classes() == string_views(classes@),
            r@ == fresh(),
            r.wf(),
    {
        let mut v: Vec<String> = Vec::new();
        let mut i: usize = 0;
        while i < classes.len()
            invariant
                i <= classes@.len(),
                string_views(v@) == string_views(classes@).subrange(0, i as int),
            decreases classes.len() - i,
        {
            let ghost prev = v@;
            v.push(classes[i].clone());
            assert(string_views(v@) =~= string_views(prev).push(classes@[i as int]@));
            assert(string_views(classes@).subrange(0, i + 1) =~= string_views(classes@).subrange(
                0,
                i as int,
            ).push(classes@[i as int]@));
            i = i + 1;
        }
        assert(string_views(classes@).subrange(0, classes@.len() as int) =~= string_views(
            classes@,
        ));
        let r = ClassPicker { classes: v, class_name: None, runes: Vec::new() };
        assert(r@ == fresh()) by {
            assert(r@.runes =~= Seq::<char>::empty());
        }
        r
    }

    /// `None` while a class is awaited, else how many runes are still to come.
    pub fn runes_needed(&self) -> (r: Option<usize>)
        requires
            self.wf(),
        ensures
            r == match self@.class_name {
                None => None::<usize>,
                Some(_) => Some((3 - self@.runes.len()) as usize),
            },
    {
        match &self.class_name {
            None => None,
            Some(_) => Some(3 - self.runes.len()),
        }
    }

    /// The offered classes, each case-folded.
    fn class_folds(&self) -> (r: Vec<String>)
        ensures
            r@.len() == self.classes().len(),
            forall|i: int|
                0 <= i < r@.len() ==> #[trigger] string_views(r@)[i] == lower_of(self.classes()[i]),
    {
        let mut r: Vec<String> = Vec::new();
        let mut i: usize = 0;
        while i < self.classes.len()
            invariant
                i <= self.classes@.len(),
                r@.len() == i,
                forall|j: int|
                    0 <= j < i ==> #[trigger] string_views(r@)[j] == lower_of(self.classes()[j]),
            decreases self.classes.len() - i,
        {
            let f = lowercase(self.classes[i].as_str());
            assert(self.classes()[i as int] == self.classes@[i as int]@);
            let ghost prev = r@;
            let ghost fv = f@;
            r.push(f);
            assert forall|j: int| 0 <= j < i + 1 implies #[trigger] string_views(r@)[j] == lower_of(
                self.classes()[j],
            ) by {
                assert(string_views(r@)[j] == r@[j]@);
                if j < i {
                    assert(r@[j] == prev[j]);
                    assert(string_views(prev)[j] == prev[j]@);
                } else {
                    assert(r@[j]@ == fv);
                }
            }
            i = i + 1;
        }
        r
    }

    /// Takes one answer: a class name first, then, for the rune-bearing
    /// class, one rune per answer until there are three. An invalid answer
    /// changes nothing. A selection leaves the picker as new.
    pub fn answer(&mut self, line: &str) -> (r: Result<Option<ClassSelection>, DeckError>)
        requires
            old(self).wf(),
        ensures
            final(self).wf(),
            final(self).classes() == old(self).classes(),
            final(self)@ == step(old(self).classes(), old(self)@, line@).0,
            match step(old(self).classes(), old(self)@, line@).1 {
                StepResult::BadClass => r matches Err(DeckError::InvalidClass),
                StepResult::BadRune => r matches Err(DeckError::InvalidRune),
                StepResult::More => r matches Ok(None),
                StepResult::Picked(n, rs) => r matches Ok(Some(s)) && s.class_name@ == n
                    && s.runes@ == rs,
                StepResult::Exhausted => false,
            },
    {
        match &self.class_name {
            None => {
                let name = normalize_class(line);
                let folds = self.class_folds();
                let name_fold = lowercase(name.as_str());
                let verdict = class_verdict(folds.as_slice(), &name_fold);
                proof {
                    let fs = string_views(folds@);
                    let cs = self.classes();
                    if class_ok(cs, name@) {
                        let i = choose|i: int|
                            0 <= i < cs.len() && #[trigger] lower_of(cs[i]) == lower_of(name@);
                        assert(fs[i] == name_fold@);
                    }
                    if exists|i: int| 0 <= i < fs.len() && fs[i] == name_fold@ {
                        let i = choose|i: int| 0 <= i < fs.len() && fs[i] == name_fold@;
                        assert(lower_of(cs[i]) == lower_of(name@));
                    }
                }
                match verdict {
                    ClassVerdict::Unknown => {
                        return Err(DeckError::InvalidClass);
                    },
                    ClassVerdict::Plain => {
                        assert(self@.runes =~= Seq::<char>::empty());
                        return Ok(Some(ClassSelection { class_name: name, runes: String::new() }));
                    },
                    ClassVerdict::RuneBearing => {},
                }
                self.class_name = Some(name);
                self.runes = Vec::new();
                assert(self@.runes =~= Seq::<char>::empty());
                Ok(None)
            },
            Some(name) => {
                let cs = chars_of(line);
                if cs.len() == 0 {
                    return Err(DeckError::InvalidRune);
                }
                let c = cs[0];
                let up = if c == 'b' || c == 'B' {
                    'B'
                } else if c == 'f' || c == 'F' {
                    'F'
                } else if c == 'u' || c == 'U' {
                    'U'
                } else {
                    return Err(DeckError::InvalidRune);
                };
                let mut runes = self.runes.clone();
                runes.push(up);
                if runes.len() >= 3 {
                    let sel = ClassSelection { class_name: name.clone(), runes: string_of(&runes) };
                    self.class_name = None;
                    self.runes = Vec::new();
                    assert(self@.runes =~= Seq::<char>::empty());
                    Ok(Some(sel))
                } else {
                    self.runes = runes;
                    Ok(None)
                }
            },
        }
    }
}

pub proof fn lemma_run_settles(
    classes: Seq<Seq<char>>,
    st: PickerView,
    lines: Seq<Seq<char>>,
    skip_bad_rune: bool,
    skip_bad_class: bool,
)
    ensures
        !(run(classes, st, lines, skip_bad_rune, skip_bad_class) is More),
        skip_bad_rune ==> !(run(classes, st, lines, skip_bad_rune, skip_bad_class) is BadRune),
        skip_bad_class ==> !(run(classes, st, lines, skip_bad_rune, skip_bad_class) is BadClass),
    decreases lines.len(),
{
    if lines.len() > 0 {
        let (next, res) = step(classes, st, lines[0]);
        lemma_run_settles(classes, next, lines.drop_first(), skip_bad_rune, skip_bad_class);
    }
}

/// Answers `lines` in order until a class is selected. An invalid class ends
/// the pick with `InvalidClass`; an invalid rune is skipped when
/// `ignore_invalid_rune` holds and otherwise ends it with `InvalidRune`;
/// answers that run out end it with `NoInput`.
pub fn pick_class(classes: &[String], lines: &[String], ignore_invalid_rune: bool) -> (r: Result<
    ClassSelection,
    DeckError,
>)
    ensures
        match run(string_views(classes@), fresh(), string_views(lines@), ignore_invalid_rune, false) {
            StepResult::BadClass => r matches Err(DeckError::InvalidClass),
            StepResult::BadRune => r matches Err(DeckError::InvalidRune),
            StepResult::Picked(n, rs) => r matches Ok(s) && s.class_name@ == n && s.runes@ == rs,
            StepResult::Exhausted => r matches Err(DeckError::NoInput),
            StepResult::More => false,
        },
{
    let ghost c = string_views(classes@);
    let ghost l = string_views(lines@);
    proof {
        lemma_run_settles(c, fresh(), l, ignore_invalid_rune, false);
        assert(l.subrange(0, l.len() as int) =~= l);
    }
    let mut picker = ClassPicker::new(classes);
    let mut i: usize = 0;
    while i < lines.len()
        invariant
            i <= lines@.len(),
            l == string_views(lines@),
            c == string_views(classes@),
            picker.wf(),
            picker.classes() == c,
            run(c, fresh(), l, ignore_invalid_rune, false) == run(
                c,
                picker@,
                l.subrange(i as int, l.len() as int),
                ignore_invalid_rune,
                false,
            ),
        decreases lines.len() - i,
    {
        proof {
            assert(l.subrange(i as int, l.len() as int)[0] == lines@[i as int]@);
            assert(l.subrange(i as int, l.len() as int).drop_first() =~= l.subrange(
                i + 1,
                l.len() as int,
            ));
        }
        let ghost st = picker@;
        let ghost li = l.subrange(i as int, l.len() as int);
        let res = picker.answer(lines[i].as_str());
        proof {
            assert(li.len() > 0);
            assert(run(c, st, li, ignore_invalid_rune, false) == ({
                let (next, res) = step(c, st, li[0]);
                let rest = run(c, next, li.drop_first(), ignore_invalid_rune, false);
                match res {
                    StepResult::BadClass => res,
                    StepResult::BadRune => if ignore_invalid_rune {
                        rest
                    } else {
                        res
                    },
                    StepResult::More => rest,
                    _ => res,
                }
            }));
        }
        match res {
            Ok(Some(sel)) => {
                return Ok(sel);
            },
            Ok(None) => {},
            Err(DeckError::InvalidRune) => {
                if !ignore_invalid_rune {
                    return Err(DeckError::InvalidRune);
                }
            },
            Err(e) => {
                return Err(e);
            },
        }
        i = i + 1;
    }
    Err(DeckError::NoInput)
}

/// Answers `lines` in order, passing over every invalid answer, until a
/// class is selected; `None` when the answers run out first.
pub fn pick_class_no_err(classes: &[String], lines: &[String]) -> (r: Option<ClassSelection>)
    ensures
        match run(string_views(classes@), fresh(), string_views(lines@), true, true) {
            StepResult::Picked(n, rs) => r matches Some(s) && s.class_name@ == n && s.runes@ == rs,
            _ => r is None,
        },
{
    let ghost c = string_views(classes@);
    let ghost l = string_views(lines@);
    proof {
        assert(l.subrange(0, l.len() as int) =~= l);
    }
    let mut picker = ClassPicker::new(classes);
    let mut i: usize = 0;
    while i < lines.len()
        invariant
            i <= lines@.len(),
            l == string_views(lines@),
            c == string_views(classes@),
            picker.wf(),
            picker.classes() == c,
            run(c, fresh(), l, true, true) == run(
                c,
                picker@,
                l.subrange(i as int, l.len() as int),
                true,
                true,
            ),
        decreases lines.len() - i,
    {
        proof {
            assert(l.subrange(i as int, l.len() as int)[0] == lines@[i as int]@);
            assert(l.subrange(i as int, l.len() as int).drop_first() =~= l.subrange(
                i + 1,
                l.len() as int,
            ));
        }
        let ghost st = picker@;
        let ghost li = l.subrange(i as int, l.len() as int);
        let res = picker.answer(lines[i].as_str());
        proof {
            assert(li.len() > 0);
            assert(run(c, st, li, true, true) == ({
                let (next, res) = step(c, st, li[0]);
                let rest = run(c, next, li.drop_first(), true, true);
                match res {
                    StepResult::BadClass => rest,
                    StepResult::BadRune => rest,
                    StepResult::More => rest,
                    _ => res,
                }
            }));
        }
        if let Ok(Some(sel)) = res {
            return Some(sel);
        }
        i = i + 1;
    }
    None
}

} // verus!

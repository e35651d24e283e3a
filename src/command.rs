//! The deck commands: a registry of named commands and the dispatcher that
//! applies one input line to the deck.
use vstd::prelude::*;
use crate::card::{Card, CardView, views};
use crate::error::DeckError;
use crate::query::{find_card, find_card_index, first_match, lemma_first_match_bounds};
use crate::text::{chars_of, is_whitespace, string_of, sub_chars, text_from, ws_from};

verus! {

/// What a registered command does.
#[derive(Clone, Copy, PartialEq, Eq, Structural, Debug)]
pub enum Command {
    /// Appends the card named by the arguments to the deck.
    Add,
    /// Removes the card named by the arguments from the deck.
    Rem,
    /// Asks for the deck to be shown.
    ShowDeck,
    /// Asks for the session to end.
    Exit,
}

/// What the session has to do after a command succeeded.
#[derive(Clone, Copy, PartialEq, Eq, Structural, Debug)]
pub enum Action {
    /// Read the next line.
    Continue,
    /// Show the deck, then read the next line.
    ShowDeck,
    /// End the session.
    Exit,
}

/// The registry that a sequence of registrations leaves; a later entry for
/// a name replaces an earlier one.
pub open spec fn to_map(es: Seq<(String, Command)>) -> Map<Seq<char>, Command>
    decreases es.len(),
{
    if es.len() == 0 {
        Map::empty()
    } else {
        to_map(es.drop_last()).insert(es.last().0@, es.last().1)
    }
}

/// Named commands.
pub struct CommandRegistry {
    entries: Vec<(String, Command)>,
}

impl View for CommandRegistry {
    type V = Map<Seq<char>, Command>;

    closed spec fn view(&self) -> Map<Seq<char>, Command> {
        to_map(self.entries@)
    }
}

pub open spec fn add_name() -> Seq<char> {
    seq!['a', 'd', 'd']
}

pub open spec fn rem_name() -> Seq<char> {
    seq!['r', 'e', 'm']
}

pub open spec fn deck_name() -> Seq<char> {
    seq!['d', 'e', 'c', 'k']
}

pub open spec fn exit_name() -> Seq<char> {
    seq!['e', 'x', 'i', 't']
}

/// A command line split at its first run of whitespace: the command's name
/// before it, its arguments after it.
pub open spec fn split_command(line: Seq<char>) -> (Seq<char>, Seq<char>) {
    let k = ws_from(line, 0);
    let j = text_from(line, k);
    (line.subrange(0, k), line.subrange(j, line.len() as int))
}

/// `s` after `s[i]` is moved to its place from the end.
pub open spec fn swap_removed(s: Seq<CardView>, i: int) -> Seq<CardView> {
    s.update(i, s.last()).drop_last()
}

/// The deck after a command and the command's result.
pub open spec fn run_command(
    cmd: Command,
    args: Seq<char>,
    deck: Seq<CardView>,
    cards: Seq<CardView>,
) -> (Seq<CardView>, Result<Action, DeckError>) {
    match cmd {
        Command::Add => {
            let k = first_match(cards, args);
            if k < 0 {
                (deck, Err(DeckError::CardNotFound))
            } else {
                (deck.push(cards[k]), Ok(Action::Continue))
            }
        },
        Command::Rem => {
            let k = first_match(deck, args);
            if k < 0 {
                (deck, Err(DeckError::CardNotFound))
            } else {
                (swap_removed(deck, k), Ok(Action::Continue))
            }
        },
        Command::ShowDeck => (deck, Ok(Action::ShowDeck)),
        Command::Exit => (deck, Ok(Action::Exit)),
    }
}

/// The deck after a command line and the line's result.
pub open spec fn dispatched(
    reg: Map<Seq<char>, Command>,
    line: Seq<char>,
    deck: Seq<CardView>,
    cards: Seq<CardView>,
) -> (Seq<CardView>, Result<Action, DeckError>) {
    let (name, args) = split_command(line);
    if reg.contains_key(name) {
        run_command(reg[name], args, deck, cards)
    } else {
        (deck, Err(DeckError::UnknownCommand))
    }
}

/// A line that names a card is read as `add` followed by the line.
pub open spec fn handled(
    reg: Map<Seq<char>, Command>,
    line: Seq<char>,
    deck: Seq<CardView>,
    cards: Seq<CardView>,
) -> (Seq<CardView>, Result<Action, DeckError>) {
    if first_match(cards, line) >= 0 {
        dispatched(reg, add_name() + seq![' '] + line, deck, cards)
    } else {
        dispatched(reg, line, deck, cards)
    }
}

impl CommandRegistry {
    /// A registry without commands.
    pub fn new() -> (r: CommandRegistry)
        ensures
            r@ == Map::<Seq<char>, Command>::empty(),
    {
        CommandRegistry { entries: Vec::new() }
    }

    /// Registers `cmd` under `name`, replacing what was registered there.
    pub fn register(&mut self, name: String, cmd: Command)
        ensures
            final(self)@ == old(self)@.insert(name@, cmd),
    {
        let ghost n = name@;
        self.entries.push((name, cmd));
        assert(self.entries@.drop_last() =~= old(self).entries@);
    }

    /// The command registered under `name`.
    pub fn lookup(&self, name: &String) -> (r: Option<Command>)
        ensures
            r == (if self@.contains_key(name@) {
                Some(self@[name@])
            } else {
                None
            }),
    {
        let ghost es = self.entries@;
        let mut j: usize = self.entries.len();
        assert(es.subrange(0, j as int) =~= es);
        while j > 0
            invariant
                j <= es.len(),
                es == self.entries@,
                to_map(es).contains_key(name@) == to_map(es.subrange(0, j as int)).contains_key(
                    name@,
                ),
                to_map(es).contains_key(name@) ==> to_map(es)[name@] == to_map(
                    es.subrange(0, j as int),
                )[name@],
            decreases j,
        {
            assert(es.subrange(0, j as int).drop_last() =~= es.subrange(0, j - 1));
            if self.entries[j - 1].0 == *name {
                return Some(self.entries[j - 1].1);
            }
            j = j - 1;
        }
        None
    }

    /// Applies one command line: its first word names the command, the text
    /// after the whitespace that follows is the command's argument.
    pub fn dispatch(&self, line: &str, deck: &mut Vec<Card>, cards: &[Card]) -> (r: Result<
        Action,
        DeckError,
    >)
        ensures
            (views(final(deck)@), r) == dispatched(self@, line@, views(old(deck)@), views(cards@)),
    {
        let cs = chars_of(line);
        let mut k: usize = 0;
        while k < cs.len() && !is_whitespace(cs[k])
            invariant
                k <= cs.len(),
                ws_from(cs@, 0) == ws_from(cs@, k as int),
            decreases cs.len() - k,
        {
            k = k + 1;
        }
        let mut j: usize = k;
        while j < cs.len() && is_whitespace(cs[j])
            invariant
                k <= j <= cs.len(),
                text_from(cs@, k as int) == text_from(cs@, j as int),
            decreases cs.len() - j,
        {
            j = j + 1;
        }
        let name = string_of(&sub_chars(&cs, 0, k));
        let args = string_of(&sub_chars(&cs, j, cs.len()));
        match self.lookup(&name) {
            None => Err(DeckError::UnknownCommand),
            Some(cmd) => run(cmd, args.as_str(), deck, cards),
        }
    }
}

/// Runs one command with its argument text.
pub fn run(cmd: Command, args: &str, deck: &mut Vec<Card>, cards: &[Card]) -> (r: Result<
    Action,
    DeckError,
>)
    ensures
        (views(final(deck)@), r) == run_command(cmd, args@, views(old(deck)@), views(cards@)),
{
    match cmd {
        Command::Add => match find_card(cards, args) {
            None => Err(DeckError::CardNotFound),
            Some(c) => {
                proof {
                    lemma_first_match_bounds(views(cards@), args@, 0);
                }
                let ghost prev = deck@;
                deck.push(c);
                assert(views(deck@) =~= views(prev).push(c@));
                Ok(Action::Continue)
            },
        },
        Command::Rem => match find_card_index(deck.as_slice(), args) {
            None => Err(DeckError::CardNotFound),
            Some(i) => {
                let ghost prev = deck@;
                deck.swap_remove(i);
                assert(views(deck@) =~= swap_removed(views(prev), i as int));
                Ok(Action::Continue)
            },
        },
        Command::ShowDeck => Ok(Action::ShowDeck),
        Command::Exit => Ok(Action::Exit),
    }
}

/// The registry of the four built-in commands: `add`, `rem`, `deck`, `exit`.
pub fn setup_cmds() -> (r: CommandRegistry)
    ensures
        r@ == Map::<Seq<char>, Command>::empty().insert(add_name(), Command::Add).insert(
            rem_name(),
            Command::Rem,
        ).insert(deck_name(), Command::ShowDeck).insert(exit_name(), Command::Exit),
{
    let mut r = CommandRegistry::new();
    let add = vec!['a', 'd', 'd'];
    assert(add@ =~= add_name());
    r.register(string_of(&add), Command::Add);
    let rem = vec!['r', 'e', 'm'];
    assert(rem@ =~= rem_name());
    r.register(string_of(&rem), Command::Rem);
    let deck = vec!['d', 'e', 'c', 'k'];
    assert(deck@ =~= deck_name());
    r.register(string_of(&deck), Command::ShowDeck);
    let exit = vec!['e', 'x', 'i', 't'];
    assert(exit@ =~= exit_name());
    r.register(string_of(&exit), Command::Exit);
    r
}

/// Handles one input line. A line that names a card, by name or id, adds
/// that card; any other line is dispatched as a command.
pub fn handle_command(
    registry: &CommandRegistry,
    command: &str,
    deck: &mut Vec<Card>,
    cards: &[Card],
) -> (r: Result<Action, DeckError>)
    ensures
        (views(final(deck)@), r) == handled(registry@, command@, views(old(deck)@), views(cards@)),
{
    if find_card_index(cards, command).is_some() {
        let mut line = string_of(&vec!['a', 'd', 'd', ' ']);
        assert(line@ =~= add_name() + seq![' ']);
        line = line.concat(command);
        registry.dispatch(line.as_str(), deck, cards)
    } else {
        registry.dispatch(command, deck, cards)
    }
}

} // verus!

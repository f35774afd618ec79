//! Importing a deck list: the card lines are taken in order, each card
//! name is resolved once, and the caller fetches the definitions of the
//! names not yet known, as the import asks for them.
use vstd::prelude::*;

use crate::card::{CardDatabase, CardDef, CardId};
use crate::moxfield::known_lookup;
use crate::scryfall::{deck_line_view, deck_lines_spec, parse_deck_lines, DeckImportResult, DeckLine};
use crate::text::{chars_of, contains_str, has, push_str, str_eq};

verus! {

/// A deck list being imported.
pub struct DeckImport {
    /// The card lines of the list.
    pub lines: Vec<DeckLine>,
    /// The first line not yet taken in.
    pub next: usize,
    /// Lookup names already resolved, with their ids.
    pub known: Vec<(String, CardId)>,
    /// The definitions fetched so far.
    pub db: CardDatabase,
    /// The deck so far: each card repeated by its quantity.
    pub deck: Vec<CardId>,
    /// The commander: the card of the last line taken in from a commanders
    /// section.
    pub commander_id: Option<CardId>,
    /// Cards that could not be fetched, as `name: error`.
    pub errors: Vec<String>,
}

/// What an import needs next.
#[derive(Debug)]
pub enum ImportStep {
    /// The definition of the card with this lookup name.
    Fetch(String),
    /// Nothing: every line has been taken in.
    Done,
}

/// The total quantity of the lines from `i` on.
pub open spec fn quantity_from(lines: Seq<(u32, Seq<char>, Seq<char>, bool)>, i: int) -> nat
    decreases lines.len() - i,
{
    if i < 0 || i >= lines.len() {
        0
    } else {
        lines[i].0 as nat + quantity_from(lines, i + 1)
    }
}

/// Taking in the lines from `i` on while their cards are already known:
/// the deck, the commander, and the first line whose card is not known
/// (or the end).
pub open spec fn take_known(
    lines: Seq<(u32, Seq<char>, Seq<char>, bool)>,
    known: Seq<(Seq<char>, CardId)>,
    i: int,
    deck: Seq<CardId>,
    cmd: Option<CardId>,
) -> (Seq<CardId>, Option<CardId>, int)
    decreases lines.len() - i,
{
    if i < 0 || i >= lines.len() {
        (deck, cmd, i)
    } else {
        match known_lookup(known, lines[i].2) {
            None => (deck, cmd, i),
            Some(id) => take_known(
                lines,
                known,
                i + 1,
                deck + Seq::new(lines[i].0 as nat, |k: int| id),
                if lines[i].3 {
                    Some(id)
                } else {
                    cmd
                },
            ),
        }
    }
}

impl DeckImport {
    /// The card lines.
    pub open spec fn lines_view(&self) -> Seq<(u32, Seq<char>, Seq<char>, bool)> {
        self.lines@.map_values(|l: DeckLine| deck_line_view(l))
    }

    /// The resolved names and ids.
    pub open spec fn known_view(&self) -> Seq<(Seq<char>, CardId)> {
        self.known@.map_values(|p: (String, CardId)| (p.0@, p.1))
    }

    /// Whether the deck can take the copies of the lines not yet taken in.
    pub open spec fn room_for_rest(&self) -> bool {
        self.deck@.len() + quantity_from(self.lines_view(), self.next as int) <= usize::MAX
    }

    /// Start importing a deck list in the format `~~Commanders~~` /
    /// `1 Card Name` / ... / `~~Mainboard~~` / ...
    pub fn new(deck_text: &str) -> (r: DeckImport)
        ensures
            r.lines_view() == deck_lines_spec(deck_text@),
            r.next == 0,
            r.known@.len() == 0,
            r.db.cards@.len() == 0,
            r.deck@.len() == 0,
            r.commander_id is None,
            r.errors@.len() == 0,
    {
        DeckImport {
            lines: parse_deck_lines(deck_text),
            next: 0,
            known: Vec::new(),
            db: CardDatabase::new(),
            deck: Vec::new(),
            commander_id: None,
            errors: Vec::new(),
        }
    }

    /// The id resolved for a lookup name, if any.
    fn known_id(&self, lookup_name: &str) -> (r: Option<CardId>)
        ensures
            r == known_lookup(self.known_view(), lookup_name@),
    {
        let mut i: usize = 0;
        assert(self.known_view().skip(0) =~= self.known_view());
        while i < self.known.len()
            invariant
                i <= self.known@.len(),
                known_lookup(self.known_view(), lookup_name@) == known_lookup(self.known_view().skip(i as int), lookup_name@),
            decreases self.known.len() - i,
        {
            assert(self.known_view().skip(i as int).drop_first() =~= self.known_view().skip(i + 1));
            assert(self.known_view().skip(i as int)[0] == (self.known@[i as int].0@, self.known@[i as int].1));
            if str_eq(self.known[i].0.as_str(), lookup_name) {
                return Some(self.known[i].1);
            }
            i = i + 1;
        }
        None
    }

    /// Add `quantity` copies of a card to the deck.
    fn add_copies(&mut self, id: CardId, quantity: u32)
        requires
            old(self).deck@.len() + quantity <= usize::MAX,
        ensures
            final(self).deck@ == old(self).deck@ + Seq::new(quantity as nat, |k: int| id),
            final(self).lines == old(self).lines,
            final(self).next == old(self).next,
            final(self).known == old(self).known,
            final(self).db == old(self).db,
            final(self).commander_id == old(self).commander_id,
            final(self).errors == old(self).errors,
    {
        let ghost d0 = self.deck@;
        let mut k: u32 = 0;
        while k < quantity
            invariant
                k <= quantity,
                d0.len() + quantity <= usize::MAX,
                self.deck@ == d0 + Seq::new(k as nat, |j: int| id),
                self.lines == old(self).lines,
                self.next == old(self).next,
                self.known == old(self).known,
                self.db == old(self).db,
                self.commander_id == old(self).commander_id,
                self.errors == old(self).errors,
            decreases quantity - k,
        {
            self.deck.push(id);
            k = k + 1;
            assert(self.deck@ =~= d0 + Seq::new(k as nat, |j: int| id));
        }
    }

    /// Take in the lines whose cards are already resolved, up to the first
    /// whose card is not; ask for that card, or say that the import is
    /// done.
    pub fn advance(&mut self) -> (r: ImportStep)
        requires
            old(self).next <= old(self).lines@.len(),
            old(self).room_for_rest(),
        ensures
            ({
                let (deck, cmd, j) = take_known(
                    old(self).lines_view(),
                    old(self).known_view(),
                    old(self).next as int,
                    old(self).deck@,
                    old(self).commander_id,
                );
                &&& final(self).deck@ == deck
                &&& final(self).commander_id == cmd
                &&& final(self).next == j
                &&& match r {
                    ImportStep::Fetch(name) => j < old(self).lines@.len() && name@ == old(self).lines_view()[j].2,
                    ImportStep::Done => j >= old(self).lines@.len(),
                }
            }),
            final(self).next <= final(self).lines@.len(),
            final(self).room_for_rest(),
            final(self).lines == old(self).lines,
            final(self).known == old(self).known,
            final(self).db == old(self).db,
            final(self).errors == old(self).errors,
    {
        let ghost lv = self.lines_view();
        let ghost kv = self.known_view();
        let ghost target = take_known(lv, kv, self.next as int, self.deck@, self.commander_id);
        assert(target == take_known(
            old(self).lines_view(),
            old(self).known_view(),
            old(self).next as int,
            old(self).deck@,
            old(self).commander_id,
        ));
        let mut stop = false;
        while !stop && self.next < self.lines.len()
            invariant
                self.next <= self.lines@.len(),
                self.room_for_rest(),
                self.lines_view() == lv,
                self.known_view() == kv,
                self.lines == old(self).lines,
                self.known == old(self).known,
                self.db == old(self).db,
                self.errors == old(self).errors,
                stop ==> self.next < lv.len() && known_lookup(kv, lv[self.next as int].2) is None,
                target == take_known(lv, kv, self.next as int, self.deck@, self.commander_id),
            decreases self.lines.len() - self.next, if stop { 0int } else { 1int },
        {
            let i = self.next;
            assert(lv[i as int] == deck_line_view(self.lines@[i as int]));
            let found = self.known_id(self.lines[i].lookup_name.as_str());
            match found {
                None => {
                    stop = true;
                },
                Some(id) => {
                    let q = self.lines[i].quantity;
                    let is_cmd = self.lines[i].is_commander;
                    self.add_copies(id, q);
                    if is_cmd {
                        self.commander_id = Some(id);
                    }
                    self.next = i + 1;
                },
            }
        }
        if self.next < self.lines.len() {
            let i = self.next;
            assert(lv[i as int] == deck_line_view(self.lines@[i as int]));
            ImportStep::Fetch(self.lines[i].lookup_name.clone())
        } else {
            ImportStep::Done
        }
    }

    /// Take in the line whose card was asked for, with what fetching it
    /// gave: the definition, which joins the database (named as the line
    /// writes it when that is a `Front // Back` name) and is resolved for
    /// the line's lookup name, with the line's copies going into the deck;
    /// or the error text, recorded as `name: error`, with the line left
    /// out of the deck.
    pub fn supply(&mut self, fetched: Result<CardDef, String>)
        requires
            old(self).next < old(self).lines@.len(),
            old(self).room_for_rest(),
        ensures
            ({
                let l = old(self).lines@[old(self).next as int];
                match fetched {
                    Ok(def) => {
                        let named = if has(l.card_name@, " // "@) {
                            CardDef { name: l.card_name, ..def }
                        } else {
                            def
                        };
                        &&& final(self).db.lookup(def.id) == Some(named)
                        &&& forall|k: CardId| k != def.id ==> final(self).db.lookup(k) == old(self).db.lookup(k)
                        &&& final(self).known_view() == old(self).known_view().push((l.lookup_name@, def.id))
                        &&& final(self).deck@ == old(self).deck@ + Seq::new(l.quantity as nat, |k: int| def.id)
                        &&& final(self).commander_id == (if l.is_commander {
                            Some(def.id)
                        } else {
                            old(self).commander_id
                        })
                        &&& final(self).errors == old(self).errors
                    },
                    Err(msg) => {
                        &&& final(self).errors@ == old(self).errors@.push(final(self).errors@.last())
                        &&& final(self).errors@.last()@ == l.card_name@ + ": "@ + msg@
                        &&& final(self).db == old(self).db
                        &&& final(self).known == old(self).known
                        &&& final(self).deck == old(self).deck
                        &&& final(self).commander_id == old(self).commander_id
                    },
                }
            }),
            final(self).next == old(self).next + 1,
            final(self).lines == old(self).lines,
            final(self).room_for_rest(),
    {
        let i = self.next;
        let n = self.lines.len();
        let ghost lv = self.lines_view();
        assert(lv[i as int] == deck_line_view(self.lines@[i as int]));
        match fetched {
            Ok(def) => {
                let mut def = def;
                let id = def.id;
                let name_chars = chars_of(self.lines[i].card_name.as_str());
                if contains_str(&name_chars, " // ") {
                    def.name = self.lines[i].card_name.clone();
                }
                self.db.insert(def);
                let ghost kv = self.known_view();
                self.known.push((self.lines[i].lookup_name.clone(), id));
                assert(self.known_view() =~= kv.push((self.lines@[i as int].lookup_name@, id)));
                let q = self.lines[i].quantity;
                let is_cmd = self.lines[i].is_commander;
                self.add_copies(id, q);
                if is_cmd {
                    self.commander_id = Some(id);
                }
            },
            Err(msg) => {
                let mut line = String::new();
                push_str(&mut line, self.lines[i].card_name.as_str());
                push_str(&mut line, ": ");
                push_str(&mut line, msg.as_str());
                let ghost e0 = self.errors@;
                self.errors.push(line);
                assert(self.errors@ =~= e0.push(self.errors@.last()));
            },
        }
        self.next = i + 1;
    }

    /// The imported deck.
    pub fn finish(self) -> (r: DeckImportResult)
        ensures
            r.db == self.db,
            r.deck == self.deck,
            r.commander_id == self.commander_id,
            r.errors == self.errors,
    {
        DeckImportResult { db: self.db, deck: self.deck, commander_id: self.commander_id, errors: self.errors }
    }
}

} // verus!

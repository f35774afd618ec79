//! Importing a Moxfield deck step by step: each entry's card is resolved
//! from the names already resolved or the sample database, and the caller
//! fetches the cards the import asks for.
use vstd::prelude::*;

use crate::card::{CardDatabase, CardDef, CardId, find_name_in};
use crate::moxfield::{
    front_face_name, front_face_spec, import_entries, import_entries_spec, import_view, known_lookup,
    DeckAssembly, ImportEntry, MoxfieldDeckResponse,
};
use crate::scryfall::import::ImportStep;

verus! {

/// A Moxfield deck being imported.
pub struct MoxfieldImport {
    /// The entries to import, commanders first.
    pub entries: Vec<ImportEntry>,
    /// The first entry not yet taken in.
    pub next: usize,
    /// The database searched before fetching.
    pub sample_db: CardDatabase,
    /// The deck so far.
    pub assembly: DeckAssembly,
    /// The sample cards and the fetched cards.
    pub merged_db: CardDatabase,
    /// The ids of the fetched cards that joined the merged database.
    pub extra_ids: Vec<CardId>,
}

/// The id of a lookup name: one already resolved, else a sample card's.
pub open spec fn resolve_id(known: Seq<(Seq<char>, CardId)>, sample: Seq<CardDef>, name: Seq<char>) -> Option<CardId> {
    match known_lookup(known, name) {
        Some(id) => Some(id),
        None => find_name_in(sample, name),
    }
}

/// The resolved names after resolving one more (a name already resolved
/// keeps its first id).
pub open spec fn known_after(known: Seq<(Seq<char>, CardId)>, name: Seq<char>, id: CardId) -> Seq<(Seq<char>, CardId)> {
    if known_lookup(known, name) is Some {
        known
    } else {
        known.push((name, id))
    }
}

/// The total quantity of the entries from `i` on.
pub open spec fn entry_quantity_from(es: Seq<(Seq<char>, u32, bool)>, i: int) -> nat
    decreases es.len() - i,
{
    if i < 0 || i >= es.len() {
        0
    } else {
        es[i].1 as nat + entry_quantity_from(es, i + 1)
    }
}

/// Taking in the entries from `i` on while their cards resolve without
/// fetching: the resolved names, the deck, the commander, and the first
/// entry whose card must be fetched (or the end).
pub open spec fn take_resolved(
    es: Seq<(Seq<char>, u32, bool)>,
    sample: Seq<CardDef>,
    i: int,
    known: Seq<(Seq<char>, CardId)>,
    deck: Seq<CardId>,
    cmd: Option<CardId>,
) -> (Seq<(Seq<char>, CardId)>, Seq<CardId>, Option<CardId>, int)
    decreases es.len() - i,
{
    if i < 0 || i >= es.len() {
        (known, deck, cmd, i)
    } else {
        let name = front_face_spec(es[i].0);
        match resolve_id(known, sample, name) {
            None => (known, deck, cmd, i),
            Some(id) => take_resolved(
                es,
                sample,
                i + 1,
                known_after(known, name, id),
                deck + Seq::new(es[i].1 as nat, |k: int| id),
                if es[i].2 {
                    Some(id)
                } else {
                    cmd
                },
            ),
        }
    }
}

impl MoxfieldImport {
    /// The entries.
    pub open spec fn entries_view(&self) -> Seq<(Seq<char>, u32, bool)> {
        self.entries@.map_values(|e: ImportEntry| import_view(e))
    }

    /// Whether the deck can take the copies of the entries not yet taken in.
    pub open spec fn room_for_rest(&self) -> bool {
        self.assembly.deck@.len() + entry_quantity_from(self.entries_view(), self.next as int) <= usize::MAX
    }

    /// Start importing a deck: its entries (commanders first, each name
    /// once), searched in `sample_db` before fetching, with fetched cards
    /// joining `merged_db`.
    pub fn new(deck: &MoxfieldDeckResponse, sample_db: CardDatabase, merged_db: CardDatabase) -> (r: MoxfieldImport)
        ensures
            r.entries_view() == import_entries_spec(*deck),
            r.next == 0,
            r.sample_db == sample_db,
            r.merged_db == merged_db,
            r.assembly.known@.len() == 0,
            r.assembly.deck@.len() == 0,
            r.assembly.commander_id is None,
            r.assembly.errors@.len() == 0,
            r.extra_ids@.len() == 0,
    {
        MoxfieldImport {
            entries: import_entries(deck),
            next: 0,
            sample_db,
            assembly: DeckAssembly::new(),
            merged_db,
            extra_ids: Vec::new(),
        }
    }

    /// Take in the entries whose cards resolve without fetching, up to the
    /// first whose card must be fetched; ask for that card (by its front
    /// face name), or say that the import is done.
    pub fn advance(&mut self) -> (r: ImportStep)
        requires
            old(self).next <= old(self).entries@.len(),
            old(self).room_for_rest(),
        ensures
            ({
                let (known, deck, cmd, j) = take_resolved(
                    old(self).entries_view(),
                    old(self).sample_db.cards@,
                    old(self).next as int,
                    old(self).assembly.known_view(),
                    old(self).assembly.deck@,
                    old(self).assembly.commander_id,
                );
                &&& final(self).assembly.known_view() == known
                &&& final(self).assembly.deck@ == deck
                &&& final(self).assembly.commander_id == cmd
                &&& final(self).next == j
                &&& match r {
                    ImportStep::Fetch(name) => j < old(self).entries@.len() && name@ == front_face_spec(
                        old(self).entries_view()[j].0,
                    ),
                    ImportStep::Done => j >= old(self).entries@.len(),
                }
            }),
            final(self).next <= final(self).entries@.len(),
            final(self).room_for_rest(),
            final(self).entries == old(self).entries,
            final(self).sample_db == old(self).sample_db,
            final(self).merged_db == old(self).merged_db,
            final(self).extra_ids == old(self).extra_ids,
            final(self).assembly.errors@ == old(self).assembly.errors@,
    {
        let ghost ev = self.entries_view();
        let ghost sample = self.sample_db.cards@;
        let ghost target = take_resolved(
            ev,
            sample,
            self.next as int,
            self.assembly.known_view(),
            self.assembly.deck@,
            self.assembly.commander_id,
        );
        let mut stop = false;
        while !stop && self.next < self.entries.len()
            invariant
                self.next <= self.entries@.len(),
                self.room_for_rest(),
                self.entries_view() == ev,
                self.sample_db.cards@ == sample,
                self.entries == old(self).entries,
                self.sample_db == old(self).sample_db,
                self.merged_db == old(self).merged_db,
                self.extra_ids == old(self).extra_ids,
                self.assembly.errors@ == old(self).assembly.errors@,
                target == take_resolved(
                    old(self).entries_view(),
                    old(self).sample_db.cards@,
                    old(self).next as int,
                    old(self).assembly.known_view(),
                    old(self).assembly.deck@,
                    old(self).assembly.commander_id,
                ),
                stop ==> self.next < ev.len() && resolve_id(
                    self.assembly.known_view(),
                    sample,
                    front_face_spec(ev[self.next as int].0),
                ) is None,
                target == take_resolved(
                    ev,
                    sample,
                    self.next as int,
                    self.assembly.known_view(),
                    self.assembly.deck@,
                    self.assembly.commander_id,
                ),
            decreases self.entries.len() - self.next, if stop { 0int } else { 1int },
        {
            let i = self.next;
            assert(ev[i as int] == import_view(self.entries@[i as int]));
            let lookup = front_face_name(self.entries[i].name.as_str());
            match self.assembly.known_id(lookup.as_str(), &self.sample_db) {
                None => {
                    stop = true;
                },
                Some(id) => {
                    let q = self.entries[i].quantity;
                    let is_cmd = self.entries[i].is_commander;
                    self.assembly.add_card(lookup.as_str(), id, q, is_cmd);
                    self.next = i + 1;
                },
            }
        }
        if self.next < self.entries.len() {
            let i = self.next;
            assert(ev[i as int] == import_view(self.entries@[i as int]));
            ImportStep::Fetch(front_face_name(self.entries[i].name.as_str()))
        } else {
            ImportStep::Done
        }
    }

    /// Take in the entry whose card was asked for, with what fetching it
    /// gave: the definition, which joins the merged database when its id
    /// is new there (its id then recorded as an extra card), and whose id
    /// the entry's copies get; or the error text, recorded as
    /// `name: error`, with the entry left out of the deck.
    pub fn supply(&mut self, fetched: Result<CardDef, String>)
        requires
            old(self).next < old(self).entries@.len(),
            old(self).room_for_rest(),
        ensures
            ({
                let e = old(self).entries_view()[old(self).next as int];
                let name = front_face_spec(e.0);
                match fetched {
                    Ok(def) => {
                        &&& (if old(self).merged_db.lookup(def.id) is None {
                            &&& final(self).merged_db.lookup(def.id) == Some(def)
                            &&& forall|k: CardId| k != def.id ==> final(self).merged_db.lookup(k) == old(self).merged_db.lookup(k)
                            &&& final(self).extra_ids@ == old(self).extra_ids@.push(def.id)
                        } else {
                            &&& final(self).merged_db == old(self).merged_db
                            &&& final(self).extra_ids == old(self).extra_ids
                        })
                        &&& final(self).assembly.known_view() == known_after(old(self).assembly.known_view(), name, def.id)
                        &&& final(self).assembly.deck@ == old(self).assembly.deck@ + Seq::new(e.1 as nat, |k: int| def.id)
                        &&& final(self).assembly.commander_id == (if e.2 {
                            Some(def.id)
                        } else {
                            old(self).assembly.commander_id
                        })
                        &&& final(self).assembly.errors@ == old(self).assembly.errors@
                    },
                    Err(msg) => {
                        &&& final(self).assembly.errors@.len() == old(self).assembly.errors@.len() + 1
                        &&& final(self).assembly.errors@.last()@ == e.0 + ": "@ + msg@
                        &&& forall|i: int|
                            0 <= i < old(self).assembly.errors@.len() ==> final(self).assembly.errors@[i]
                                == old(self).assembly.errors@[i]
                        &&& final(self).assembly.known == old(self).assembly.known
                        &&& final(self).assembly.deck == old(self).assembly.deck
                        &&& final(self).assembly.commander_id == old(self).assembly.commander_id
                        &&& final(self).merged_db == old(self).merged_db
                        &&& final(self).extra_ids == old(self).extra_ids
                    },
                }
            }),
            final(self).next == old(self).next + 1,
            final(self).entries == old(self).entries,
            final(self).sample_db == old(self).sample_db,
            final(self).room_for_rest(),
    {
        let i = self.next;
        let n = self.entries.len();
        let ghost ev = self.entries_view();
        assert(ev[i as int] == import_view(self.entries@[i as int]));
        match fetched {
            Ok(def) => {
                let id = def.id;
                let lookup = front_face_name(self.entries[i].name.as_str());
                if self.merged_db.get(id).is_none() {
                    self.extra_ids.push(id);
                    self.merged_db.insert(def);
                }
                let q = self.entries[i].quantity;
                let is_cmd = self.entries[i].is_commander;
                self.assembly.add_card(lookup.as_str(), id, q, is_cmd);
            },
            Err(msg) => {
                self.assembly.add_error(self.entries[i].name.as_str(), msg.as_str());
            },
        }
        self.next = i + 1;
    }
}

} // verus!

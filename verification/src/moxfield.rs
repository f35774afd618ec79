//! Moxfield deck import: deck ids from URLs, file names from deck names,
//! the deck text format, and assembling a deck list as card names resolve.
//! Fetching from the Moxfield API and writing files are done by the caller.
use vstd::prelude::*;

pub mod import;

use crate::card::{CardDatabase, CardId, find_name_in};
use crate::text::{
    chars_of, decimal, find_chars, find_from, push_char, push_decimal, push_str, string_from_chars,
    str_eq, trim, trim_chars,
};

verus! {

/// An import error.
#[derive(Debug)]
pub enum MoxfieldError {
    /// The input is not a Moxfield deck URL or id.
    InvalidUrl(String),
    /// The API could not be reached.
    Network(String),
    /// The API's answer could not be read.
    Parse(String),
    /// Card data could not be fetched.
    Scryfall(crate::scryfall::ScryfallError),
    /// A file could not be written.
    Io(String),
}

/// The text of a Moxfield import error.
pub open spec fn moxfield_error_text(e: MoxfieldError) -> Seq<char> {
    match e {
        MoxfieldError::InvalidUrl(s) => "invalid Moxfield URL or ID: "@ + s@,
        MoxfieldError::Network(s) => "network error: "@ + s@,
        MoxfieldError::Parse(s) => "JSON parse error: "@ + s@,
        MoxfieldError::Scryfall(e) => "Scryfall error: "@ + crate::scryfall::error_text(e),
        MoxfieldError::Io(s) => "I/O error: "@ + s@,
    }
}

impl MoxfieldError {
    /// The error's text, as it is shown to a user.
    pub fn message(&self) -> (r: String)
        ensures
            r@ == moxfield_error_text(*self),
    {
        let mut out = String::new();
        match self {
            MoxfieldError::InvalidUrl(s) => {
                push_str(&mut out, "invalid Moxfield URL or ID: ");
                push_str(&mut out, s.as_str());
            },
            MoxfieldError::Network(s) => {
                push_str(&mut out, "network error: ");
                push_str(&mut out, s.as_str());
            },
            MoxfieldError::Parse(s) => {
                push_str(&mut out, "JSON parse error: ");
                push_str(&mut out, s.as_str());
            },
            MoxfieldError::Scryfall(e) => {
                push_str(&mut out, "Scryfall error: ");
                let inner = e.message();
                push_str(&mut out, inner.as_str());
            },
            MoxfieldError::Io(s) => {
                push_str(&mut out, "I/O error: ");
                push_str(&mut out, s.as_str());
            },
        }
        out
    }
}

impl From<crate::scryfall::ScryfallError> for MoxfieldError {
    fn from(e: crate::scryfall::ScryfallError) -> (r: MoxfieldError)
        ensures
            r == MoxfieldError::Scryfall(e),
    {
        MoxfieldError::Scryfall(e)
    }
}

impl vstd::std_specs::convert::FromSpecImpl<crate::scryfall::ScryfallError> for MoxfieldError {
    open spec fn obeys_from_spec() -> bool {
        true
    }

    open spec fn from_spec(e: crate::scryfall::ScryfallError) -> MoxfieldError {
        MoxfieldError::Scryfall(e)
    }
}

/// The text of a Moxfield deck URL that precedes the deck id.
pub open spec fn decks_marker() -> Seq<char> {
    "moxfield.com/decks/"@
}

/// The part of a sequence before the first occurrence of a character.
pub open spec fn before_char(s: Seq<char>, c: char) -> Seq<char>
    decreases s.len(),
{
    if s.len() == 0 {
        s
    } else if s[0] == c {
        Seq::empty()
    } else {
        seq![s[0]] + before_char(s.drop_first(), c)
    }
}

/// The deck id in a URL or bare id: the trimmed input, or, when it holds
/// `moxfield.com/decks/`, the trimmed path segment after it. An empty
/// input or an empty segment is an error with the given message.
pub open spec fn deck_id_spec(input: Seq<char>) -> Result<Seq<char>, Seq<char>> {
    let t = trim(input);
    if t.len() == 0 {
        Err("empty input"@)
    } else {
        match find_from(t, decks_marker(), 0) {
            Some(pos) => {
                let id = trim(before_char(t.skip(pos + decks_marker().len()), '/'));
                if id.len() == 0 {
                    Err("could not extract deck ID from URL: "@ + t)
                } else {
                    Ok(id)
                }
            },
            None => Ok(t),
        }
    }
}

/// Extract a Moxfield deck id from a deck URL
/// (`https://moxfield.com/decks/<id>`, with or without `www.`) or return a
/// bare id as it is.
pub fn extract_deck_id(url_or_id: &str) -> (r: Result<String, MoxfieldError>)
    ensures
        match deck_id_spec(url_or_id@) {
            Ok(id) => r matches Ok(s) && s@ == id,
            Err(msg) => r matches Err(MoxfieldError::InvalidUrl(m)) && m@ == msg,
        },
{
    let chars = chars_of(url_or_id);
    let trimmed = trim_chars(&chars);
    if trimmed.len() == 0 {
        return Err(MoxfieldError::InvalidUrl(String::from_str("empty input")));
    }
    let marker_str = "moxfield.com/decks/";
    let marker = chars_of(marker_str);
    proof {
        reveal_strlit("moxfield.com/decks/");
    }
    assert(marker@ == decks_marker());
    match find_chars(&trimmed, &marker) {
        Some(pos) => {
            proof {
                crate::text::lemma_find_from_occurs(trimmed@, marker@, 0);
            }
            let mut seg: Vec<char> = Vec::new();
            let mut i: usize = pos + marker.len();
            let ghost rest = trimmed@.skip(pos + decks_marker().len());
            assert(rest =~= trimmed@.skip(i as int));
            while i < trimmed.len() && trimmed[i] != '/'
                invariant
                    pos + marker@.len() <= i <= trimmed@.len(),
                    rest == trimmed@.skip(pos + marker@.len()),
                    before_char(rest, '/') == seg@ + before_char(trimmed@.skip(i as int), '/'),
                decreases trimmed.len() - i,
            {
                assert(trimmed@.skip(i as int).drop_first() =~= trimmed@.skip(i + 1));
                assert(before_char(trimmed@.skip(i as int), '/') =~= seq![trimmed@[i as int]] + before_char(trimmed@.skip(i + 1), '/'));
                seg.push(trimmed[i]);
                i = i + 1;
            }
            assert(before_char(trimmed@.skip(i as int), '/') =~= Seq::<char>::empty());
            assert(seg@ =~= before_char(rest, '/'));
            let id = trim_chars(&seg);
            if id.len() == 0 {
                let mut msg = String::from_str("could not extract deck ID from URL: ");
                let t = string_from_chars(&trimmed);
                push_str(&mut msg, t.as_str());
                return Err(MoxfieldError::InvalidUrl(msg));
            }
            Ok(string_from_chars(&id))
        },
        None => Ok(string_from_chars(&trimmed)),
    }
}

/// What a character of a deck name becomes in a file name: lowercase
/// letters and digits stay, capitals are lowered, a space becomes a hyphen
/// (as does a hyphen), and anything else is dropped.
pub open spec fn name_char(c: char) -> Option<char> {
    if ('a' <= c && c <= 'z') || ('0' <= c && c <= '9') {
        Some(c)
    } else if 'A' <= c && c <= 'Z' {
        Some(((c as u32) + 32) as char)
    } else if c == ' ' || c == '-' {
        Some('-')
    } else {
        None
    }
}

/// The file-name characters of a deck name, before hyphens are collapsed.
pub open spec fn name_chars(s: Seq<char>) -> Seq<char>
    decreases s.len(),
{
    if s.len() == 0 {
        Seq::empty()
    } else {
        let rest = name_chars(s.drop_last());
        match name_char(s.last()) {
            Some(c) => rest.push(c),
            None => rest,
        }
    }
}

/// Join the hyphen-free runs of `s[i..]` with single hyphens, after `out`
/// (with a hyphen owed before the next run when `pending`).
pub open spec fn collapse_hyphens_from(s: Seq<char>, i: int, out: Seq<char>, pending: bool) -> Seq<char>
    decreases s.len() - i,
{
    if i < 0 || i >= s.len() {
        out
    } else if s[i] == '-' {
        collapse_hyphens_from(s, i + 1, out, pending || out.len() > 0)
    } else {
        let o = if pending {
            out.push('-')
        } else {
            out
        };
        collapse_hyphens_from(s, i + 1, o.push(s[i]), false)
    }
}

/// A file-system-safe stem for a deck name: lowercase letters, digits and
/// single hyphens between words, with no hyphen at either end.
pub open spec fn sanitize_spec(name: Seq<char>) -> Seq<char> {
    collapse_hyphens_from(name_chars(name), 0, Seq::empty(), false)
}

/// The file-name character of a name character.
fn name_char_exec(c: char) -> (r: Option<char>)
    ensures
        r == name_char(c),
{
    if ('a' <= c && c <= 'z') || ('0' <= c && c <= '9') {
        Some(c)
    } else if 'A' <= c && c <= 'Z' {
        let lower = ((c as u8) + 32) as char;
        assert(lower == ((c as u32) + 32) as char);
        Some(lower)
    } else if c == ' ' || c == '-' {
        Some('-')
    } else {
        None
    }
}

/// Convert a deck name to a file-system-safe stem: lowercase, spaces become
/// hyphens, other characters that are neither letters, digits nor hyphens
/// are dropped, and runs of hyphens collapse to one, none at the ends.
pub fn sanitize_name(name: &str) -> (r: String)
    ensures
        r@ == sanitize_spec(name@),
{
    let chars = chars_of(name);
    let mut mapped: Vec<char> = Vec::new();
    let mut i: usize = 0;
    while i < chars.len()
        invariant
            i <= chars@.len(),
            mapped@ == name_chars(chars@.take(i as int)),
        decreases chars.len() - i,
    {
        assert(chars@.take(i + 1).drop_last() =~= chars@.take(i as int));
        match name_char_exec(chars[i]) {
            Some(c) => mapped.push(c),
            None => {},
        }
        i = i + 1;
    }
    assert(chars@.take(chars@.len() as int) =~= chars@);
    let mut out: Vec<char> = Vec::new();
    let mut pending = false;
    let mut j: usize = 0;
    while j < mapped.len()
        invariant
            j <= mapped@.len(),
            collapse_hyphens_from(mapped@, 0, Seq::empty(), false) == collapse_hyphens_from(mapped@, j as int, out@, pending),
        decreases mapped.len() - j,
    {
        let c = mapped[j];
        if c == '-' {
            pending = pending || out.len() > 0;
        } else {
            if pending {
                out.push('-');
            }
            out.push(c);
            pending = false;
        }
        j = j + 1;
    }
    string_from_chars(&out)
}

/// A card in a Moxfield deck.
#[derive(Debug, Clone)]
pub struct MoxfieldCard {
    pub name: String,
}

/// A card slot of a Moxfield deck section: how many copies of which card.
#[derive(Debug, Clone)]
pub struct MoxfieldCardEntry {
    pub quantity: u32,
    pub card: MoxfieldCard,
}

/// A Moxfield deck: its name, commanders and main deck (the sideboard is
/// not kept). The order of the entries does not matter.
#[derive(Debug, Clone)]
pub struct MoxfieldDeckResponse {
    pub name: String,
    pub commanders: Vec<MoxfieldCardEntry>,
    pub mainboard: Vec<MoxfieldCardEntry>,
}

/// Whether `a` comes strictly before `b` in character order (the order of
/// `String`'s comparison, which compares UTF-8 bytes).
pub open spec fn name_lt(a: Seq<char>, b: Seq<char>) -> bool
    decreases a.len(),
{
    if b.len() == 0 {
        false
    } else if a.len() == 0 {
        true
    } else if a[0] != b[0] {
        (a[0] as u32) < (b[0] as u32)
    } else {
        name_lt(a.drop_first(), b.drop_first())
    }
}

/// Whether `a` comes strictly before `b` in character order.
fn name_lt_exec(a: &Vec<char>, b: &Vec<char>) -> (r: bool)
    ensures
        r == name_lt(a@, b@),
{
    let mut i: usize = 0;
    assert(a@.skip(0) =~= a@);
    assert(b@.skip(0) =~= b@);
    while i < a.len() && i < b.len() && a[i] == b[i]
        invariant
            i <= a@.len(),
            i <= b@.len(),
            name_lt(a@, b@) == name_lt(a@.skip(i as int), b@.skip(i as int)),
        decreases a.len() - i,
    {
        assert(a@.skip(i as int).drop_first() =~= a@.skip(i + 1));
        assert(b@.skip(i as int).drop_first() =~= b@.skip(i + 1));
        i = i + 1;
    }
    if i >= b.len() {
        false
    } else if i >= a.len() {
        true
    } else {
        (a[i] as u32) < (b[i] as u32)
    }
}

/// The name and quantity of an entry.
pub open spec fn entry_view(e: MoxfieldCardEntry) -> (Seq<char>, u32) {
    (e.card.name@, e.quantity)
}

/// Insert an entry after every entry whose name does not come after its.
pub open spec fn insert_by_name(s: Seq<(Seq<char>, u32)>, x: (Seq<char>, u32)) -> Seq<(Seq<char>, u32)>
    decreases s.len(),
{
    if s.len() == 0 {
        seq![x]
    } else if name_lt(x.0, s[0].0) {
        seq![x] + s
    } else {
        seq![s[0]] + insert_by_name(s.drop_first(), x)
    }
}

/// A stable sort of entries by card name.
pub open spec fn sort_by_name(s: Seq<(Seq<char>, u32)>) -> Seq<(Seq<char>, u32)>
    decreases s.len(),
{
    if s.len() == 0 {
        s
    } else {
        insert_by_name(sort_by_name(s.drop_last()), s.last())
    }
}

proof fn lemma_insert_by_name(s: Seq<(Seq<char>, u32)>, x: (Seq<char>, u32), pos: int)
    requires
        0 <= pos <= s.len(),
        forall|k: int| 0 <= k < pos ==> !name_lt(x.0, (#[trigger] s[k]).0),
        pos < s.len() ==> name_lt(x.0, s[pos].0),
    ensures
        insert_by_name(s, x) == s.insert(pos, x),
    decreases s.len(),
{
    if s.len() == 0 {
        assert(s.insert(pos, x) =~= seq![x]);
    } else if pos == 0 {
        assert(s.insert(0, x) =~= seq![x] + s);
    } else {
        let t = s.drop_first();
        assert forall|k: int| 0 <= k < pos - 1 implies !name_lt(x.0, (#[trigger] t[k]).0) by {
            assert(t[k] == s[k + 1]);
        }
        lemma_insert_by_name(t, x, pos - 1);
        assert(seq![s[0]] + t.insert(pos - 1, x) =~= s.insert(pos, x));
    }
}

/// The views of a list of entries.
pub open spec fn entry_views(s: Seq<MoxfieldCardEntry>) -> Seq<(Seq<char>, u32)> {
    s.map_values(|e: MoxfieldCardEntry| entry_view(e))
}

/// Entries sorted by card name (stable), as (name, quantity) pairs.
fn sorted_entries(v: &Vec<MoxfieldCardEntry>) -> (r: Vec<(Vec<char>, u32)>)
    ensures
        r@.map_values(|p: (Vec<char>, u32)| (p.0@, p.1)) == sort_by_name(entry_views(v@)),
{
    let mut out: Vec<(Vec<char>, u32)> = Vec::new();
    let mut i: usize = 0;
    while i < v.len()
        invariant
            i <= v@.len(),
            out@.map_values(|p: (Vec<char>, u32)| (p.0@, p.1)) == sort_by_name(entry_views(v@.take(i as int))),
        decreases v.len() - i,
    {
        let name = chars_of(v[i].card.name.as_str());
        let q = v[i].quantity;
        let ghost xs = out@.map_values(|p: (Vec<char>, u32)| (p.0@, p.1));
        let mut pos: usize = 0;
        while pos < out.len() && !name_lt_exec(&name, &out[pos].0)
            invariant
                pos <= out@.len(),
                xs == out@.map_values(|p: (Vec<char>, u32)| (p.0@, p.1)),
                forall|k: int| 0 <= k < pos ==> !name_lt(name@, (#[trigger] xs[k]).0),
            decreases out.len() - pos,
        {
            pos = pos + 1;
        }
        proof {
            lemma_insert_by_name(xs, (name@, q), pos as int);
            assert(entry_views(v@.take(i + 1)).drop_last() =~= entry_views(v@.take(i as int)));
            assert(entry_views(v@.take(i + 1)).last() == (name@, q));
        }
        out.insert(pos, (name, q));
        assert(out@.map_values(|p: (Vec<char>, u32)| (p.0@, p.1)) =~= xs.insert(pos as int, (name@, q)));
        i = i + 1;
    }
    assert(v@.take(v@.len() as int) =~= v@);
    out
}

/// The lines of a deck section: `quantity name`, one per entry.
pub open spec fn section_lines(s: Seq<(Seq<char>, u32)>) -> Seq<char>
    decreases s.len(),
{
    if s.len() == 0 {
        Seq::empty()
    } else {
        section_lines(s.drop_last()) + decimal(s.last().1 as nat) + " "@ + s.last().0 + "\n"@
    }
}

/// The deck text of a Moxfield deck: a commanders section (followed by a
/// blank line) and a main deck section, each with a header line and the
/// entries sorted by name; an empty section is left out.
pub open spec fn deck_text_spec(deck: MoxfieldDeckResponse) -> Seq<char> {
    let c = if deck.commanders@.len() > 0 {
        "~~Commanders~~\n"@ + section_lines(sort_by_name(entry_views(deck.commanders@))) + "\n"@
    } else {
        Seq::empty()
    };
    let m = if deck.mainboard@.len() > 0 {
        "~~Mainboard~~\n"@ + section_lines(sort_by_name(entry_views(deck.mainboard@)))
    } else {
        Seq::empty()
    };
    c + m
}

/// Append the lines of a section.
fn push_section(out: &mut String, entries: &Vec<(Vec<char>, u32)>)
    ensures
        final(out)@ == old(out)@ + section_lines(entries@.map_values(|p: (Vec<char>, u32)| (p.0@, p.1))),
{
    let ghost vs = entries@.map_values(|p: (Vec<char>, u32)| (p.0@, p.1));
    let mut i: usize = 0;
    while i < entries.len()
        invariant
            i <= entries@.len(),
            vs == entries@.map_values(|p: (Vec<char>, u32)| (p.0@, p.1)),
            out@ == old(out)@ + section_lines(vs.take(i as int)),
        decreases entries.len() - i,
    {
        let ghost before = out@;
        push_decimal(out, entries[i].1 as u64);
        push_str(out, " ");
        let name = string_from_chars(&entries[i].0);
        push_str(out, name.as_str());
        push_str(out, "\n");
        proof {
            assert(vs.take(i + 1).drop_last() =~= vs.take(i as int));
            assert(vs.take(i + 1).last() == (entries@[i as int].0@, entries@[i as int].1));
            assert(out@ =~= old(out)@ + section_lines(vs.take(i + 1)));
        }
        i = i + 1;
    }
    assert(vs.take(vs.len() as int) =~= vs);
}

/// The deck text of a Moxfield deck, in this crate's deck format.
pub fn build_deck_text(deck: &MoxfieldDeckResponse) -> (r: String)
    ensures
        r@ == deck_text_spec(*deck),
{
    let mut out = String::new();
    if deck.commanders.len() > 0 {
        push_str(&mut out, "~~Commanders~~\n");
        let sorted = sorted_entries(&deck.commanders);
        push_section(&mut out, &sorted);
        push_str(&mut out, "\n");
    }
    let ghost mid = out@;
    if deck.mainboard.len() > 0 {
        push_str(&mut out, "~~Mainboard~~\n");
        let sorted = sorted_entries(&deck.mainboard);
        push_section(&mut out, &sorted);
    }
    assert(out@ =~= deck_text_spec(*deck));
    out
}

/// A card to import: its name, how many copies, and whether it is a
/// commander.
#[derive(Debug, Clone)]
pub struct ImportEntry {
    pub name: String,
    pub quantity: u32,
    pub is_commander: bool,
}

/// Whether a name is among the names of a list of entries.
pub open spec fn seen_name(names: Seq<Seq<char>>, n: Seq<char>) -> bool {
    names.contains(n)
}

/// The entries of a sorted section whose names were not seen before (a
/// name's first entry is kept), after `acc`.
pub open spec fn dedupe(
    s: Seq<(Seq<char>, u32)>,
    is_commander: bool,
    acc: Seq<(Seq<char>, u32, bool)>,
) -> Seq<(Seq<char>, u32, bool)>
    decreases s.len(),
{
    if s.len() == 0 {
        acc
    } else {
        let names = acc.map_values(|e: (Seq<char>, u32, bool)| e.0);
        let next = if names.contains(s[0].0) {
            acc
        } else {
            acc.push((s[0].0, s[0].1, is_commander))
        };
        dedupe(s.drop_first(), is_commander, next)
    }
}

/// The cards to import from a deck: its commanders, then its main deck,
/// each sorted by name, keeping the first entry of each name.
pub open spec fn import_entries_spec(deck: MoxfieldDeckResponse) -> Seq<(Seq<char>, u32, bool)> {
    let c = dedupe(sort_by_name(entry_views(deck.commanders@)), true, Seq::empty());
    dedupe(sort_by_name(entry_views(deck.mainboard@)), false, c)
}

/// The view of an import entry.
pub open spec fn import_view(e: ImportEntry) -> (Seq<char>, u32, bool) {
    (e.name@, e.quantity, e.is_commander)
}

/// Append the entries of a sorted section whose names were not seen.
fn push_new_entries(out: &mut Vec<ImportEntry>, sorted: &Vec<(Vec<char>, u32)>, is_commander: bool)
    ensures
        final(out)@.map_values(|e: ImportEntry| import_view(e)) == dedupe(
            sorted@.map_values(|p: (Vec<char>, u32)| (p.0@, p.1)),
            is_commander,
            old(out)@.map_values(|e: ImportEntry| import_view(e)),
        ),
{
    let ghost vs = sorted@.map_values(|p: (Vec<char>, u32)| (p.0@, p.1));
    let ghost target = dedupe(vs, is_commander, out@.map_values(|e: ImportEntry| import_view(e)));
    let mut i: usize = 0;
    assert(vs.skip(0) =~= vs);
    while i < sorted.len()
        invariant
            i <= sorted@.len(),
            vs == sorted@.map_values(|p: (Vec<char>, u32)| (p.0@, p.1)),
            target == dedupe(vs.skip(i as int), is_commander, out@.map_values(|e: ImportEntry| import_view(e))),
        decreases sorted.len() - i,
    {
        let ghost acc = out@.map_values(|e: ImportEntry| import_view(e));
        let name = string_from_chars(&sorted[i].0);
        let mut seen = false;
        let mut k: usize = 0;
        while k < out.len()
            invariant
                k <= out@.len(),
                acc == out@.map_values(|e: ImportEntry| import_view(e)),
                seen == exists|m: int| 0 <= m < k && out@[m].name@ == name@,
            decreases out.len() - k,
        {
            if str_eq(out[k].name.as_str(), name.as_str()) {
                seen = true;
            }
            k = k + 1;
        }
        proof {
            assert(vs.skip(i as int).drop_first() =~= vs.skip(i + 1));
            assert(vs.skip(i as int)[0] == (name@, sorted@[i as int].1));
            let names = acc.map_values(|e: (Seq<char>, u32, bool)| e.0);
            if seen {
                let m = choose|m: int| 0 <= m < out@.len() && out@[m].name@ == name@;
                assert(names[m] == name@);
            } else {
                assert forall|m: int| 0 <= m < names.len() implies names[m] != name@ by {
                    assert(names[m] == out@[m].name@);
                }
            }
        }
        if !seen {
            out.push(ImportEntry { name, quantity: sorted[i].1, is_commander });
            assert(out@.map_values(|e: ImportEntry| import_view(e)) =~= acc.push((name@, sorted@[i as int].1, is_commander)));
        }
        i = i + 1;
    }
}

/// The cards to import from a deck: commanders, then the main deck, each
/// sorted by name, without repeating a name.
pub fn import_entries(deck: &MoxfieldDeckResponse) -> (r: Vec<ImportEntry>)
    ensures
        r@.map_values(|e: ImportEntry| import_view(e)) == import_entries_spec(*deck),
{
    let mut out: Vec<ImportEntry> = Vec::new();
    let commanders = sorted_entries(&deck.commanders);
    assert(out@.map_values(|e: ImportEntry| import_view(e)) =~= Seq::<(Seq<char>, u32, bool)>::empty());
    push_new_entries(&mut out, &commanders, true);
    let mainboard = sorted_entries(&deck.mainboard);
    push_new_entries(&mut out, &mainboard, false);
    out
}

/// The name a card is looked up by: the front face of a double-faced
/// card (the part before the first ` // `), otherwise the whole name.
pub open spec fn front_face_spec(name: Seq<char>) -> Seq<char> {
    match find_from(name, " // "@, 0) {
        Some(p) => name.take(p),
        None => name,
    }
}

/// The name a card is looked up by.
pub fn front_face_name(name: &str) -> (r: String)
    ensures
        r@ == front_face_spec(name@),
{
    let chars = chars_of(name);
    let sep = chars_of(" // ");
    match find_chars(&chars, &sep) {
        Some(p) => {
            proof {
                crate::text::lemma_find_from_occurs(chars@, sep@, 0);
            }
            let mut front: Vec<char> = Vec::new();
            let mut i: usize = 0;
            while i < p
                invariant
                    i <= p,
                    p <= chars@.len(),
                    front@ == chars@.take(i as int),
                decreases p - i,
            {
                front.push(chars[i]);
                i = i + 1;
                assert(front@ =~= chars@.take(i as int));
            }
            string_from_chars(&front)
        },
        None => string_from_chars(&chars),
    }
}

/// The result of a successful Moxfield import.
pub struct MoxfieldImportResult {
    /// Human-readable deck name (from Moxfield).
    pub deck_name: String,
    /// File-system-safe version of the deck name used for file names.
    pub file_stem: String,
    /// Merged card database: sample cards and fetched cards.
    pub db: CardDatabase,
    /// Flat deck list (the commander included).
    pub deck: Vec<CardId>,
    /// Commander card id.
    pub commander_id: Option<CardId>,
    /// Cards that could not be fetched (name and reason).
    pub errors: Vec<String>,
    /// Path where the deck list was saved.
    pub deck_txt_path: String,
    /// Path where the extra card definitions were saved (none if all cards
    /// were found in the sample database).
    pub cards_json_path: Option<String>,
}

/// A deck list being assembled as card names resolve to card ids.
#[derive(Debug)]
pub struct DeckAssembly {
    /// Lookup names already resolved, with their ids.
    pub known: Vec<(String, CardId)>,
    /// The deck so far: each card repeated by its quantity.
    pub deck: Vec<CardId>,
    /// The commander, once one is added.
    pub commander_id: Option<CardId>,
    /// Cards that could not be resolved: `name: reason`.
    pub errors: Vec<String>,
}

/// The id recorded for a lookup name, if any (the first recorded).
pub open spec fn known_lookup(known: Seq<(Seq<char>, CardId)>, name: Seq<char>) -> Option<CardId>
    decreases known.len(),
{
    if known.len() == 0 {
        None
    } else if known[0].0 == name {
        Some(known[0].1)
    } else {
        known_lookup(known.drop_first(), name)
    }
}

impl DeckAssembly {
    /// The recorded names and ids.
    pub open spec fn known_view(&self) -> Seq<(Seq<char>, CardId)> {
        self.known@.map_values(|p: (String, CardId)| (p.0@, p.1))
    }

    /// An empty assembly.
    pub fn new() -> (r: DeckAssembly)
        ensures
            r.known@.len() == 0,
            r.deck@.len() == 0,
            r.commander_id is None,
            r.errors@.len() == 0,
    {
        DeckAssembly { known: Vec::new(), deck: Vec::new(), commander_id: None, errors: Vec::new() }
    }

    /// The id of a lookup name without fetching: one already resolved, or
    /// else a card of that name in the sample database.
    pub fn known_id(&self, lookup_name: &str, sample_db: &CardDatabase) -> (r: Option<CardId>)
        ensures
            r == (match known_lookup(self.known_view(), lookup_name@) {
                Some(id) => Some(id),
                None => find_name_in(sample_db.cards@, lookup_name@),
            }),
    {
        let mut i: usize = 0;
        assert(self.known_view().skip(0) =~= self.known_view());
        while i < self.known.len()
            invariant
                i <= self.known@.len(),
                known_lookup(self.known_view(), lookup_name@) == known_lookup(self.known_view().skip(i as int), lookup_name@),
            decreases self.known.len() - i,
        {
            assert(self.known_view().skip(i as int).drop_first() =~= self.known_view().skip(i + 1));
            assert(self.known_view().skip(i as int)[0] == (self.known@[i as int].0@, self.known@[i as int].1));
            if str_eq(self.known[i].0.as_str(), lookup_name) {
                return Some(self.known[i].1);
            }
            i = i + 1;
        }
        sample_db.find_by_name(lookup_name)
    }

    /// Add a resolved card: remember its lookup name (if new), add
    /// `quantity` copies to the deck, and make it the commander if it is
    /// one.
    pub fn add_card(&mut self, lookup_name: &str, id: CardId, quantity: u32, is_commander: bool)
        requires
            old(self).deck@.len() + quantity <= usize::MAX,
        ensures
            final(self).known_view() == (if known_lookup(old(self).known_view(), lookup_name@) is Some {
                old(self).known_view()
            } else {
                old(self).known_view().push((lookup_name@, id))
            }),
            final(self).deck@ == old(self).deck@ + Seq::new(quantity as nat, |i: int| id),
            final(self).commander_id == (if is_commander {
                Some(id)
            } else {
                old(self).commander_id
            }),
            final(self).errors@ == old(self).errors@,
    {
        let empty_db = CardDatabase::new();
        let already = self.known_id(lookup_name, &empty_db);
        let ghost kv = self.known_view();
        if already.is_none() {
            self.known.push((String::from_str(lookup_name), id));
            assert(self.known_view() =~= kv.push((lookup_name@, id)));
        }
        let ghost d0 = self.deck@;
        let ghost kv1 = self.known_view();
        let mut k: u32 = 0;
        while k < quantity
            invariant
                k <= quantity,
                self.known_view() == kv1,
                self.errors@ == old(self).errors@,
                self.commander_id == old(self).commander_id,
                d0.len() + quantity <= usize::MAX,
                self.deck@ == d0 + Seq::new(k as nat, |i: int| id),
            decreases quantity - k,
        {
            self.deck.push(id);
            k = k + 1;
            assert(self.deck@ =~= d0 + Seq::new(k as nat, |i: int| id));
        }
        if is_commander {
            self.commander_id = Some(id);
        }
    }

    /// Record a card that could not be resolved, as `name: reason`.
    pub fn add_error(&mut self, card_name: &str, reason: &str)
        ensures
            final(self).errors@.len() == old(self).errors@.len() + 1,
            final(self).errors@.last()@ == card_name@ + ": "@ + reason@,
            forall|i: int| 0 <= i < old(self).errors@.len() ==> final(self).errors@[i] == old(self).errors@[i],
            final(self).known == old(self).known,
            final(self).deck == old(self).deck,
            final(self).commander_id == old(self).commander_id,
    {
        let mut msg = String::new();
        push_str(&mut msg, card_name);
        push_str(&mut msg, ": ");
        push_str(&mut msg, reason);
        assert(msg@ =~= card_name@ + ": "@ + reason@);
        self.errors.push(msg);
    }
}

} // verus!

# mtg_gto

The core of a Magic: The Gathering rules engine, with its behaviour stated in
`requires` / `ensures` contracts and proved by Verus.

## Layout

- `src/` — the verified library:
  - `mana` — mana costs (parsing, mana value, text) and mana pools (paying, combining);
  - `card`, `events`, `game` — card definitions, the card database, card instances, game state;
  - `movement`, `snapshot`, `game_effects`, `replacement` — moving objects between zones,
    saving and restoring state, damage and death replacements;
  - `rules` — auto-tapping and cost modifiers (`rules::mana`), state-based checks
    (`rules::sba`), drawing with draw replacements and the draw triggers it fires
    (`rules::draw`), queueing triggered abilities and putting them on the stack in APNAP
    order (`rules::triggers`), combat damage with
    first strike, double strike, trample, deathtouch, lifelink, wither, infect, toxic and
    flanking (`rules::combat`, given each creature's power, toughness and keywords);
  - `action`, `strategy` — player decisions and the greedy heuristic player;
  - `setup` — Commander deck validation and game setup (`setup::opening`);
  - `info_set`, `hashing`, `sorting` — information sets and their abstractions;
  - `scryfall`, `moxfield` — turning card data and deck lists into definitions and decks
    (spell effects in `scryfall::spell`, triggered, activated and static abilities in
    `scryfall::triggers`, `scryfall::activated` and `scryfall::statics`, equip costs in
    `scryfall::equip`);
    `scryfall::import` and `moxfield::import` run a deck import step by step, asking the
    caller for the definitions they need;
  - `solver` — training configuration.
- `tests/` — tests of the library on concrete values.
- `app/` — the command-line program: network and file access (Scryfall, Moxfield, the card
  cache), JSON, and the loops that feed fetched data to the library.

Randomness (shuffling) goes through the `rand` crate; its contract states only that a
shuffle keeps the same cards.

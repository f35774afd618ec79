//! Colors, mana costs and mana pools.
use vstd::prelude::*;

use crate::text::{decimal, push_decimal, push_str};

pub mod roundtrip;

verus! {

/// The five colors of Magic.
#[derive(Debug, Clone, Copy, PartialEq, Eq, Hash, Structural)]
pub enum Color {
    White,
    Blue,
    Black,
    Red,
    Green,
}

/// Position of a color in the order White, Blue, Black, Red, Green.
pub open spec fn color_rank(c: Color) -> int {
    match c {
        Color::White => 0,
        Color::Blue => 1,
        Color::Black => 2,
        Color::Red => 3,
        Color::Green => 4,
    }
}

/// The color at a given position of the order White, Blue, Black, Red, Green.
pub open spec fn color_at(i: int) -> Color {
    if i == 0 {
        Color::White
    } else if i == 1 {
        Color::Blue
    } else if i == 2 {
        Color::Black
    } else if i == 3 {
        Color::Red
    } else {
        Color::Green
    }
}

impl Color {
    /// All five colors in the order White, Blue, Black, Red, Green.
    pub fn all() -> (r: Vec<Color>)
        ensures
            r@.len() == 5,
            forall|i: int| 0 <= i < 5 ==> r@[i] == color_at(i),
    {
        let mut v: Vec<Color> = Vec::new();
        v.push(Color::White);
        v.push(Color::Blue);
        v.push(Color::Black);
        v.push(Color::Red);
        v.push(Color::Green);
        v
    }

    /// The one-letter symbol of the color (W, U, B, R, G).
    pub fn symbol(&self) -> (r: char)
        ensures
            r == color_symbol(*self),
    {
        match self {
            Color::White => 'W',
            Color::Blue => 'U',
            Color::Black => 'B',
            Color::Red => 'R',
            Color::Green => 'G',
        }
    }
}

/// The one-letter symbol of a color.
pub open spec fn color_symbol(c: Color) -> char {
    match c {
        Color::White => 'W',
        Color::Blue => 'U',
        Color::Black => 'B',
        Color::Red => 'R',
        Color::Green => 'G',
    }
}

/// A mana cost: what must be paid to cast a spell or activate an ability.
#[derive(Debug, Clone, Copy, PartialEq, Eq, Hash, Structural)]
pub struct ManaCost {
    pub generic: u32,
    pub white: u32,
    pub blue: u32,
    pub black: u32,
    pub red: u32,
    pub green: u32,
}

impl ManaCost {
    /// The mana value (converted mana cost), as a mathematical integer.
    pub open spec fn cmc_spec(self) -> int {
        self.generic + self.white + self.blue + self.black + self.red + self.green
    }

    /// How much of one color the cost requires.
    pub open spec fn color_spec(self, c: Color) -> u32 {
        match c {
            Color::White => self.white,
            Color::Blue => self.blue,
            Color::Black => self.black,
            Color::Red => self.red,
            Color::Green => self.green,
        }
    }

    /// Total of the colored requirements.
    pub open spec fn colored_spec(self) -> int {
        self.white + self.blue + self.black + self.red + self.green
    }

    pub fn zero() -> (r: ManaCost)
        ensures
            r == (ManaCost { generic: 0, white: 0, blue: 0, black: 0, red: 0, green: 0 }),
    {
        ManaCost { generic: 0, white: 0, blue: 0, black: 0, red: 0, green: 0 }
    }

    pub fn new(generic: u32, white: u32, blue: u32, black: u32, red: u32, green: u32) -> (r: ManaCost)
        ensures
            r == (ManaCost { generic, white, blue, black, red, green }),
    {
        ManaCost { generic, white, blue, black, red, green }
    }

    /// The cost as it is written, such as `{2}{W}{U}`.
    pub fn to_text(&self) -> (r: String)
        ensures
            r@ == cost_text(*self),
    {
        let mut s = String::new();
        if self.generic > 0 || (self.white == 0 && self.blue == 0 && self.black == 0 && self.red == 0
            && self.green == 0) {
            push_str(&mut s, "{");
            push_decimal(&mut s, self.generic as u64);
            push_str(&mut s, "}");
        }
        push_repeat(&mut s, "{W}", self.white);
        push_repeat(&mut s, "{U}", self.blue);
        push_repeat(&mut s, "{B}", self.black);
        push_repeat(&mut s, "{R}", self.red);
        push_repeat(&mut s, "{G}", self.green);
        s
    }

    /// Converted mana cost / mana value.
    pub fn cmc(&self) -> (r: u32)
        requires
            self.cmc_spec() <= u32::MAX,
        ensures
            r == self.cmc_spec(),
    {
        self.generic + self.white + self.blue + self.black + self.red + self.green
    }

    /// The amount of a specific color required.
    pub fn color_amount(&self, color: Color) -> (r: u32)
        ensures
            r == self.color_spec(color),
    {
        match color {
            Color::White => self.white,
            Color::Blue => self.blue,
            Color::Black => self.black,
            Color::Red => self.red,
            Color::Green => self.green,
        }
    }

    /// Parse a mana cost string like "{2}{W}{U}" or "{3}{B}{B}". Each `{`
    /// opens a symbol that runs to the next `}`; W, U, B, R, G count one mana
    /// of that color, X counts nothing, a number counts that much generic
    /// mana, and anything else is ignored. The result is always `Some`.
    pub fn parse(s: &str) -> (r: Option<ManaCost>)
        requires
            tally_fits(parse_tally(s@)),
        ensures
            r is Some,
            tally_of(r->0) == parse_tally(s@),
    {
        let n = s.unicode_len();
        let mut cost = ManaCost::zero();
        let mut i: usize = 0;
        while i < n
            invariant
                n == s@.len(),
                i <= n,
                tally_from(s@, i as int, tally_of(cost)) == parse_tally(s@),
                tally_fits(parse_tally(s@)),
            decreases n - i,
        {
            let c = s.get_char(i);
            if c == '{' {
                let mut sym: Vec<char> = Vec::new();
                let mut j: usize = i + 1;
                proof {
                    lemma_brace_end_bounds(s@, i + 1);
                }
                while j < n && s.get_char(j) != '}'
                    invariant
                        n == s@.len(),
                        i < n,
                        i + 1 <= j <= n,
                        sym@ =~= s@.subrange(i + 1, j as int),
                        brace_end(s@, i + 1) == brace_end(s@, j as int),
                    decreases n - j,
                {
                    sym.push(s.get_char(j));
                    j = j + 1;
                }
                assert(brace_end(s@, j as int) == j);
                let ghost t = tally_of(cost);
                proof {
                    let e = brace_end(s@, i + 1);
                    lemma_tally_from_grows(s@, e + 1, symbol_effect(t, s@.subrange(i + 1, e)));
                    lemma_symbol_effect_grows(t, s@.subrange(i + 1, e));
                }
                apply_symbol(&mut cost, &sym);
                if j < n {
                    i = j + 1;
                } else {
                    i = n;
                }
            } else {
                i = i + 1;
            }
        }
        Some(cost)
    }

    /// Parse a mana cost string as `parse` does, or give `None` where a
    /// total would not fit in a `u32`.
    pub fn parse_checked(s: &str) -> (r: Option<ManaCost>)
        ensures
            match r {
                Some(c) => tally_fits(parse_tally(s@)) && tally_of(c) == parse_tally(s@),
                None => !tally_fits(parse_tally(s@)),
            },
    {
        let n = s.unicode_len();
        let mut cost = ManaCost::zero();
        let mut i: usize = 0;
        while i < n
            invariant
                n == s@.len(),
                i <= n,
                tally_from(s@, i as int, tally_of(cost)) == parse_tally(s@),
            decreases n - i,
        {
            let c = s.get_char(i);
            if c == '{' {
                let mut sym: Vec<char> = Vec::new();
                let mut j: usize = i + 1;
                proof {
                    lemma_brace_end_bounds(s@, i + 1);
                }
                while j < n && s.get_char(j) != '}'
                    invariant
                        n == s@.len(),
                        i < n,
                        i + 1 <= j <= n,
                        sym@ =~= s@.subrange(i + 1, j as int),
                        brace_end(s@, i + 1) == brace_end(s@, j as int),
                    decreases n - j,
                {
                    sym.push(s.get_char(j));
                    j = j + 1;
                }
                assert(brace_end(s@, j as int) == j);
                let ghost t = tally_of(cost);
                proof {
                    let e = brace_end(s@, i + 1);
                    lemma_tally_from_grows(s@, e + 1, symbol_effect(t, s@.subrange(i + 1, e)));
                    lemma_symbol_effect_grows(t, s@.subrange(i + 1, e));
                }
                if !symbol_fits(&cost, &sym) {
                    proof {
                        let e = brace_end(s@, i + 1);
                        lemma_tally_from_grows(s@, e + 1, symbol_effect(t, s@.subrange(i + 1, e)));
                    }
                    return None;
                }
                apply_symbol(&mut cost, &sym);
                if j < n {
                    i = j + 1;
                } else {
                    i = n;
                }
            } else {
                i = i + 1;
            }
        }
        Some(cost)
    }

    /// Colors present in this mana cost, in the order W, U, B, R, G.
    pub fn colors(&self) -> (r: Vec<Color>)
        ensures
            r@ == cost_colors(*self),
    {
        let mut colors: Vec<Color> = Vec::new();
        if self.white > 0 {
            colors.push(Color::White);
        }
        if self.blue > 0 {
            colors.push(Color::Blue);
        }
        if self.black > 0 {
            colors.push(Color::Black);
        }
        if self.red > 0 {
            colors.push(Color::Red);
        }
        if self.green > 0 {
            colors.push(Color::Green);
        }
        colors
    }
}

/// The colors that occur in a cost, in the order W, U, B, R, G.
pub open spec fn cost_colors(c: ManaCost) -> Seq<Color> {
    (if c.white > 0 { seq![Color::White] } else { Seq::empty() })
        + (if c.blue > 0 { seq![Color::Blue] } else { Seq::empty() })
        + (if c.black > 0 { seq![Color::Black] } else { Seq::empty() })
        + (if c.red > 0 { seq![Color::Red] } else { Seq::empty() })
        + (if c.green > 0 { seq![Color::Green] } else { Seq::empty() })
}

/// A mana pool: the mana a player currently has available.
#[derive(Debug, Clone, Copy, PartialEq, Eq, Structural)]
pub struct ManaPool {
    pub white: u32,
    pub blue: u32,
    pub black: u32,
    pub red: u32,
    pub green: u32,
    pub colorless: u32,
}

/// The empty pool.
pub open spec fn empty_pool() -> ManaPool {
    ManaPool { white: 0, blue: 0, black: 0, red: 0, green: 0, colorless: 0 }
}

/// `n` copies of a text, one after another.
pub open spec fn repeat_text(t: Seq<char>, n: nat) -> Seq<char>
    decreases n,
{
    if n == 0 {
        Seq::empty()
    } else {
        repeat_text(t, (n - 1) as nat) + t
    }
}

/// How a mana cost is written: the generic part in braces (when it is
/// positive, or when the cost is free), then a braced letter for each
/// colored mana, in the order W, U, B, R, G.
pub open spec fn cost_text(c: ManaCost) -> Seq<char> {
    (if c.generic > 0 || c.cmc_spec() == 0 {
        "{"@ + decimal(c.generic as nat) + "}"@
    } else {
        Seq::empty()
    }) + repeat_text("{W}"@, c.white as nat) + repeat_text("{U}"@, c.blue as nat) + repeat_text(
        "{B}"@,
        c.black as nat,
    ) + repeat_text("{R}"@, c.red as nat) + repeat_text("{G}"@, c.green as nat)
}

/// Append `n` copies of a text.
fn push_repeat(s: &mut String, t: &str, n: u32)
    ensures
        final(s)@ == old(s)@ + repeat_text(t@, n as nat),
{
    let mut k: u32 = 0;
    assert(old(s)@ + repeat_text(t@, 0) =~= old(s)@);
    while k < n
        invariant
            k <= n,
            s@ == old(s)@ + repeat_text(t@, k as nat),
        decreases n - k,
    {
        push_str(s, t);
        k = k + 1;
        assert(s@ =~= old(s)@ + repeat_text(t@, k as nat));
    }
}

impl ManaPool {
    /// Total mana in the pool, as a mathematical integer.
    pub open spec fn total_spec(self) -> int {
        self.white + self.blue + self.black + self.red + self.green + self.colorless
    }

    /// The amount of one color in the pool.
    pub open spec fn get_spec(self, c: Color) -> u32 {
        match c {
            Color::White => self.white,
            Color::Blue => self.blue,
            Color::Black => self.black,
            Color::Red => self.red,
            Color::Green => self.green,
        }
    }

    /// The pool with the amount of one color replaced.
    pub open spec fn set_spec(self, c: Color, v: u32) -> ManaPool {
        match c {
            Color::White => ManaPool { white: v, ..self },
            Color::Blue => ManaPool { blue: v, ..self },
            Color::Black => ManaPool { black: v, ..self },
            Color::Red => ManaPool { red: v, ..self },
            Color::Green => ManaPool { green: v, ..self },
        }
    }

    /// Whether the pool can pay the cost: every colored requirement is met,
    /// and what is left over (colored excess plus colorless) covers the
    /// generic part.
    pub open spec fn can_pay_spec(self, cost: ManaCost) -> bool {
        &&& self.white >= cost.white
        &&& self.blue >= cost.blue
        &&& self.black >= cost.black
        &&& self.red >= cost.red
        &&& self.green >= cost.green
        &&& (self.white - cost.white) + (self.blue - cost.blue) + (self.black - cost.black)
            + (self.red - cost.red) + (self.green - cost.green) + self.colorless >= cost.generic
    }

    /// The pool after paying: colored requirements first, then the generic
    /// part from colorless mana, then from the remaining colored mana in the
    /// order W, U, B, R, G.
    pub open spec fn pay_spec(self, cost: ManaCost) -> ManaPool {
        let w0 = (self.white - cost.white) as int;
        let u0 = (self.blue - cost.blue) as int;
        let b0 = (self.black - cost.black) as int;
        let r0 = (self.red - cost.red) as int;
        let g0 = (self.green - cost.green) as int;
        let g = cost.generic as int;
        let from_c = min_int(g, self.colorless as int);
        let g1 = g - from_c;
        let from_w = min_int(g1, w0);
        let g2 = g1 - from_w;
        let from_u = min_int(g2, u0);
        let g3 = g2 - from_u;
        let from_b = min_int(g3, b0);
        let g4 = g3 - from_b;
        let from_r = min_int(g4, r0);
        let g5 = g4 - from_r;
        let from_g = min_int(g5, g0);
        ManaPool {
            white: (w0 - from_w) as u32,
            blue: (u0 - from_u) as u32,
            black: (b0 - from_b) as u32,
            red: (r0 - from_r) as u32,
            green: (g0 - from_g) as u32,
            colorless: (self.colorless - from_c) as u32,
        }
    }

    pub fn empty() -> (r: ManaPool)
        ensures
            r == empty_pool(),
    {
        ManaPool { white: 0, blue: 0, black: 0, red: 0, green: 0, colorless: 0 }
    }

    /// Total mana in the pool.
    pub fn total(&self) -> (r: u32)
        requires
            self.total_spec() <= u32::MAX,
        ensures
            r == self.total_spec(),
    {
        self.white + self.blue + self.black + self.red + self.green + self.colorless
    }

    pub fn get(&self, color: Color) -> (r: u32)
        ensures
            r == self.get_spec(color),
    {
        match color {
            Color::White => self.white,
            Color::Blue => self.blue,
            Color::Black => self.black,
            Color::Red => self.red,
            Color::Green => self.green,
        }
    }

    /// A mutable reference to the amount of one color.
    pub fn get_mut(&mut self, color: Color) -> (r: &mut u32)
        ensures
            *r == old(self).get_spec(color),
            *final(self) == old(self).set_spec(color, *final(r)),
    {
        match color {
            Color::White => &mut self.white,
            Color::Blue => &mut self.blue,
            Color::Black => &mut self.black,
            Color::Red => &mut self.red,
            Color::Green => &mut self.green,
        }
    }

    /// Whether the mana of two pools can be held in one.
    pub open spec fn fits_with(self, rhs: ManaPool) -> bool {
        &&& self.white + rhs.white <= u32::MAX
        &&& self.blue + rhs.blue <= u32::MAX
        &&& self.black + rhs.black <= u32::MAX
        &&& self.red + rhs.red <= u32::MAX
        &&& self.green + rhs.green <= u32::MAX
        &&& self.colorless + rhs.colorless <= u32::MAX
    }

    /// The pool holding the mana of both pools.
    pub open spec fn combined_spec(self, rhs: ManaPool) -> ManaPool {
        ManaPool {
            white: (self.white + rhs.white) as u32,
            blue: (self.blue + rhs.blue) as u32,
            black: (self.black + rhs.black) as u32,
            red: (self.red + rhs.red) as u32,
            green: (self.green + rhs.green) as u32,
            colorless: (self.colorless + rhs.colorless) as u32,
        }
    }

    /// The pool holding the mana of both pools (`a + b`).
    pub fn combined(self, rhs: ManaPool) -> (r: ManaPool)
        requires
            self.fits_with(rhs),
        ensures
            r == self.combined_spec(rhs),
    {
        ManaPool {
            white: self.white + rhs.white,
            blue: self.blue + rhs.blue,
            black: self.black + rhs.black,
            red: self.red + rhs.red,
            green: self.green + rhs.green,
            colorless: self.colorless + rhs.colorless,
        }
    }

    /// Add the mana of another pool to this one (`a += b`).
    pub fn absorb(&mut self, rhs: ManaPool)
        requires
            old(self).fits_with(rhs),
        ensures
            *final(self) == old(self).combined_spec(rhs),
    {
        self.white = self.white + rhs.white;
        self.blue = self.blue + rhs.blue;
        self.black = self.black + rhs.black;
        self.red = self.red + rhs.red;
        self.green = self.green + rhs.green;
        self.colorless = self.colorless + rhs.colorless;
    }

    /// Add mana of one color.
    pub fn add_color(&mut self, color: Color, amount: u32)
        requires
            old(self).get_spec(color) + amount <= u32::MAX,
        ensures
            *final(self) == old(self).set_spec(color, (old(self).get_spec(color) + amount) as u32),
    {
        let r = self.get_mut(color);
        *r = *r + amount;
    }

    /// Whether this pool can pay a given mana cost.
    pub fn can_pay(&self, cost: &ManaCost) -> (r: bool)
        ensures
            r == self.can_pay_spec(*cost),
    {
        if self.white < cost.white || self.blue < cost.blue || self.black < cost.black
            || self.red < cost.red || self.green < cost.green {
            return false;
        }
        let remaining: u64 = (self.white - cost.white) as u64 + (self.blue - cost.blue) as u64
            + (self.black - cost.black) as u64 + (self.red - cost.red) as u64 + (self.green
            - cost.green) as u64 + self.colorless as u64;
        remaining >= cost.generic as u64
    }

    /// Pay a mana cost from this pool. Returns false, and leaves the pool as
    /// it was, when the cost cannot be paid. Colored costs are paid first, then
    /// the generic part from colorless mana, then from excess colored mana in
    /// the order W, U, B, R, G.
    pub fn pay(&mut self, cost: &ManaCost) -> (r: bool)
        ensures
            r == old(self).can_pay_spec(*cost),
            r ==> *final(self) == old(self).pay_spec(*cost),
            !r ==> *final(self) == *old(self),
    {
        if !self.can_pay(cost) {
            return false;
        }
        self.white = self.white - cost.white;
        self.blue = self.blue - cost.blue;
        self.black = self.black - cost.black;
        self.red = self.red - cost.red;
        self.green = self.green - cost.green;
        let mut remaining: u32 = cost.generic;
        let from_c = if remaining < self.colorless { remaining } else { self.colorless };
        self.colorless = self.colorless - from_c;
        remaining = remaining - from_c;
        let from_w = if remaining < self.white { remaining } else { self.white };
        self.white = self.white - from_w;
        remaining = remaining - from_w;
        let from_u = if remaining < self.blue { remaining } else { self.blue };
        self.blue = self.blue - from_u;
        remaining = remaining - from_u;
        let from_b = if remaining < self.black { remaining } else { self.black };
        self.black = self.black - from_b;
        remaining = remaining - from_b;
        let from_r = if remaining < self.red { remaining } else { self.red };
        self.red = self.red - from_r;
        remaining = remaining - from_r;
        let from_g = if remaining < self.green { remaining } else { self.green };
        self.green = self.green - from_g;
        true
    }

    /// Empty the mana pool (happens at the end of each step and phase).
    pub fn drain(&mut self)
        ensures
            *final(self) == empty_pool(),
    {
        *self = ManaPool::empty();
    }
}

/// Running totals of a cost being parsed: (generic, white, blue, black, red, green).
pub type Tally = (int, int, int, int, int, int);

/// The totals of a cost.
pub open spec fn tally_of(c: ManaCost) -> Tally {
    (c.generic as int, c.white as int, c.blue as int, c.black as int, c.red as int, c.green as int)
}

/// Whether each total fits in a `u32`.
pub open spec fn tally_fits(t: Tally) -> bool {
    &&& 0 <= t.0 <= u32::MAX
    &&& 0 <= t.1 <= u32::MAX
    &&& 0 <= t.2 <= u32::MAX
    &&& 0 <= t.3 <= u32::MAX
    &&& 0 <= t.4 <= u32::MAX
    &&& 0 <= t.5 <= u32::MAX
}

/// Componentwise order of totals.
pub open spec fn tally_le(a: Tally, b: Tally) -> bool {
    a.0 <= b.0 && a.1 <= b.1 && a.2 <= b.2 && a.3 <= b.3 && a.4 <= b.4 && a.5 <= b.5
}

/// Whether a character is an ASCII decimal digit.
pub open spec fn is_digit(c: char) -> bool {
    '0' <= c && c <= '9'
}

/// The value of a string of decimal digits.
pub open spec fn digits_value(s: Seq<char>) -> int
    decreases s.len(),
{
    if s.len() == 0 {
        0
    } else {
        digits_value(s.drop_last()) * 10 + (s.last() as int - '0' as int)
    }
}

/// Whether every character is a decimal digit.
pub open spec fn all_digits(d: Seq<char>) -> bool {
    forall|i: int| 0 <= i < d.len() ==> is_digit(#[trigger] d[i])
}

/// The string without one leading `+`, if it has one.
pub open spec fn unsigned_part(s: Seq<char>) -> Seq<char> {
    if s.len() > 0 && s[0] == '+' {
        s.drop_first()
    } else {
        s
    }
}

/// What reading a string as a `u32` gives: an optional `+`, then one or more
/// decimal digits whose value fits in a `u32`.
pub open spec fn parse_u32_spec(s: Seq<char>) -> Option<int> {
    let d = unsigned_part(s);
    if d.len() > 0 && all_digits(d) && digits_value(d) <= u32::MAX {
        Some(digits_value(d))
    } else {
        None
    }
}

/// What one brace-enclosed symbol adds to the totals: one of the colored
/// letters W, U, B, R, G adds one of that color, X adds nothing, and a
/// number adds that much generic mana; anything else adds nothing.
pub open spec fn symbol_effect(t: Tally, sym: Seq<char>) -> Tally {
    if sym == seq!['W'] {
        (t.0, t.1 + 1, t.2, t.3, t.4, t.5)
    } else if sym == seq!['U'] {
        (t.0, t.1, t.2 + 1, t.3, t.4, t.5)
    } else if sym == seq!['B'] {
        (t.0, t.1, t.2, t.3 + 1, t.4, t.5)
    } else if sym == seq!['R'] {
        (t.0, t.1, t.2, t.3, t.4 + 1, t.5)
    } else if sym == seq!['G'] {
        (t.0, t.1, t.2, t.3, t.4, t.5 + 1)
    } else if sym == seq!['X'] {
        t
    } else {
        match parse_u32_spec(sym) {
            Some(v) => (t.0 + v, t.1, t.2, t.3, t.4, t.5),
            None => t,
        }
    }
}

/// The index of the first `}` at or after `i`, or the length of `s`.
pub open spec fn brace_end(s: Seq<char>, i: int) -> int
    decreases s.len() - i,
{
    if i >= s.len() {
        s.len() as int
    } else if s[i] == '}' {
        i
    } else {
        brace_end(s, i + 1)
    }
}

/// The totals after reading `s` from index `i` on, starting from `t`:
/// each `{` opens a symbol that runs to the next `}` (or to the end), and
/// characters outside braces are skipped.
pub open spec fn tally_from(s: Seq<char>, i: int, t: Tally) -> Tally
    decreases s.len() + 1 - i,
{
    if i < 0 || i >= s.len() {
        t
    } else if s[i] == '{' {
        let e = brace_end(s, i + 1);
        proof {
            lemma_brace_end_bounds(s, i + 1);
        }
        tally_from(s, e + 1, symbol_effect(t, s.subrange(i + 1, e)))
    } else {
        tally_from(s, i + 1, t)
    }
}

/// The cost that a mana-cost string such as "{2}{W}{U}" describes.
pub open spec fn parse_tally(s: Seq<char>) -> Tally {
    tally_from(s, 0, (0, 0, 0, 0, 0, 0))
}

pub proof fn lemma_brace_end_bounds(s: Seq<char>, i: int)
    requires
        0 <= i,
    ensures
        i <= s.len() ==> i <= brace_end(s, i) <= s.len(),
        brace_end(s, i) < s.len() ==> s[brace_end(s, i)] == '}',
        forall|k: int| i <= k < brace_end(s, i) ==> s[k] != '}',
    decreases s.len() - i,
{
    if i < s.len() && s[i] != '}' {
        lemma_brace_end_bounds(s, i + 1);
    }
}

proof fn lemma_symbol_effect_grows(t: Tally, sym: Seq<char>)
    ensures
        tally_le(t, symbol_effect(t, sym)),
{
    let d = unsigned_part(sym);
    if all_digits(d) {
        lemma_digits_nonneg(d);
    }
}

proof fn lemma_tally_from_grows(s: Seq<char>, i: int, t: Tally)
    ensures
        tally_le(t, tally_from(s, i, t)),
    decreases s.len() + 1 - i,
{
    if i < 0 || i >= s.len() {
    } else if s[i] == '{' {
        let e = brace_end(s, i + 1);
        lemma_brace_end_bounds(s, i + 1);
        lemma_symbol_effect_grows(t, s.subrange(i + 1, e));
        lemma_tally_from_grows(s, e + 1, symbol_effect(t, s.subrange(i + 1, e)));
    } else {
        lemma_tally_from_grows(s, i + 1, t);
    }
}

proof fn lemma_digits_prefix_grows(s: Seq<char>, j: int)
    requires
        0 <= j <= s.len(),
        forall|i: int| 0 <= i < s.len() ==> is_digit(#[trigger] s[i]),
    ensures
        digits_value(s.take(j)) <= digits_value(s),
        0 <= digits_value(s.take(j)),
    decreases s.len() - j,
{
    if j < s.len() {
        lemma_digits_prefix_grows(s, j + 1);
        assert(s.take(j + 1).drop_last() =~= s.take(j));
    } else {
        assert(s.take(j) =~= s);
        lemma_digits_nonneg(s);
    }
}

proof fn lemma_digits_nonneg(s: Seq<char>)
    requires
        forall|i: int| 0 <= i < s.len() ==> is_digit(#[trigger] s[i]),
    ensures
        0 <= digits_value(s),
    decreases s.len(),
{
    if s.len() > 0 {
        lemma_digits_nonneg(s.drop_last());
    }
}

/// Read a string as a `u32`, as `str::parse::<u32>` does.
pub fn parse_u32_chars(s: &Vec<char>) -> (r: Option<u32>)
    ensures
        r is Some <==> parse_u32_spec(s@) is Some,
        r is Some ==> parse_u32_spec(s@) == Some(r->0 as int),
{
    let n = s.len();
    let mut start: usize = 0;
    if n > 0 && s[0] == '+' {
        start = 1;
    }
    let ghost d = unsigned_part(s@);
    assert(d =~= s@.subrange(start as int, n as int));
    if start >= n {
        return None;
    }
    let mut value: u64 = 0;
    let mut i = start;
    while i < n
        invariant
            start <= i <= n,
            n == s@.len(),
            d =~= s@.subrange(start as int, n as int),
            d == unsigned_part(s@),
            forall|k: int| 0 <= k < i - start ==> is_digit(#[trigger] d[k]),
            value == digits_value(d.take(i - start)),
            value <= u32::MAX,
        decreases n - i,
    {
        let c = s[i];
        if !('0' <= c && c <= '9') {
            assert(d[i - start] == c);
            assert(!is_digit(d[i - start]));
            assert(!all_digits(d));
            return None;
        }
        let dv = (c as u32 - '0' as u32) as u64;
        assert(d.take(i + 1 - start).drop_last() =~= d.take(i - start));
        let nv = value * 10 + dv;
        if nv > u32::MAX as u64 {
            assert(digits_value(d.take(i + 1 - start)) == nv);
            proof {
                if all_digits(d) {
                    lemma_digits_prefix_grows(d, i + 1 - start);
                }
            }
            return None;
        }
        value = nv;
        i = i + 1;
    }
    assert(d.take(n - start) =~= d);
    Some(value as u32)
}

/// Whether adding what a symbol stands for to a cost keeps its totals in
/// `u32`s.
fn symbol_fits(cost: &ManaCost, sym: &Vec<char>) -> (r: bool)
    ensures
        r == tally_fits(symbol_effect(tally_of(*cost), sym@)),
{
    if sym.len() == 1 {
        let c = sym[0];
        if c == 'W' {
            assert(sym@ =~= seq!['W']);
            return cost.white < u32::MAX;
        } else if c == 'U' {
            assert(sym@ =~= seq!['U']);
            return cost.blue < u32::MAX;
        } else if c == 'B' {
            assert(sym@ =~= seq!['B']);
            return cost.black < u32::MAX;
        } else if c == 'R' {
            assert(sym@ =~= seq!['R']);
            return cost.red < u32::MAX;
        } else if c == 'G' {
            assert(sym@ =~= seq!['G']);
            return cost.green < u32::MAX;
        } else if c == 'X' {
            assert(sym@ =~= seq!['X']);
            return true;
        }
    }
    assert(sym@ != seq!['W'] && sym@ != seq!['U'] && sym@ != seq!['B'] && sym@ != seq!['R']
        && sym@ != seq!['G'] && sym@ != seq!['X']) by {
        if sym@.len() == 1 {
            assert(sym@ =~= seq![sym@[0]]);
        }
    }
    match parse_u32_chars(sym) {
        Some(v) => {
            assert(parse_u32_spec(sym@) == Some(v as int));
            cost.generic <= u32::MAX - v
        },
        None => {
            assert(parse_u32_spec(sym@) is None);
            true
        },
    }
}

/// Add what one brace-enclosed symbol stands for to a cost.
fn apply_symbol(cost: &mut ManaCost, sym: &Vec<char>)
    requires
        tally_fits(symbol_effect(tally_of(*old(cost)), sym@)),
    ensures
        tally_of(*final(cost)) == symbol_effect(tally_of(*old(cost)), sym@),
{
    if sym.len() == 1 {
        let c = sym[0];
        if c == 'W' {
            assert(sym@ =~= seq!['W']);
            cost.white = cost.white + 1;
            return;
        } else if c == 'U' {
            assert(sym@ =~= seq!['U']);
            cost.blue = cost.blue + 1;
            return;
        } else if c == 'B' {
            assert(sym@ =~= seq!['B']);
            cost.black = cost.black + 1;
            return;
        } else if c == 'R' {
            assert(sym@ =~= seq!['R']);
            cost.red = cost.red + 1;
            return;
        } else if c == 'G' {
            assert(sym@ =~= seq!['G']);
            cost.green = cost.green + 1;
            return;
        } else if c == 'X' {
            assert(sym@ =~= seq!['X']);
            return;
        }
    }
    assert(sym@ != seq!['W'] && sym@ != seq!['U'] && sym@ != seq!['B'] && sym@ != seq!['R']
        && sym@ != seq!['G'] && sym@ != seq!['X']) by {
        if sym@.len() == 1 {
            assert(sym@ =~= seq![sym@[0]]);
        }
    }
    match parse_u32_chars(sym) {
        Some(v) => {
            assert(parse_u32_spec(sym@) == Some(v as int));
            assert(symbol_effect(tally_of(*old(cost)), sym@).0 == cost.generic + v);
            cost.generic = cost.generic + v;
        },
        None => {
            assert(parse_u32_spec(sym@) is None);
        },
    }
}

/// The smaller of two integers.
pub open spec fn min_int(a: int, b: int) -> int {
    if a <= b {
        a
    } else {
        b
    }
}

/// Paying a payable cost removes exactly its mana value from the pool.
pub proof fn lemma_pay_removes_cmc(pool: ManaPool, cost: ManaCost)
    requires
        pool.can_pay_spec(cost),
    ensures
        pool.pay_spec(cost).total_spec() == pool.total_spec() - cost.cmc_spec(),
{
}

/// A pool that can pay a cost holds at least the cost's mana value.
pub proof fn lemma_can_pay_needs_cmc(pool: ManaPool, cost: ManaCost)
    requires
        pool.can_pay_spec(cost),
    ensures
        pool.total_spec() >= cost.cmc_spec(),
{
}

/// The empty pool pays exactly the costs whose mana value is zero.
pub proof fn lemma_empty_pool_pays_only_free(cost: ManaCost)
    ensures
        empty_pool().can_pay_spec(cost) <==> cost.cmc_spec() == 0,
{
}

} // verus!

//! Reading a mana cost's text gives the cost back.
use vstd::prelude::*;

use crate::mana::{
    all_digits, brace_end, cost_text, digits_value, is_digit, lemma_brace_end_bounds, parse_tally,
    parse_u32_spec, repeat_text, symbol_effect, tally_from, tally_of, unsigned_part, ManaCost, Tally,
};
use crate::text::{decimal, digit_char_spec};

verus! {

/// Skipping a prefix of a text shifts the first closing brace with it.
proof fn lemma_brace_end_shift(p: Seq<char>, b: Seq<char>, j: int)
    requires
        0 <= j,
    ensures
        brace_end(p + b, p.len() + j) == p.len() + brace_end(b, j),
    decreases b.len() - j,
{
    if j < b.len() && b[j] != '}' {
        assert((p + b)[p.len() + j] == b[j]);
        lemma_brace_end_shift(p, b, j + 1);
    } else if j < b.len() {
        assert((p + b)[p.len() + j] == b[j]);
    }
}

/// Reading a text after a prefix is reading the rest on its own.
proof fn lemma_tally_shift(p: Seq<char>, b: Seq<char>, j: int, t: Tally)
    requires
        0 <= j,
    ensures
        tally_from(p + b, p.len() + j, t) == tally_from(b, j, t),
    decreases b.len() + 1 - j,
{
    let s = p + b;
    if j < b.len() {
        assert(s[p.len() + j] == b[j]);
        if b[j] == '{' {
            lemma_brace_end_shift(p, b, j + 1);
            lemma_brace_end_bounds(b, j + 1);
            let e = brace_end(b, j + 1);
            assert(s.subrange(p.len() + j + 1, p.len() + e) =~= b.subrange(j + 1, e));
            lemma_tally_shift(p, b, e + 1, symbol_effect(t, b.subrange(j + 1, e)));
        } else {
            lemma_tally_shift(p, b, j + 1, t);
        }
    }
}

proof fn lemma_brace_end_exact(s: Seq<char>, i: int, e: int)
    requires
        0 <= i <= e < s.len(),
        s[e] == '}',
        forall|k: int| i <= k < e ==> s[k] != '}',
    ensures
        brace_end(s, i) == e,
    decreases e - i,
{
    if i < e {
        lemma_brace_end_exact(s, i + 1, e);
    }
}

/// Reading a braced symbol and then the rest of a text.
proof fn lemma_symbol_then(body: Seq<char>, rest: Seq<char>, t: Tally)
    requires
        !body.contains('}'),
    ensures
        tally_from(seq!['{'] + body + seq!['}'] + rest, 0, t) == tally_from(rest, 0, symbol_effect(t, body)),
{
    let x = seq!['{'] + body + seq!['}'];
    let s = x + rest;
    assert(s[0] == '{');
    assert forall|k: int| 1 <= k < 1 + body.len() as int implies s[k] != '}' by {
        assert(s[k] == body[k - 1]);
    }
    assert(s[1 + body.len() as int] == '}');
    lemma_brace_end_exact(s, 1, 1 + body.len() as int);
    assert(s.subrange(1, 1 + body.len() as int) =~= body);
    lemma_tally_shift(x, rest, 0, symbol_effect(t, body));
}

/// A run of repeated text, with one copy first.
proof fn lemma_repeat_front(x: Seq<char>, n: nat)
    requires
        n > 0,
    ensures
        repeat_text(x, n) == x + repeat_text(x, (n - 1) as nat),
    decreases n,
{
    if n > 1 {
        lemma_repeat_front(x, (n - 1) as nat);
        assert(repeat_text(x, n) =~= x + repeat_text(x, (n - 1) as nat));
    } else {
        assert(repeat_text(x, 0) =~= Seq::<char>::empty());
        assert(repeat_text(x, 1) =~= x + repeat_text(x, 0));
    }
}

/// The totals after a symbol's effect `n` times.
pub open spec fn repeat_effect(t: Tally, sym: Seq<char>, n: nat) -> Tally
    decreases n,
{
    if n == 0 {
        t
    } else {
        symbol_effect(repeat_effect(t, sym, (n - 1) as nat), sym)
    }
}

proof fn lemma_repeat_effect_front(t: Tally, sym: Seq<char>, n: nat)
    requires
        n > 0,
    ensures
        repeat_effect(t, sym, n) == repeat_effect(symbol_effect(t, sym), sym, (n - 1) as nat),
    decreases n,
{
    if n > 1 {
        lemma_repeat_effect_front(t, sym, (n - 1) as nat);
        assert(repeat_effect(symbol_effect(t, sym), sym, (n - 1) as nat) == symbol_effect(
            repeat_effect(symbol_effect(t, sym), sym, (n - 2) as nat),
            sym,
        ));
    } else {
        assert(repeat_effect(t, sym, 0) == t);
        assert(repeat_effect(symbol_effect(t, sym), sym, 0) == symbol_effect(t, sym));
    }
}

/// Reading `n` copies of a one-letter symbol and then the rest.
proof fn lemma_repeat_symbol(c: char, n: nat, rest: Seq<char>, t: Tally)
    requires
        c != '}',
    ensures
        tally_from(repeat_text(seq!['{', c, '}'], n) + rest, 0, t) == tally_from(
            rest,
            0,
            repeat_effect(t, seq![c], n),
        ),
    decreases n,
{
    if n > 0 {
        let x = seq!['{', c, '}'];
        lemma_repeat_front(x, n);
        assert(!seq![c].contains('}')) by {
            if seq![c].contains('}') {
                let k = choose|k: int| 0 <= k < 1 && seq![c][k] == '}';
            }
        }
        assert(repeat_text(x, n) + rest =~= seq!['{'] + seq![c] + seq!['}'] + (repeat_text(x, (n - 1) as nat) + rest));
        lemma_symbol_then(seq![c], repeat_text(x, (n - 1) as nat) + rest, t);
        lemma_repeat_symbol(c, (n - 1) as nat, rest, symbol_effect(t, seq![c]));
        lemma_repeat_effect_front(t, seq![c], n);
    } else {
        assert(repeat_text(seq!['{', c, '}'], 0) + rest =~= rest);
    }
}

/// A one-letter colored symbol adds `n` to its color, `n` times over.
proof fn lemma_repeat_color(t: Tally, c: char, n: nat)
    requires
        c == 'W' || c == 'U' || c == 'B' || c == 'R' || c == 'G',
    ensures
        repeat_effect(t, seq![c], n) == (if c == 'W' {
            (t.0, t.1 + n, t.2, t.3, t.4, t.5)
        } else if c == 'U' {
            (t.0, t.1, t.2 + n, t.3, t.4, t.5)
        } else if c == 'B' {
            (t.0, t.1, t.2, t.3 + n, t.4, t.5)
        } else if c == 'R' {
            (t.0, t.1, t.2, t.3, t.4 + n, t.5)
        } else {
            (t.0, t.1, t.2, t.3, t.4, t.5 + n)
        }),
    decreases n,
{
    if n > 0 {
        lemma_repeat_color(t, c, (n - 1) as nat);
    }
}

/// The decimal digits of a number are digits, and read back as it.
proof fn lemma_decimal_digits(n: nat)
    ensures
        decimal(n).len() > 0,
        all_digits(decimal(n)),
        digits_value(decimal(n)) == n,
    decreases n,
{
    let d = n % 10;
    assert(digit_char_spec(d) as int - '0' as int == d && is_digit(digit_char_spec(d))) by {
        assert(d < 10);
    }
    if n >= 10 {
        lemma_decimal_digits(n / 10);
        let s = decimal(n);
        assert(s.drop_last() =~= decimal(n / 10));
        assert(s.last() == digit_char_spec(d));
        assert(n == (n / 10) * 10 + d) by (nonlinear_arith)
            requires
                d == n % 10,
        ;
        assert forall|i: int| 0 <= i < s.len() implies is_digit(#[trigger] s[i]) by {
            if i < s.len() - 1 {
                assert(s[i] == decimal(n / 10)[i]);
            }
        }
    } else {
        let s = decimal(n);
        assert(s.drop_last() =~= Seq::<char>::empty());
        assert(digits_value(Seq::<char>::empty()) == 0);
    }
}

/// A number's decimal text reads as the number and is not a letter.
proof fn lemma_decimal_parses(n: nat)
    requires
        n <= u32::MAX,
    ensures
        parse_u32_spec(decimal(n)) == Some(n as int),
        !decimal(n).contains('}'),
        decimal(n) != seq!['W'] && decimal(n) != seq!['U'] && decimal(n) != seq!['B'],
        decimal(n) != seq!['R'] && decimal(n) != seq!['G'] && decimal(n) != seq!['X'],
{
    lemma_decimal_digits(n);
    let s = decimal(n);
    assert(is_digit(s[0]));
    assert(unsigned_part(s) == s);
    if s.contains('}') {
        let k = choose|k: int| 0 <= k < s.len() && s[k] == '}';
        assert(is_digit(s[k]));
    }
    if s.len() == 1 {
        assert(s =~= seq![s[0]]);
    }
}

/// Reading the text of a mana cost gives the cost back: the totals that
/// `ManaCost::parse` reads from `to_text`'s text are the cost's own, so
/// `ManaCost::parse(&c.to_text()) == Some(c)`.
pub proof fn lemma_text_parses_back(c: ManaCost)
    ensures
        parse_tally(cost_text(c)) == tally_of(c),
{
    reveal_strlit("{");
    reveal_strlit("}");
    reveal_strlit("{W}");
    reveal_strlit("{U}");
    reveal_strlit("{B}");
    reveal_strlit("{R}");
    reveal_strlit("{G}");
    let z: Tally = (0, 0, 0, 0, 0, 0);
    let has_g = c.generic > 0 || c.cmc_spec() == 0;
    let g_part: Seq<char> = if has_g {
        "{"@ + decimal(c.generic as nat) + "}"@
    } else {
        Seq::empty()
    };
    assert("{W}"@ =~= seq!['{', 'W', '}']);
    assert("{U}"@ =~= seq!['{', 'U', '}']);
    assert("{B}"@ =~= seq!['{', 'B', '}']);
    assert("{R}"@ =~= seq!['{', 'R', '}']);
    assert("{G}"@ =~= seq!['{', 'G', '}']);
    let rw = repeat_text(seq!['{', 'W', '}'], c.white as nat);
    let ru = repeat_text(seq!['{', 'U', '}'], c.blue as nat);
    let rb = repeat_text(seq!['{', 'B', '}'], c.black as nat);
    let rr = repeat_text(seq!['{', 'R', '}'], c.red as nat);
    let rg = repeat_text(seq!['{', 'G', '}'], c.green as nat);
    let tail = rw + (ru + (rb + (rr + (rg + Seq::<char>::empty()))));
    assert(cost_text(c) =~= g_part + tail);
    let t1: Tally = if has_g {
        (c.generic as int, 0, 0, 0, 0, 0)
    } else {
        z
    };
    if has_g {
        lemma_decimal_parses(c.generic as nat);
        assert(g_part + tail =~= seq!['{'] + decimal(c.generic as nat) + seq!['}'] + tail);
        lemma_symbol_then(decimal(c.generic as nat), tail, z);
    } else {
        assert(g_part + tail =~= tail);
        assert(c.generic == 0);
    }
    assert(parse_tally(cost_text(c)) == tally_from(tail, 0, t1));
    lemma_repeat_symbol('W', c.white as nat, ru + (rb + (rr + (rg + Seq::<char>::empty()))), t1);
    lemma_repeat_color(t1, 'W', c.white as nat);
    let t2 = repeat_effect(t1, seq!['W'], c.white as nat);
    lemma_repeat_symbol('U', c.blue as nat, rb + (rr + (rg + Seq::<char>::empty())), t2);
    lemma_repeat_color(t2, 'U', c.blue as nat);
    let t3 = repeat_effect(t2, seq!['U'], c.blue as nat);
    lemma_repeat_symbol('B', c.black as nat, rr + (rg + Seq::<char>::empty()), t3);
    lemma_repeat_color(t3, 'B', c.black as nat);
    let t4 = repeat_effect(t3, seq!['B'], c.black as nat);
    lemma_repeat_symbol('R', c.red as nat, rg + Seq::<char>::empty(), t4);
    lemma_repeat_color(t4, 'R', c.red as nat);
    let t5 = repeat_effect(t4, seq!['R'], c.red as nat);
    lemma_repeat_symbol('G', c.green as nat, Seq::<char>::empty(), t5);
    lemma_repeat_color(t5, 'G', c.green as nat);
}

} // verus!

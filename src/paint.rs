//! Colour formatting in the two output dialects: zsh prompt macros
//! (`%F{c}...%f`) and raw ANSI SGR codes (`ESC[<30+c>m...ESC[0m`).
use vstd::prelude::*;

verus! {

/// The character of the decimal digit `d`.
pub open spec fn digit_char(d: nat) -> char {
    if d == 0 { '0' }
    else if d == 1 { '1' }
    else if d == 2 { '2' }
    else if d == 3 { '3' }
    else if d == 4 { '4' }
    else if d == 5 { '5' }
    else if d == 6 { '6' }
    else if d == 7 { '7' }
    else if d == 8 { '8' }
    else { '9' }
}

/// Decimal notation of a natural number, without leading zeros.
pub open spec fn dec(n: nat) -> Seq<char>
    decreases n,
{
    if n < 10 {
        seq![digit_char(n)]
    } else {
        dec(n / 10).push(digit_char(n % 10))
    }
}

/// Decimal notation of an integer, with a leading `-` when negative.
pub open spec fn int_dec(i: int) -> Seq<char> {
    if i < 0 {
        seq!['-'] + dec((-i) as nat)
    } else {
        dec(i as nat)
    }
}

/// `text` wrapped in the directives that colour it with palette entry `color`.
pub open spec fn painted(use_ansi: bool, color: int, text: Seq<char>) -> Seq<char> {
    if use_ansi {
        seq!['\x1b', '['] + int_dec(color + 30) + seq!['m'] + text + seq!['\x1b', '[', '0', 'm']
    } else {
        seq!['%', 'F', '{'] + int_dec(color) + seq!['}'] + text + seq!['%', 'f']
    }
}

fn digit_str(d: usize) -> (r: &'static str)
    requires
        d < 10,
    ensures
        r@ == seq![digit_char(d as nat)],
{
    proof {
        reveal_strlit("0");
        reveal_strlit("1");
        reveal_strlit("2");
        reveal_strlit("3");
        reveal_strlit("4");
        reveal_strlit("5");
        reveal_strlit("6");
        reveal_strlit("7");
        reveal_strlit("8");
        reveal_strlit("9");
    }
    match d {
        0 => "0",
        1 => "1",
        2 => "2",
        3 => "3",
        4 => "4",
        5 => "5",
        6 => "6",
        7 => "7",
        8 => "8",
        _ => "9",
    }
}

/// Decimal notation of `n`.
pub fn decimal(n: usize) -> (r: String)
    ensures
        r@ == dec(n as nat),
    decreases n,
{
    if n < 10 {
        String::from_str(digit_str(n))
    } else {
        let mut s = decimal(n / 10);
        s.append(digit_str(n % 10));
        s
    }
}

/// Decimal notation of a signed `i`.
fn signed_decimal(i: i16) -> (r: String)
    ensures
        r@ == int_dec(i as int),
{
    if i < 0 {
        proof {
            reveal_strlit("-");
        }
        let mut s = String::from_str("-");
        let d = decimal((0 - (i as i32)) as usize);
        s.append(d.as_str());
        s
    } else {
        decimal(i as usize)
    }
}

/// Wraps `text` in the colour directives of the chosen dialect. Any `color`
/// is accepted; values outside the 8-colour palette are written out as they
/// are.
pub fn paint_text_in_color(use_ansi: bool, color: &i8, text: String) -> (r: String)
    ensures
        r@ == painted(use_ansi, *color as int, text@),
{
    if use_ansi {
        proof {
            reveal_strlit("\x1b[");
            reveal_strlit("m");
            reveal_strlit("\x1b[0m");
        }
        let code = signed_decimal(*color as i16 + 30);
        let mut s = String::from_str("\x1b[");
        s.append(code.as_str());
        s.append("m");
        s.append(text.as_str());
        s.append("\x1b[0m");
        s
    } else {
        proof {
            reveal_strlit("%F{");
            reveal_strlit("}");
            reveal_strlit("%f");
        }
        let code = signed_decimal(*color as i16);
        let mut s = String::from_str("%F{");
        s.append(code.as_str());
        s.append("}");
        s.append(text.as_str());
        s.append("%f");
        s
    }
}

/// Visible text of `s` once ANSI escape sequences (`ESC ... m`) are removed;
/// `in_escape` tells whether `s` starts inside such a sequence.
pub open spec fn strip_ansi_from(s: Seq<char>, in_escape: bool) -> Seq<char>
    decreases s.len(),
{
    if s.len() == 0 {
        Seq::empty()
    } else if in_escape {
        strip_ansi_from(s.drop_first(), s[0] != 'm')
    } else if s[0] == '\x1b' {
        strip_ansi_from(s.drop_first(), true)
    } else {
        seq![s[0]] + strip_ansi_from(s.drop_first(), false)
    }
}

/// Visible text of `s` once ANSI escape sequences are removed.
pub open spec fn strip_ansi(s: Seq<char>) -> Seq<char> {
    strip_ansi_from(s, false)
}

/// Visible text of `s` once prompt macros (`%F{...}`, `%f`) are removed.
/// `state` is 0 in plain text, 1 just after a `%`, 2 inside `%F{...}`.
pub open spec fn strip_macros_from(s: Seq<char>, state: int) -> Seq<char>
    decreases s.len(),
{
    if s.len() == 0 {
        Seq::empty()
    } else if state == 1 {
        strip_macros_from(s.drop_first(), if s[0] == 'F' { 2int } else { 0int })
    } else if state == 2 {
        strip_macros_from(s.drop_first(), if s[0] == '}' { 0int } else { 2int })
    } else if s[0] == '%' {
        strip_macros_from(s.drop_first(), 1)
    } else {
        seq![s[0]] + strip_macros_from(s.drop_first(), 0)
    }
}

/// Visible text of `s` once prompt macros are removed.
pub open spec fn strip_macros(s: Seq<char>) -> Seq<char> {
    strip_macros_from(s, 0)
}

proof fn lemma_dec_digits(n: nat)
    ensures
        forall|i: int| 0 <= i < dec(n).len() ==> '0' <= #[trigger] dec(n)[i] <= '9',
    decreases n,
{
    if n >= 10 {
        lemma_dec_digits(n / 10);
        let d = dec(n / 10);
        assert forall|i: int| 0 <= i < dec(n).len() implies '0' <= #[trigger] dec(n)[i] <= '9' by {
            if i < d.len() {
                assert(dec(n)[i] == d[i]);
            }
        }
    }
}

proof fn lemma_int_dec_chars(i: int)
    ensures
        forall|k: int| 0 <= k < int_dec(i).len() ==> #[trigger] int_dec(i)[k] != 'm' && int_dec(i)[k] != '}',
{
    if i < 0 {
        lemma_dec_digits((-i) as nat);
        assert forall|k: int| 0 <= k < int_dec(i).len() implies #[trigger] int_dec(i)[k] != 'm' && int_dec(i)[k] != '}' by {
            if k > 0 {
                assert(int_dec(i)[k] == dec((-i) as nat)[k - 1]);
            }
        }
    } else {
        lemma_dec_digits(i as nat);
    }
}

proof fn lemma_ansi_skip(d: Seq<char>, x: Seq<char>)
    requires
        forall|i: int| 0 <= i < d.len() ==> d[i] != 'm',
    ensures
        strip_ansi_from(d + seq!['m'] + x, true) == strip_ansi_from(x, false),
    decreases d.len(),
{
    let s = d + seq!['m'] + x;
    if d.len() == 0 {
        assert(s.drop_first() =~= x);
    } else {
        assert(s.drop_first() =~= d.drop_first() + seq!['m'] + x);
        lemma_ansi_skip(d.drop_first(), x);
    }
}

proof fn lemma_ansi_plain(t: Seq<char>, x: Seq<char>)
    requires
        forall|i: int| 0 <= i < t.len() ==> t[i] != '\x1b',
    ensures
        strip_ansi_from(t + x, false) == t + strip_ansi_from(x, false),
    decreases t.len(),
{
    let s = t + x;
    if t.len() == 0 {
        assert(s =~= x);
    } else {
        assert(s.drop_first() =~= t.drop_first() + x);
        lemma_ansi_plain(t.drop_first(), x);
        assert(t =~= seq![t[0]] + t.drop_first());
    }
}

proof fn lemma_macro_skip(d: Seq<char>, x: Seq<char>)
    requires
        forall|i: int| 0 <= i < d.len() ==> d[i] != '}',
    ensures
        strip_macros_from(d + seq!['}'] + x, 2) == strip_macros_from(x, 0),
    decreases d.len(),
{
    let s = d + seq!['}'] + x;
    if d.len() == 0 {
        assert(s.drop_first() =~= x);
    } else {
        assert(s.drop_first() =~= d.drop_first() + seq!['}'] + x);
        lemma_macro_skip(d.drop_first(), x);
    }
}

proof fn lemma_macro_plain(t: Seq<char>, x: Seq<char>)
    requires
        forall|i: int| 0 <= i < t.len() ==> t[i] != '%',
    ensures
        strip_macros_from(t + x, 0) == t + strip_macros_from(x, 0),
    decreases t.len(),
{
    let s = t + x;
    if t.len() == 0 {
        assert(s =~= x);
    } else {
        assert(s.drop_first() =~= t.drop_first() + x);
        lemma_macro_plain(t.drop_first(), x);
        assert(t =~= seq![t[0]] + t.drop_first());
    }
}

/// Both dialects show the same visible text: stripping the escape
/// sequences from the ANSI form and the macros from the prompt form each
/// give back `text`, for any text free of escape and `%` characters.
pub proof fn styles_share_visible_text(color: int, text: Seq<char>)
    requires
        forall|i: int| 0 <= i < text.len() ==> text[i] != '\x1b' && text[i] != '%',
    ensures
        strip_ansi(painted(true, color, text)) == text,
        strip_macros(painted(false, color, text)) == text,
        strip_ansi(painted(true, color, text)) == strip_macros(painted(false, color, text)),
{
    let reset = seq!['\x1b', '[', '0', 'm'];
    let close = seq!['%', 'f'];
    lemma_int_dec_chars(color + 30);
    lemma_int_dec_chars(color);
    // ANSI form
    let code = seq!['['] + int_dec(color + 30);
    assert forall|i: int| 0 <= i < code.len() implies code[i] != 'm' by {
        if i > 0 {
            assert(code[i] == int_dec(color + 30)[i - 1]);
        }
    }
    let a = painted(true, color, text);
    assert(a[0] == '\x1b');
    assert(a.drop_first() =~= code + seq!['m'] + (text + reset));
    lemma_ansi_skip(code, text + reset);
    lemma_ansi_plain(text, reset);
    assert(strip_ansi_from(reset, false) =~= Seq::<char>::empty()) by {
        reveal_with_fuel(strip_ansi_from, 5);
        assert(reset.drop_first() =~= seq!['[', '0', 'm']);
        assert(reset.drop_first().drop_first() =~= seq!['0', 'm']);
        assert(reset.drop_first().drop_first().drop_first() =~= seq!['m']);
        assert(seq!['m'].drop_first() =~= Seq::<char>::empty());
    }
    assert(text + Seq::<char>::empty() =~= text);
    // prompt macro form
    let m = painted(false, color, text);
    assert(m.drop_first() =~= seq!['F', '{'] + int_dec(color) + seq!['}'] + (text + close));
    assert(m.drop_first().drop_first() =~= seq!['{'] + int_dec(color) + seq!['}'] + (text + close));
    let inner = seq!['{'] + int_dec(color);
    assert forall|i: int| 0 <= i < inner.len() implies inner[i] != '}' by {
        if i > 0 {
            assert(inner[i] == int_dec(color)[i - 1]);
        }
    }
    assert(m.drop_first().drop_first() =~= inner + seq!['}'] + (text + close));
    lemma_macro_skip(inner, text + close);
    assert(m[0] == '%' && m.drop_first()[0] == 'F');
    assert(strip_macros_from(m, 0) == strip_macros_from(m.drop_first(), 1));
    assert(strip_macros_from(m.drop_first(), 1) == strip_macros_from(m.drop_first().drop_first(), 2));
    lemma_macro_plain(text, close);
    assert(strip_macros_from(close, 0) =~= Seq::<char>::empty()) by {
        reveal_with_fuel(strip_macros_from, 3);
        assert(close.drop_first() =~= seq!['f']);
        assert(seq!['f'].drop_first() =~= Seq::<char>::empty());
    }
}

} // verus!

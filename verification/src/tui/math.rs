//! Minimal LaTeX math to Unicode text converter for terminal display.
//!
//! Renders the common math subset as Unicode glyphs (integrals, sums, roots,
//! Greek letters, sub/superscripts). Unknown commands fall back to their
//! plain name; anything exotic degrades to readable ASCII rather than failing.
use vstd::prelude::*;
use crate::blocks::views;
use crate::text::{chars_of, extend_all, string_of, trim_white, trim_white_vec};

verus! {

/// Superscript glyphs of the characters that have one.
pub const SUPERSCRIPTS: [(char, char); 40] = [
    ('0', '⁰'),
    ('1', '¹'),
    ('2', '²'),
    ('3', '³'),
    ('4', '⁴'),
    ('5', '⁵'),
    ('6', '⁶'),
    ('7', '⁷'),
    ('8', '⁸'),
    ('9', '⁹'),
    ('+', '⁺'),
    ('-', '⁻'),
    ('=', '⁼'),
    ('(', '⁽'),
    (')', '⁾'),
    ('a', 'ᵃ'),
    ('b', 'ᵇ'),
    ('c', 'ᶜ'),
    ('d', 'ᵈ'),
    ('e', 'ᵉ'),
    ('f', 'ᶠ'),
    ('g', 'ᵍ'),
    ('h', 'ʰ'),
    ('i', 'ⁱ'),
    ('j', 'ʲ'),
    ('k', 'ᵏ'),
    ('l', 'ˡ'),
    ('m', 'ᵐ'),
    ('n', 'ⁿ'),
    ('o', 'ᵒ'),
    ('p', 'ᵖ'),
    ('r', 'ʳ'),
    ('s', 'ˢ'),
    ('t', 'ᵗ'),
    ('u', 'ᵘ'),
    ('v', 'ᵛ'),
    ('w', 'ʷ'),
    ('x', 'ˣ'),
    ('y', 'ʸ'),
    ('z', 'ᶻ'),
];

/// Subscript glyphs of the characters that have one.
pub const SUBSCRIPTS: [(char, char); 32] = [
    ('0', '₀'),
    ('1', '₁'),
    ('2', '₂'),
    ('3', '₃'),
    ('4', '₄'),
    ('5', '₅'),
    ('6', '₆'),
    ('7', '₇'),
    ('8', '₈'),
    ('9', '₉'),
    ('+', '₊'),
    ('-', '₋'),
    ('=', '₌'),
    ('(', '₍'),
    (')', '₎'),
    ('a', 'ₐ'),
    ('e', 'ₑ'),
    ('h', 'ₕ'),
    ('i', 'ᵢ'),
    ('j', 'ⱼ'),
    ('k', 'ₖ'),
    ('l', 'ₗ'),
    ('m', 'ₘ'),
    ('n', 'ₙ'),
    ('o', 'ₒ'),
    ('p', 'ₚ'),
    ('r', 'ᵣ'),
    ('s', 'ₛ'),
    ('t', 'ₜ'),
    ('u', 'ᵤ'),
    ('v', 'ᵥ'),
    ('x', 'ₓ'),
];

/// Named commands and their glyphs.
pub const SYMBOLS: [(&'static str, char); 147] = [
    ("alpha", 'α'),
    ("beta", 'β'),
    ("gamma", 'γ'),
    ("delta", 'δ'),
    ("epsilon", 'ε'),
    ("zeta", 'ζ'),
    ("eta", 'η'),
    ("theta", 'θ'),
    ("iota", 'ι'),
    ("kappa", 'κ'),
    ("lambda", 'λ'),
    ("mu", 'μ'),
    ("nu", 'ν'),
    ("xi", 'ξ'),
    ("omicron", 'ο'),
    ("pi", 'π'),
    ("rho", 'ρ'),
    ("sigma", 'σ'),
    ("tau", 'τ'),
    ("upsilon", 'υ'),
    ("phi", 'φ'),
    ("chi", 'χ'),
    ("psi", 'ψ'),
    ("omega", 'ω'),
    ("varepsilon", 'ε'),
    ("vartheta", 'ϑ'),
    ("varphi", 'φ'),
    ("varrho", 'ϱ'),
    ("varpi", 'ϖ'),
    ("varsigma", 'ς'),
    ("Gamma", 'Γ'),
    ("Delta", 'Δ'),
    ("Theta", 'Θ'),
    ("Lambda", 'Λ'),
    ("Xi", 'Ξ'),
    ("Pi", 'Π'),
    ("Sigma", 'Σ'),
    ("Upsilon", 'Υ'),
    ("Phi", 'Φ'),
    ("Psi", 'Ψ'),
    ("Omega", 'Ω'),
    ("int", '∫'),
    ("iint", '∬'),
    ("iiint", '∭'),
    ("oint", '∮'),
    ("sum", 'Σ'),
    ("prod", '∏'),
    ("coprod", '∐'),
    ("times", '×'),
    ("div", '÷'),
    ("pm", '±'),
    ("mp", '∓'),
    ("cdot", '·'),
    ("cdots", '⋯'),
    ("ldots", '…'),
    ("dots", '…'),
    ("vdots", '⋮'),
    ("ddots", '⋱'),
    ("neq", '≠'),
    ("ne", '≠'),
    ("le", '≤'),
    ("leq", '≤'),
    ("ge", '≥'),
    ("geq", '≥'),
    ("ll", '≪'),
    ("gg", '≫'),
    ("approx", '≈'),
    ("cong", '≅'),
    ("equiv", '≡'),
    ("sim", '∼'),
    ("simeq", '≃'),
    ("propto", '∝'),
    ("in", '∈'),
    ("notin", '∉'),
    ("ni", '∋'),
    ("notni", '∌'),
    ("subset", '⊂'),
    ("supset", '⊃'),
    ("subseteq", '⊆'),
    ("supseteq", '⊇'),
    ("subsetneq", '⊊'),
    ("supsetneq", '⊋'),
    ("cup", '∪'),
    ("cap", '∩'),
    ("setminus", '∖'),
    ("emptyset", '∅'),
    ("varnothing", '∅'),
    ("partial", '∂'),
    ("nabla", '∇'),
    ("infty", '∞'),
    ("hbar", 'ℏ'),
    ("ell", 'ℓ'),
    ("aleph", 'ℵ'),
    ("imath", 'ı'),
    ("jmath", 'ȷ'),
    ("prime", '′'),
    ("doubleprime", '″'),
    ("dagger", '†'),
    ("ddagger", '‡'),
    ("degree", '°'),
    ("angle", '∠'),
    ("triangle", '△'),
    ("forall", '∀'),
    ("exists", '∃'),
    ("nexists", '∄'),
    ("neg", '¬'),
    ("lnot", '¬'),
    ("land", '∧'),
    ("wedge", '∧'),
    ("lor", '∨'),
    ("vee", '∨'),
    ("to", '→'),
    ("rightarrow", '→'),
    ("gets", '←'),
    ("leftarrow", '←'),
    ("Leftarrow", '⇐'),
    ("Rightarrow", '⇒'),
    ("leftrightarrow", '↔'),
    ("Leftrightarrow", '⇔'),
    ("mapsto", '↦'),
    ("implies", '⇒'),
    ("therefore", '∴'),
    ("because", '∵'),
    ("perp", '⊥'),
    ("parallel", '∥'),
    ("mid", '∣'),
    ("nmid", '∤'),
    ("oplus", '⊕'),
    ("ominus", '⊖'),
    ("otimes", '⊗'),
    ("oslash", '⊘'),
    ("odot", '⊙'),
    ("star", '⋆'),
    ("circ", '∘'),
    ("bullet", '∙'),
    ("bigcirc", '○'),
    ("square", '□'),
    ("diamond", '◇'),
    ("lozenge", '◆'),
    ("clubsuit", '♣'),
    ("diamondsuit", '♢'),
    ("heartsuit", '♡'),
    ("spadesuit", '♠'),
    ("checkmark", '✓'),
    ("Re", 'ℜ'),
    ("Im", 'ℑ'),
    ("wp", '℘'),
];

/// Commands that only size or space their neighbours and print nothing.
pub const SILENT: [&'static str; 21] = [
    "left", "right", "big", "Big", "bigg", "Bigg", "bigl", "bigr", "Bigl", "Bigr", "biggl",
    "biggr", "Biggl", "Biggr", "limits", "nolimits", "displaystyle", "textstyle", "scriptstyle",
    "scriptsize", "notag",
];

/// Commands whose argument is printed as it is.
pub const PLAIN: [&'static str; 6] = ["text", "mathrm", "mathit", "mathbf", "mathsf", "operatorname"];

// ---------------------------------------------------------------------------
// specification
// ---------------------------------------------------------------------------

/// The glyph a character table gives `c`, if any.
pub open spec fn char_lookup(t: Seq<(char, char)>, c: char, k: int) -> Option<char>
    decreases t.len() - k,
{
    if k < 0 || k >= t.len() {
        None
    } else if t[k].0 == c {
        Some(t[k].1)
    } else {
        char_lookup(t, c, k + 1)
    }
}

/// The glyph a name table gives `name`, if any.
pub open spec fn name_lookup(t: Seq<(&'static str, char)>, name: Seq<char>, k: int) -> Option<char>
    decreases t.len() - k,
{
    if k < 0 || k >= t.len() {
        None
    } else if t[k].0@ == name {
        Some(t[k].1)
    } else {
        name_lookup(t, name, k + 1)
    }
}

/// `name` is one of the names of `t`.
pub open spec fn one_of(t: Seq<&'static str>, name: Seq<char>) -> bool {
    exists|k: int| 0 <= k < t.len() && (#[trigger] t[k])@ == name
}

/// Every character of `a` in script glyphs, or None when one has none.
pub open spec fn script_run(a: Seq<char>, t: Seq<(char, char)>) -> Option<Seq<char>>
    decreases a.len(),
{
    if a.len() == 0 {
        Some(Seq::empty())
    } else {
        match (script_run(a.drop_last(), t), char_lookup(t, a.last(), 0)) {
            (Some(r), Some(g)) => Some(r.push(g)),
            _ => None,
        }
    }
}

/// Double-struck capitals for `\mathbb`.
pub open spec fn bb(c: char) -> char {
    if c == 'R' {
        '\u{211d}'
    } else if c == 'Z' {
        '\u{2124}'
    } else if c == 'Q' {
        '\u{211a}'
    } else if c == 'N' {
        '\u{2115}'
    } else if c == 'C' {
        '\u{2102}'
    } else if c == 'P' {
        '\u{2119}'
    } else if c == 'H' {
        '\u{210d}'
    } else if c == 'E' {
        '\u{1d53c}'
    } else {
        c
    }
}

/// The combining accent of an accent command.
pub open spec fn accent_of(name: Seq<char>) -> Seq<char> {
    if name == "hat"@ {
        seq!['\u{0302}']
    } else if name == "bar"@ || name == "overline"@ {
        seq!['\u{0304}']
    } else if name == "vec"@ {
        seq!['\u{20d7}']
    } else if name == "tilde"@ {
        seq!['\u{0303}']
    } else if name == "dot"@ {
        seq!['\u{0307}']
    } else if name == "ddot"@ {
        seq!['\u{0308}']
    } else {
        Seq::empty()
    }
}

pub open spec fn is_accent(name: Seq<char>) -> bool {
    name == "hat"@ || name == "bar"@ || name == "vec"@ || name == "tilde"@ || name == "dot"@
        || name == "ddot"@ || name == "overline"@ || name == "underbrace"@
}

/// `+ - = < >` outside any parentheses, scanning from `i` at depth `d`.
pub open spec fn top_op(a: Seq<char>, i: int, d: int) -> bool
    decreases a.len() - i,
{
    if i < 0 || i >= a.len() {
        false
    } else if a[i] == '(' {
        top_op(a, i + 1, d + 1)
    } else if a[i] == ')' {
        top_op(a, i + 1, if d > 0 { d - 1 } else { 0 })
    } else if d == 0 && (a[i] == '+' || a[i] == '-' || a[i] == '=' || a[i] == '<' || a[i] == '>') {
        true
    } else {
        top_op(a, i + 1, d)
    }
}

/// A fraction part, parenthesized when it holds a top-level operator.
pub open spec fn frac_part(a: Seq<char>) -> Seq<char> {
    if a.len() != 1 && top_op(a, 0, 0) {
        seq!['('] + a + seq![')']
    } else {
        a
    }
}

/// Length of the run of ASCII letters at `i`.
pub open spec fn letters(s: Seq<char>, i: int) -> nat
    decreases s.len() - i,
{
    if i < 0 || i >= s.len() || !(('a' <= s[i] <= 'z') || ('A' <= s[i] <= 'Z')) {
        0
    } else {
        1 + letters(s, i + 1)
    }
}

/// `p` moved into `[lo, hi]`.
pub open spec fn clamp(p: int, lo: int, hi: int) -> int {
    if p < lo {
        lo
    } else if p > hi {
        hi
    } else {
        p
    }
}

/// Position after the first `]` at or after `i`, or the end.
pub open spec fn after_bracket(s: Seq<char>, i: int) -> int
    decreases s.len() - i,
{
    if i < 0 || i >= s.len() {
        s.len() as int
    } else if s[i] == ']' {
        i + 1
    } else {
        after_bracket(s, i + 1)
    }
}

/// Position of the first `]` at or after `i`, or the end.
pub open spec fn bracket_at(s: Seq<char>, i: int) -> int
    decreases s.len() - i,
{
    if i < 0 || i >= s.len() {
        s.len() as int
    } else if s[i] == ']' {
        i
    } else {
        bracket_at(s, i + 1)
    }
}

/// An expression from `pos` until a closing `}` (consumed) or the end, added
/// to `acc`: runs of spaces collapse, `-` becomes a minus sign.
pub open spec fn lx_expr(s: Seq<char>, pos: int, acc: Seq<char>) -> (Seq<char>, int)
    decreases s.len() - pos, 0nat,
{
    if pos < 0 || pos >= s.len() {
        (acc, pos)
    } else {
        let c = s[pos];
        if c == '^' || c == '_' {
            let r = lx_script(s, pos + 1, c == '^');
            lx_expr(s, clamp(r.1, pos + 1, s.len() as int), acc + r.0)
        } else if c == '{' {
            let r = lx_expr(s, pos + 1, Seq::empty());
            lx_expr(s, clamp(r.1, pos + 1, s.len() as int), acc + r.0)
        } else if c == '}' {
            (acc, pos + 1)
        } else if c == '\\' {
            let r = lx_command(s, pos + 1);
            lx_expr(s, clamp(r.1, pos + 1, s.len() as int), acc + r.0)
        } else if c == ' ' {
            lx_expr(
                s,
                pos + 1,
                if acc.len() > 0 && acc.last() == ' ' {
                    acc
                } else {
                    acc.push(' ')
                },
            )
        } else if c == '$' {
            lx_expr(s, pos + 1, acc)
        } else {
            lx_expr(
                s,
                pos + 1,
                acc.push(
                    if c == '-' {
                        '\u{2212}'
                    } else {
                        c
                    },
                ),
            )
        }
    }
}

/// One argument: a `{...}` group, a command, or a single character.
pub open spec fn lx_arg(s: Seq<char>, pos: int) -> (Seq<char>, int)
    decreases s.len() - pos, 1nat,
{
    if pos < 0 || pos >= s.len() {
        (Seq::empty(), pos)
    } else if s[pos] == '{' {
        lx_expr(s, pos + 1, Seq::empty())
    } else if s[pos] == '\\' {
        lx_command(s, pos + 1)
    } else {
        (seq![s[pos]], pos + 1)
    }
}

/// A `^`/`_` argument as script glyphs, else as `^(...)` / `_(...)`.
pub open spec fn lx_script(s: Seq<char>, pos: int, sup: bool) -> (Seq<char>, int)
    decreases s.len() - pos, 2nat,
{
    let a = lx_arg(s, pos);
    let t = if sup {
        SUPERSCRIPTS@
    } else {
        SUBSCRIPTS@
    };
    match script_run(a.0, t) {
        Some(run) => (run, a.1),
        None => (
            seq![
                if sup {
                    '^'
                } else {
                    '_'
                },
                '(',
            ] + a.0 + seq![')'],
            a.1,
        ),
    }
}

/// What an escaped character prints.
pub open spec fn symbol_text(sym: Seq<char>) -> Seq<char> {
    if sym == seq!['\\'] || sym == seq![','] || sym == seq![':'] || sym == seq![';'] || sym
        == seq![' '] {
        seq![' ']
    } else {
        sym
    }
}

/// A command after its backslash.
pub open spec fn lx_command(s: Seq<char>, pos: int) -> (Seq<char>, int)
    decreases s.len() - pos, 0nat,
{
    if pos < 0 || pos > s.len() {
        (Seq::empty(), pos)
    } else {
        let q = pos + letters(s, pos);
        let name = s.subrange(pos, q);
        if q <= pos || q > s.len() {
            if pos < s.len() {
                (symbol_text(seq![s[pos]]), pos + 1)
            } else {
                (Seq::empty(), pos)
            }
        } else if name == "frac"@ || name == "binom"@ {
            let a = lx_arg(s, q);
            let b = lx_arg(s, clamp(a.1, q, s.len() as int));
            if name == "frac"@ {
                (frac_part(a.0) + seq!['\u{2044}'] + frac_part(b.0), b.1)
            } else {
                (seq!['('] + a.0 + seq![' '] + b.0 + seq![')'], b.1)
            }
        } else if name == "sqrt"@ {
            if q < s.len() && s[q] == '[' {
                let n = s.subrange(q + 1, bracket_at(s, q + 1));
                let a = lx_arg(s, clamp(after_bracket(s, q + 1), q, s.len() as int));
                if n == seq!['3'] || n == seq!['4'] {
                    let root = if n == seq!['3'] {
                        '\u{221b}'
                    } else {
                        '\u{221c}'
                    };
                    if a.0.len() == 1 {
                        (seq![root] + a.0, a.1)
                    } else {
                        (seq![root, '('] + a.0 + seq![')'], a.1)
                    }
                } else {
                    (n + seq!['\u{221a}', '('] + a.0 + seq![')'], a.1)
                }
            } else {
                let a = lx_arg(s, q);
                if a.0.len() == 1 {
                    (seq!['\u{221a}'] + a.0, a.1)
                } else {
                    (seq!['\u{221a}', '('] + a.0 + seq![')'], a.1)
                }
            }
        } else if one_of(PLAIN@, name) {
            lx_arg(s, q)
        } else if name == "mathbb"@ {
            let a = lx_arg(s, q);
            (a.0.map_values(|c: char| bb(c)), a.1)
        } else if one_of(SILENT@, name) {
            (Seq::empty(), q)
        } else if name == "quad"@ || name == "qquad"@ {
            (seq![' ', ' '], q)
        } else if is_accent(name) {
            let a = lx_arg(s, q);
            (a.0 + accent_of(name), a.1)
        } else if name == "begin"@ {
            lx_env(s, q)
        } else {
            match name_lookup(SYMBOLS@, name, 0) {
                Some(g) => (seq![g], q),
                None => (name, q),
            }
        }
    }
}

/// The rows of an environment body from `p`: `&` ends a cell, a backslash
/// (other than `\end`) ends a row, `\end{...}` ends the body.
pub open spec fn env_rows(
    s: Seq<char>,
    p: int,
    rows: Seq<Seq<Seq<char>>>,
    cells: Seq<Seq<char>>,
    cell: Seq<char>,
) -> (Seq<Seq<Seq<char>>>, int)
    decreases s.len() - p, 0nat,
{
    if p < 0 || p >= s.len() {
        (rows, p)
    } else if s[p] == '&' {
        env_rows(s, p + 1, rows, cells.push(trim_white(cell)), Seq::empty())
    } else if s[p] == '\\' {
        let q = p + 1 + letters(s, p + 1);
        if p + 1 < s.len() && s[p + 1] == 'e' && s.subrange(p + 1, q) == "end"@ && q <= s.len() {
            let a = lx_arg(s, q);
            (rows.push(cells.push(trim_white(cell))), a.1)
        } else {
            let p2 = if p + 1 < s.len() && s[p + 1] == '\\' {
                p + 2
            } else {
                p + 1
            };
            let p3 = if p2 < s.len() && s[p2] == '[' {
                after_bracket(s, p2 + 1)
            } else {
                p2
            };
            env_rows(
                s,
                clamp(p3, p + 1, s.len() as int),
                rows.push(cells.push(trim_white(cell))),
                Seq::empty(),
                Seq::empty(),
            )
        }
    } else {
        env_rows(s, p + 1, rows, cells, cell.push(s[p]))
    }
}

/// The non-empty parts of `parts`, in order.
pub open spec fn nonempty_parts(parts: Seq<Seq<char>>) -> Seq<Seq<char>>
    decreases parts.len(),
{
    if parts.len() == 0 {
        Seq::empty()
    } else if parts.last().len() == 0 {
        nonempty_parts(parts.drop_last())
    } else {
        nonempty_parts(parts.drop_last()).push(parts.last())
    }
}

/// `parts` joined by `sep`.
pub open spec fn join(parts: Seq<Seq<char>>, sep: Seq<char>) -> Seq<char>
    decreases parts.len(),
{
    if parts.len() == 0 {
        Seq::empty()
    } else if parts.len() == 1 {
        parts[0]
    } else {
        join(parts.drop_last(), sep) + sep + parts.last()
    }
}

/// Each row's non-empty cells joined by two spaces.
pub open spec fn row_texts(rows: Seq<Seq<Seq<char>>>) -> Seq<Seq<char>> {
    rows.map_values(|r: Seq<Seq<char>>| join(nonempty_parts(r), seq![' ', ' ']))
}

/// `\begin{env} ... \end{env}`: matrices and friends.
pub open spec fn lx_env(s: Seq<char>, pos: int) -> (Seq<char>, int)
    decreases s.len() - pos, 2nat,
{
    if pos < 0 || pos > s.len() {
        (Seq::empty(), pos)
    } else {
        let e = lx_arg(s, pos);
        let r = env_rows(
            s,
            clamp(e.1, pos, s.len() as int),
            Seq::empty(),
            Seq::empty(),
            Seq::empty(),
        );
        (env_wrap(e.0, join(row_texts(r.0), seq![' ', ';', ' '])), r.1)
    }
}

/// The rows of an environment wrapped in its delimiters.
pub open spec fn env_wrap(env: Seq<char>, inner: Seq<char>) -> Seq<char> {
    if env == "pmatrix"@ {
        seq!['('] + inner + seq![')']
    } else if env == "bmatrix"@ {
        seq!['['] + inner + seq![']']
    } else if env == "Bmatrix"@ {
        seq!['{'] + inner + seq!['}']
    } else if env == "vmatrix"@ {
        seq!['|'] + inner + seq!['|']
    } else if env == "Vmatrix"@ {
        seq!['\u{2016}'] + inner + seq!['\u{2016}']
    } else if env == "cases"@ {
        seq!['{', ' '] + inner + seq![' ', '}']
    } else {
        inner
    }
}

/// `s` without its `$` characters.
pub open spec fn no_dollars(s: Seq<char>) -> Seq<char>
    decreases s.len(),
{
    if s.len() == 0 {
        Seq::empty()
    } else if s.last() == '$' {
        no_dollars(s.drop_last())
    } else {
        no_dollars(s.drop_last()).push(s.last())
    }
}

/// The Unicode rendering of a LaTeX math source: stray `$` dropped, the
/// expression converted, surrounding whitespace trimmed.
pub open spec fn latex_spec(src: Seq<char>) -> Seq<char> {
    trim_white(lx_expr(no_dollars(src), 0, Seq::empty()).0)
}

// ---------------------------------------------------------------------------
// helpers
// ---------------------------------------------------------------------------

/// `name` spells `lit`.
fn is_name(name: &[char], lit: &str) -> (b: bool)
    ensures
        b == (name@ == lit@),
{
    let l = chars_of(lit);
    crate::text::chars_eq(name, &l)
}

fn char_lookup_exec(t: &[(char, char)], c: char) -> (r: Option<char>)
    ensures
        r == char_lookup(t@, c, 0),
{
    let mut k: usize = 0;
    while k < t.len()
        invariant
            k <= t@.len(),
            char_lookup(t@, c, 0) == char_lookup(t@, c, k as int),
        decreases t@.len() - k,
    {
        if t[k].0 == c {
            return Some(t[k].1);
        }
        k += 1;
    }
    None
}

fn name_lookup_exec(name: &[char]) -> (r: Option<char>)
    ensures
        r == name_lookup(SYMBOLS@, name@, 0),
{
    let t: &[(&'static str, char)] = &SYMBOLS;
    let mut k: usize = 0;
    while k < t.len()
        invariant
            t@ == SYMBOLS@,
            k <= t@.len(),
            name_lookup(SYMBOLS@, name@, 0) == name_lookup(SYMBOLS@, name@, k as int),
        decreases t@.len() - k,
    {
        if is_name(name, t[k].0) {
            return Some(t[k].1);
        }
        k += 1;
    }
    None
}

fn one_of_exec(t: &[&'static str], name: &[char]) -> (b: bool)
    ensures
        b == one_of(t@, name@),
{
    let mut k: usize = 0;
    while k < t.len()
        invariant
            k <= t@.len(),
            forall|m: int| 0 <= m < k ==> (#[trigger] t@[m])@ != name@,
        decreases t@.len() - k,
    {
        if is_name(name, t[k]) {
            assert(t@[k as int]@ == name@);
            return true;
        }
        k += 1;
    }
    false
}

fn script_run_exec(a: &[char], t: &[(char, char)]) -> (r: Option<Vec<char>>)
    ensures
        match r {
            Some(v) => script_run(a@, t@) == Some(v@),
            None => script_run(a@, t@) is None,
        },
{
    let mut out: Vec<char> = Vec::new();
    let mut k: usize = 0;
    assert(a@.take(0) =~= Seq::<char>::empty());
    while k < a.len()
        invariant
            k <= a@.len(),
            script_run(a@.take(k as int), t@) == Some(out@),
        decreases a@.len() - k,
    {
        assert(a@.take(k + 1).drop_last() == a@.take(k as int));
        match char_lookup_exec(t, a[k]) {
            Some(g) => {
                out.push(g);
            },
            None => {
                proof {
                    lemma_script_run_none(a@, t@, k as int);
                }
                return None;
            },
        }
        k += 1;
    }
    assert(a@.take(a@.len() as int) == a@);
    Some(out)
}

/// Once a character has no glyph, the whole run has none.
proof fn lemma_script_run_none(a: Seq<char>, t: Seq<(char, char)>, k: int)
    requires
        0 <= k < a.len(),
        char_lookup(t, a[k], 0) is None,
    ensures
        script_run(a, t) is None,
    decreases a.len(),
{
    if k < a.len() - 1 {
        lemma_script_run_none(a.drop_last(), t, k);
    }
}

fn top_op_exec(a: &[char]) -> (b: bool)
    ensures
        b == top_op(a@, 0, 0),
{
    let mut d: usize = 0;
    let mut i: usize = 0;
    while i < a.len()
        invariant
            i <= a@.len(),
            d <= i,
            top_op(a@, 0, 0) == top_op(a@, i as int, d as int),
        decreases a@.len() - i,
    {
        let c = a[i];
        if c == '(' {
            d += 1;
        } else if c == ')' {
            if d > 0 {
                d -= 1;
            }
        } else if d == 0 && (c == '+' || c == '-' || c == '=' || c == '<' || c == '>') {
            return true;
        }
        i += 1;
    }
    false
}

fn frac_part_exec(a: Vec<char>) -> (r: Vec<char>)
    ensures
        r@ == frac_part(a@),
{
    if a.len() != 1 && top_op_exec(&a) {
        let mut r: Vec<char> = Vec::new();
        r.push('(');
        extend_all(&mut r, &a);
        r.push(')');
        assert(r@ =~= seq!['('] + a@ + seq![')']);
        r
    } else {
        a
    }
}

fn letters_exec(s: &[char], i: usize) -> (n: usize)
    requires
        i <= s@.len(),
    ensures
        n == letters(s@, i as int),
        i + n <= s.len(),
{
    let mut j = i;
    while j < s.len() && (('a' <= s[j] && s[j] <= 'z') || ('A' <= s[j] && s[j] <= 'Z'))
        invariant
            i <= j <= s@.len(),
            letters(s@, i as int) == (j - i) + letters(s@, j as int),
        decreases s@.len() - j,
    {
        j += 1;
    }
    j - i
}

fn bracket_exec(s: &[char], i: usize) -> (r: (usize, usize))
    requires
        i <= s@.len(),
    ensures
        r.0 == bracket_at(s@, i as int),
        r.1 == after_bracket(s@, i as int),
        i <= r.0 <= s@.len(),
        r.0 <= r.1 <= s@.len(),
{
    let mut j = i;
    while j < s.len() && s[j] != ']'
        invariant
            i <= j <= s@.len(),
            bracket_at(s@, i as int) == bracket_at(s@, j as int),
            after_bracket(s@, i as int) == after_bracket(s@, j as int),
        decreases s@.len() - j,
    {
        j += 1;
    }
    if j < s.len() {
        (j, j + 1)
    } else {
        (j, j)
    }
}

fn concat(a: &[char], b: &[char]) -> (r: Vec<char>)
    ensures
        r@ == a@ + b@,
{
    let mut r: Vec<char> = Vec::new();
    extend_all(&mut r, a);
    extend_all(&mut r, b);
    assert(r@ =~= a@ + b@);
    r
}

fn wrap(open: char, inner: &[char], close: char) -> (r: Vec<char>)
    ensures
        r@ == seq![open] + inner@ + seq![close],
{
    let mut r: Vec<char> = Vec::new();
    r.push(open);
    extend_all(&mut r, inner);
    r.push(close);
    assert(r@ =~= seq![open] + inner@ + seq![close]);
    r
}

// ---------------------------------------------------------------------------
// the parser
// ---------------------------------------------------------------------------

fn lx_expr_exec(s: &[char], pos: usize, acc: Vec<char>) -> (r: (Vec<char>, usize))
    requires
        pos <= s@.len(),
    ensures
        (r.0@, r.1 as int) == lx_expr(s@, pos as int, acc@),
        pos <= r.1 <= s@.len(),
    decreases s@.len() - pos, 0nat,
{
    let mut p = pos;
    let mut out = acc;
    while p < s.len()
        invariant
            pos <= p <= s@.len(),
            lx_expr(s@, p as int, out@) == lx_expr(s@, pos as int, acc@),
        decreases s@.len() - p,
    {
        let c = s[p];
        if c == '^' || c == '_' {
            let (a, q) = lx_script_exec(s, p + 1, c == '^');
            extend_all(&mut out, &a);
            p = q;
        } else if c == '{' {
            let fresh: Vec<char> = Vec::new();
            assert(fresh@ =~= Seq::<char>::empty());
            let (a, q) = lx_expr_exec(s, p + 1, fresh);
            extend_all(&mut out, &a);
            p = q;
        } else if c == '}' {
            return (out, p + 1);
        } else if c == '\\' {
            let (a, q) = lx_command_exec(s, p + 1);
            extend_all(&mut out, &a);
            p = q;
        } else if c == ' ' {
            let n = out.len();
            if !(n > 0 && out[n - 1] == ' ') {
                out.push(' ');
            }
            p += 1;
        } else if c == '$' {
            p += 1;
        } else {
            out.push(
                if c == '-' {
                    '\u{2212}'
                } else {
                    c
                },
            );
            p += 1;
        }
    }
    (out, p)
}

fn lx_arg_exec(s: &[char], pos: usize) -> (r: (Vec<char>, usize))
    requires
        pos <= s@.len(),
    ensures
        (r.0@, r.1 as int) == lx_arg(s@, pos as int),
        pos <= r.1 <= s@.len(),
        pos < s@.len() ==> pos < r.1,
    decreases s@.len() - pos, 1nat,
{
    if pos >= s.len() {
        (Vec::new(), pos)
    } else if s[pos] == '{' {
        let fresh: Vec<char> = Vec::new();
        assert(fresh@ =~= Seq::<char>::empty());
        lx_expr_exec(s, pos + 1, fresh)
    } else if s[pos] == '\\' {
        lx_command_exec(s, pos + 1)
    } else {
        let mut v: Vec<char> = Vec::new();
        v.push(s[pos]);
        assert(v@ =~= seq![s@[pos as int]]);
        (v, pos + 1)
    }
}

fn lx_script_exec(s: &[char], pos: usize, sup: bool) -> (r: (Vec<char>, usize))
    requires
        pos <= s@.len(),
    ensures
        (r.0@, r.1 as int) == lx_script(s@, pos as int, sup),
        pos <= r.1 <= s@.len(),
    decreases s@.len() - pos, 2nat,
{
    let (a, q) = lx_arg_exec(s, pos);
    let t: &[(char, char)] = if sup {
        &SUPERSCRIPTS
    } else {
        &SUBSCRIPTS
    };
    match script_run_exec(&a, t) {
        Some(run) => (run, q),
        None => {
            let mut v: Vec<char> = Vec::new();
            v.push(
                if sup {
                    '^'
                } else {
                    '_'
                },
            );
            v.push('(');
            extend_all(&mut v, &a);
            v.push(')');
            assert(v@ =~= seq![
                if sup {
                    '^'
                } else {
                    '_'
                },
                '(',
            ] + a@ + seq![')']);
            (v, q)
        },
    }
}

fn symbol_text_exec(c: char) -> (r: Vec<char>)
    ensures
        r@ == symbol_text(seq![c]),
{
    let mut v: Vec<char> = Vec::new();
    if c == '\\' || c == ',' || c == ':' || c == ';' || c == ' ' {
        v.push(' ');
    } else {
        v.push(c);
    }
    proof {
        assert(v@ =~= symbol_text(seq![c]));
    }
    v
}

fn bb_exec(a: &[char]) -> (r: Vec<char>)
    ensures
        r@ == a@.map_values(|c: char| bb(c)),
{
    let mut v: Vec<char> = Vec::new();
    let mut k: usize = 0;
    while k < a.len()
        invariant
            k <= a@.len(),
            v@ == a@.take(k as int).map_values(|c: char| bb(c)),
        decreases a@.len() - k,
    {
        let c = a[k];
        let g = if c == 'R' {
            '\u{211d}'
        } else if c == 'Z' {
            '\u{2124}'
        } else if c == 'Q' {
            '\u{211a}'
        } else if c == 'N' {
            '\u{2115}'
        } else if c == 'C' {
            '\u{2102}'
        } else if c == 'P' {
            '\u{2119}'
        } else if c == 'H' {
            '\u{210d}'
        } else if c == 'E' {
            '\u{1d53c}'
        } else {
            c
        };
        v.push(g);
        assert(a@.take(k + 1).map_values(|c: char| bb(c)) =~= a@.take(k as int).map_values(
            |c: char| bb(c),
        ).push(bb(c)));
        k += 1;
    }
    assert(a@.take(a@.len() as int) == a@);
    v
}

fn accent_exec(name: &[char]) -> (r: Vec<char>)
    ensures
        r@ == accent_of(name@),
{
    let mut v: Vec<char> = Vec::new();
    if is_name(name, "hat") {
        v.push('\u{0302}');
    } else if is_name(name, "bar") || is_name(name, "overline") {
        v.push('\u{0304}');
    } else if is_name(name, "vec") {
        v.push('\u{20d7}');
    } else if is_name(name, "tilde") {
        v.push('\u{0303}');
    } else if is_name(name, "dot") {
        v.push('\u{0307}');
    } else if is_name(name, "ddot") {
        v.push('\u{0308}');
    }
    proof {
        assert(v@ =~= accent_of(name@));
    }
    v
}

fn lx_command_exec(s: &[char], pos: usize) -> (r: (Vec<char>, usize))
    requires
        pos <= s@.len(),
    ensures
        (r.0@, r.1 as int) == lx_command(s@, pos as int),
        pos <= r.1 <= s@.len(),
    decreases s@.len() - pos, 0nat,
{
    let n = letters_exec(s, pos);
    let q = pos + n;
    if n == 0 {
        if pos < s.len() {
            return (symbol_text_exec(s[pos]), pos + 1);
        } else {
            return (Vec::new(), pos);
        }
    }
    let name = crate::text::sub_vec(s, pos, q);
    assert(name@ == s@.subrange(pos as int, q as int));
    if is_name(&name, "frac") || is_name(&name, "binom") {
        let (a, q1) = lx_arg_exec(s, q);
        let (b, q2) = lx_arg_exec(s, q1);
        if is_name(&name, "frac") {
            let fa = frac_part_exec(a);
            let fb = frac_part_exec(b);
            let mut v: Vec<char> = Vec::new();
            extend_all(&mut v, &fa);
            v.push('\u{2044}');
            extend_all(&mut v, &fb);
            assert(v@ =~= frac_part(a@) + seq!['\u{2044}'] + frac_part(b@));
            (v, q2)
        } else {
            let mut v: Vec<char> = Vec::new();
            v.push('(');
            extend_all(&mut v, &a);
            v.push(' ');
            extend_all(&mut v, &b);
            v.push(')');
            assert(v@ =~= seq!['('] + a@ + seq![' '] + b@ + seq![')']);
            (v, q2)
        }
    } else if is_name(&name, "sqrt") {
        if q < s.len() && s[q] == '[' {
            let (k, after) = bracket_exec(s, q + 1);
            let idx = crate::text::sub_vec(s, q + 1, k);
            let (a, q3) = lx_arg_exec(s, after);
            let three = idx.len() == 1 && idx[0] == '3';
            let four = idx.len() == 1 && idx[0] == '4';
            assert(three == (idx@ == seq!['3'])) by {
                if idx@ == seq!['3'] {
                    assert(idx@[0] == '3');
                }
                if three {
                    assert(idx@ =~= seq!['3']);
                }
            }
            assert(four == (idx@ == seq!['4'])) by {
                if idx@ == seq!['4'] {
                    assert(idx@[0] == '4');
                }
                if four {
                    assert(idx@ =~= seq!['4']);
                }
            }
            if three || four {
                let root = if three {
                    '\u{221b}'
                } else {
                    '\u{221c}'
                };
                if a.len() == 1 {
                    let mut v: Vec<char> = Vec::new();
                    v.push(root);
                    extend_all(&mut v, &a);
                    assert(v@ =~= seq![root] + a@);
                    (v, q3)
                } else {
                    let mut v: Vec<char> = Vec::new();
                    v.push(root);
                    v.push('(');
                    extend_all(&mut v, &a);
                    v.push(')');
                    assert(v@ =~= seq![root, '('] + a@ + seq![')']);
                    (v, q3)
                }
            } else {
                let mut v: Vec<char> = Vec::new();
                extend_all(&mut v, &idx);
                v.push('\u{221a}');
                v.push('(');
                extend_all(&mut v, &a);
                v.push(')');
                assert(v@ =~= idx@ + seq!['\u{221a}', '('] + a@ + seq![')']);
                (v, q3)
            }
        } else {
            let (a, q1) = lx_arg_exec(s, q);
            if a.len() == 1 {
                let mut v: Vec<char> = Vec::new();
                v.push('\u{221a}');
                extend_all(&mut v, &a);
                assert(v@ =~= seq!['\u{221a}'] + a@);
                (v, q1)
            } else {
                let mut v: Vec<char> = Vec::new();
                v.push('\u{221a}');
                v.push('(');
                extend_all(&mut v, &a);
                v.push(')');
                assert(v@ =~= seq!['\u{221a}', '('] + a@ + seq![')']);
                (v, q1)
            }
        }
    } else if one_of_exec(&PLAIN, &name) {
        lx_arg_exec(s, q)
    } else if is_name(&name, "mathbb") {
        let (a, q1) = lx_arg_exec(s, q);
        (bb_exec(&a), q1)
    } else if one_of_exec(&SILENT, &name) {
        (Vec::new(), q)
    } else if is_name(&name, "quad") || is_name(&name, "qquad") {
        let mut v: Vec<char> = Vec::new();
        v.push(' ');
        v.push(' ');
        assert(v@ =~= seq![' ', ' ']);
        (v, q)
    } else if is_name(&name, "hat") || is_name(&name, "bar") || is_name(&name, "vec") || is_name(
        &name,
        "tilde",
    ) || is_name(&name, "dot") || is_name(&name, "ddot") || is_name(&name, "overline")
        || is_name(&name, "underbrace") {
        let (a, q1) = lx_arg_exec(s, q);
        let acc = accent_exec(&name);
        (concat(&a, &acc), q1)
    } else if is_name(&name, "begin") {
        lx_env_exec(s, q)
    } else {
        match name_lookup_exec(&name) {
            Some(g) => {
                let mut v: Vec<char> = Vec::new();
                v.push(g);
                assert(v@ =~= seq![g]);
                (v, q)
            },
            None => (name, q),
        }
    }
}

/// The views of a vector of rows.
pub open spec fn rows_views(r: Seq<Vec<Vec<char>>>) -> Seq<Seq<Seq<char>>> {
    r.map_values(|x: Vec<Vec<char>>| views(x@))
}

fn push_part(parts: &mut Vec<Vec<char>>, x: Vec<char>)
    ensures
        views(final(parts)@) == views(old(parts)@).push(x@),
{
    parts.push(x);
    assert(views(parts@) =~= views(old(parts)@).push(x@));
}

fn push_row(rows: &mut Vec<Vec<Vec<char>>>, x: Vec<Vec<char>>)
    ensures
        rows_views(final(rows)@) == rows_views(old(rows)@).push(views(x@)),
{
    rows.push(x);
    assert(rows_views(rows@) =~= rows_views(old(rows)@).push(views(x@)));
}

fn env_rows_exec(s: &[char], p0: usize) -> (r: (Vec<Vec<Vec<char>>>, usize))
    requires
        p0 <= s@.len(),
    ensures
        (rows_views(r.0@), r.1 as int) == env_rows(
            s@,
            p0 as int,
            Seq::empty(),
            Seq::empty(),
            Seq::empty(),
        ),
        p0 <= r.1 <= s@.len(),
    decreases s@.len() - p0, 0nat,
{
    let mut rows: Vec<Vec<Vec<char>>> = Vec::new();
    let mut cells: Vec<Vec<char>> = Vec::new();
    let mut cell: Vec<char> = Vec::new();
    let mut p = p0;
    assert(rows_views(rows@) =~= Seq::<Seq<Seq<char>>>::empty());
    assert(views(cells@) =~= Seq::<Seq<char>>::empty());
    while p < s.len()
        invariant
            p0 <= p <= s@.len(),
            env_rows(s@, p as int, rows_views(rows@), views(cells@), cell@) == env_rows(
                s@,
                p0 as int,
                Seq::empty(),
                Seq::empty(),
                Seq::empty(),
            ),
        decreases s@.len() - p,
    {
        let c = s[p];
        if c == '&' {
            let t = trim_white_vec(&cell);
            push_part(&mut cells, t);
            cell = Vec::new();
            assert(cell@ =~= Seq::<char>::empty());
            p += 1;
        } else if c == '\\' {
            let mut end_at: usize = 0;
            let mut is_end = false;
            if p + 1 < s.len() && s[p + 1] == 'e' {
                let n = letters_exec(s, p + 1);
                let nm = crate::text::sub_vec(s, p + 1, p + 1 + n);
                is_end = is_name(&nm, "end");
                end_at = p + 1 + n;
            }
            if is_end {
                let (_, q2) = lx_arg_exec(s, end_at);
                let t = trim_white_vec(&cell);
                push_part(&mut cells, t);
                push_row(&mut rows, cells);
                return (rows, q2);
            }
            let p2 = if p + 1 < s.len() && s[p + 1] == '\\' {
                p + 2
            } else {
                p + 1
            };
            let p3 = if p2 < s.len() && s[p2] == '[' {
                bracket_exec(s, p2 + 1).1
            } else {
                p2
            };
            let t = trim_white_vec(&cell);
            push_part(&mut cells, t);
            push_row(&mut rows, cells);
            cells = Vec::new();
            cell = Vec::new();
            assert(cell@ =~= Seq::<char>::empty());
            assert(views(cells@) =~= Seq::<Seq<char>>::empty());
            p = p3;
        } else {
            cell.push(c);
            p += 1;
        }
    }
    (rows, p)
}

fn nonempty_exec(parts: &Vec<Vec<char>>) -> (r: Vec<Vec<char>>)
    ensures
        views(r@) == nonempty_parts(views(parts@)),
{
    let mut out: Vec<Vec<char>> = Vec::new();
    let mut k: usize = 0;
    assert(views(parts@).take(0) =~= Seq::<Seq<char>>::empty());
    assert(views(out@) =~= Seq::<Seq<char>>::empty());
    while k < parts.len()
        invariant
            k <= parts@.len(),
            views(out@) == nonempty_parts(views(parts@).take(k as int)),
        decreases parts@.len() - k,
    {
        assert(views(parts@).take(k + 1).drop_last() == views(parts@).take(k as int));
        assert(views(parts@).take(k + 1).last() == parts@[k as int]@);
        if parts[k].len() > 0 {
            let x = crate::text::sub_vec(&parts[k], 0, parts[k].len());
            assert(x@ =~= parts@[k as int]@);
            push_part(&mut out, x);
        }
        k += 1;
    }
    assert(views(parts@).take(parts@.len() as int) == views(parts@));
    out
}

fn join_exec(parts: &Vec<Vec<char>>, sep: &[char]) -> (r: Vec<char>)
    ensures
        r@ == join(views(parts@), sep@),
{
    let mut out: Vec<char> = Vec::new();
    let mut k: usize = 0;
    assert(views(parts@).take(0) =~= Seq::<Seq<char>>::empty());
    while k < parts.len()
        invariant
            k <= parts@.len(),
            out@ == join(views(parts@).take(k as int), sep@),
        decreases parts@.len() - k,
    {
        let ghost before = out@;
        assert(views(parts@).take(k + 1).drop_last() == views(parts@).take(k as int));
        assert(views(parts@).take(k + 1).last() == parts@[k as int]@);
        if k > 0 {
            extend_all(&mut out, sep);
        } else {
            assert(views(parts@).take(1)[0] == parts@[0]@);
        }
        extend_all(&mut out, &parts[k]);
        proof {
            if k > 0 {
                assert(out@ =~= before + sep@ + parts@[k as int]@);
            } else {
                assert(out@ =~= parts@[0]@);
            }
        }
        k += 1;
    }
    assert(views(parts@).take(parts@.len() as int) == views(parts@));
    out
}

fn lx_env_exec(s: &[char], pos: usize) -> (r: (Vec<char>, usize))
    requires
        pos <= s@.len(),
    ensures
        (r.0@, r.1 as int) == lx_env(s@, pos as int),
        pos <= r.1 <= s@.len(),
    decreases s@.len() - pos, 2nat,
{
    let (e, q) = lx_arg_exec(s, pos);
    let (rows, p) = env_rows_exec(s, q);
    let two = vec![' ', ' '];
    assert(two@ =~= seq![' ', ' ']);
    let mut texts: Vec<Vec<char>> = Vec::new();
    let mut k: usize = 0;
    while k < rows.len()
        invariant
            k <= rows@.len(),
            two@ == seq![' ', ' '],
            texts@.len() == k,
            forall|m: int| 0 <= m < k ==> (#[trigger] texts@[m])@ == row_texts(rows_views(rows@))[m],
        decreases rows@.len() - k,
    {
        let ne = nonempty_exec(&rows[k]);
        let t = join_exec(&ne, &two);
        texts.push(t);
        k += 1;
    }
    assert(views(texts@) =~= row_texts(rows_views(rows@)));
    let sep = vec![' ', ';', ' '];
    assert(sep@ =~= seq![' ', ';', ' ']);
    let inner = join_exec(&texts, &sep);
    let out = if is_name(&e, "pmatrix") {
        wrap('(', &inner, ')')
    } else if is_name(&e, "bmatrix") {
        wrap('[', &inner, ']')
    } else if is_name(&e, "Bmatrix") {
        wrap('{', &inner, '}')
    } else if is_name(&e, "vmatrix") {
        wrap('|', &inner, '|')
    } else if is_name(&e, "Vmatrix") {
        wrap('\u{2016}', &inner, '\u{2016}')
    } else if is_name(&e, "cases") {
        let mut v: Vec<char> = Vec::new();
        v.push('{');
        v.push(' ');
        extend_all(&mut v, &inner);
        v.push(' ');
        v.push('}');
        assert(v@ =~= seq!['{', ' '] + inner@ + seq![' ', '}']);
        v
    } else {
        inner
    };
    (out, p)
}

/// Convert LaTeX math to Unicode text for terminal display.
pub fn latex_to_unicode(src: &str) -> (r: String)
    ensures
        r@ == latex_spec(src@),
{
    let v = chars_of(src);
    let mut clean: Vec<char> = Vec::new();
    let mut k: usize = 0;
    assert(v@.take(0) =~= Seq::<char>::empty());
    while k < v.len()
        invariant
            k <= v@.len(),
            clean@ == no_dollars(v@.take(k as int)),
        decreases v@.len() - k,
    {
        assert(v@.take(k + 1).drop_last() == v@.take(k as int));
        if v[k] != '$' {
            clean.push(v[k]);
        }
        k += 1;
    }
    assert(v@.take(v@.len() as int) == v@);
    let fresh: Vec<char> = Vec::new();
    assert(fresh@ =~= Seq::<char>::empty());
    let (out, _) = lx_expr_exec(&clean, 0, fresh);
    let t = trim_white_vec(&out);
    string_of(&t)
}

// ---------------------------------------------------------------------------
// no dollar sign survives
// ---------------------------------------------------------------------------

/// `t` holds no `$`.
pub open spec fn dollar_free(t: Seq<char>) -> bool {
    forall|k: int| 0 <= k < t.len() ==> t[k] != '$'
}

proof fn lemma_df_concat(a: Seq<char>, b: Seq<char>)
    requires
        dollar_free(a),
        dollar_free(b),
    ensures
        dollar_free(a + b),
{
    assert forall|k: int| 0 <= k < (a + b).len() implies (a + b)[k] != '$' by {
        if k >= a.len() {
            assert((a + b)[k] == b[k - a.len()]);
        }
    }
}

proof fn lemma_df_sub(a: Seq<char>, i: int, j: int)
    requires
        dollar_free(a),
        0 <= i <= j <= a.len(),
    ensures
        dollar_free(a.subrange(i, j)),
{
    assert forall|k: int| 0 <= k < j - i implies a.subrange(i, j)[k] != '$' by {
        assert(a.subrange(i, j)[k] == a[i + k]);
    }
}

proof fn lemma_df_trim(a: Seq<char>)
    requires
        dollar_free(a),
    ensures
        dollar_free(trim_white(a)),
{
    let j = crate::text::lemma_trim_white_sub(a);
    lemma_df_sub(a, j, j + trim_white(a).len());
}

proof fn lemma_char_lookup_df(t: Seq<(char, char)>, c: char, k: int)
    requires
        forall|m: int| 0 <= m < t.len() ==> (#[trigger] t[m]).1 != '$',
    ensures
        char_lookup(t, c, k) is Some ==> char_lookup(t, c, k)->0 != '$',
    decreases t.len() - k,
{
    if 0 <= k < t.len() && t[k].0 != c {
        lemma_char_lookup_df(t, c, k + 1);
    }
}

proof fn lemma_name_lookup_df(name: Seq<char>, k: int)
    ensures
        name_lookup(SYMBOLS@, name, k) is Some ==> name_lookup(SYMBOLS@, name, k)->0 != '$',
    decreases SYMBOLS@.len() - k,
{
    assert(forall|m: int| 0 <= m < 147 ==> (#[trigger] SYMBOLS@[m]).1 != '$');
    if 0 <= k < SYMBOLS@.len() && SYMBOLS@[k].0@ != name {
        lemma_name_lookup_df(name, k + 1);
    }
}

proof fn lemma_script_run_df(a: Seq<char>, t: Seq<(char, char)>)
    requires
        forall|m: int| 0 <= m < t.len() ==> (#[trigger] t[m]).1 != '$',
    ensures
        script_run(a, t) is Some ==> dollar_free(script_run(a, t)->0),
    decreases a.len(),
{
    if a.len() > 0 {
        lemma_script_run_df(a.drop_last(), t);
        lemma_char_lookup_df(t, a.last(), 0);
        if script_run(a, t) is Some {
            let r = script_run(a.drop_last(), t)->0;
            let g = char_lookup(t, a.last(), 0)->0;
            assert forall|k: int| 0 <= k < r.push(g).len() implies r.push(g)[k] != '$' by {
                if k < r.len() {
                    assert(r.push(g)[k] == r[k]);
                }
            }
        }
    }
}

proof fn lemma_join_df(parts: Seq<Seq<char>>, sep: Seq<char>)
    requires
        forall|k: int| 0 <= k < parts.len() ==> dollar_free(#[trigger] parts[k]),
        dollar_free(sep),
    ensures
        dollar_free(join(parts, sep)),
    decreases parts.len(),
{
    if parts.len() > 1 {
        lemma_join_df(parts.drop_last(), sep);
        assert(dollar_free(parts.last()));
        lemma_df_concat(join(parts.drop_last(), sep), sep);
        lemma_df_concat(join(parts.drop_last(), sep) + sep, parts.last());
    } else if parts.len() == 1 {
        assert(dollar_free(parts[0]));
    }
}

proof fn lemma_nonempty_df(parts: Seq<Seq<char>>)
    requires
        forall|k: int| 0 <= k < parts.len() ==> dollar_free(#[trigger] parts[k]),
    ensures
        forall|k: int|
            0 <= k < nonempty_parts(parts).len() ==> dollar_free(#[trigger] nonempty_parts(parts)[k]),
    decreases parts.len(),
{
    if parts.len() > 0 {
        lemma_nonempty_df(parts.drop_last());
        assert(dollar_free(parts.last()));
        let pre = nonempty_parts(parts.drop_last());
        if parts.last().len() > 0 {
            assert forall|k: int|
                0 <= k < pre.push(parts.last()).len() implies dollar_free(
                #[trigger] pre.push(parts.last())[k],
            ) by {
                if k < pre.len() {
                    assert(pre.push(parts.last())[k] == pre[k]);
                }
            }
        }
    }
}

/// Rows whose every cell is dollar-free.
pub open spec fn rows_df(rows: Seq<Seq<Seq<char>>>) -> bool {
    forall|i: int, j: int|
        0 <= i < rows.len() && 0 <= j < rows[i].len() ==> dollar_free(#[trigger] rows[i][j])
}

pub open spec fn cells_df(cells: Seq<Seq<char>>) -> bool {
    forall|j: int| 0 <= j < cells.len() ==> dollar_free(#[trigger] cells[j])
}

proof fn lemma_env_rows_df(
    s: Seq<char>,
    p: int,
    rows: Seq<Seq<Seq<char>>>,
    cells: Seq<Seq<char>>,
    cell: Seq<char>,
)
    requires
        dollar_free(s),
        rows_df(rows),
        cells_df(cells),
        dollar_free(cell),
    ensures
        rows_df(env_rows(s, p, rows, cells, cell).0),
    decreases s.len() - p, 0nat,
{
    if !(p < 0 || p >= s.len()) {
        lemma_df_trim(cell);
        let c2 = cells.push(trim_white(cell));
        assert(cells_df(c2)) by {
            assert forall|j: int| 0 <= j < c2.len() implies dollar_free(#[trigger] c2[j]) by {
                if j < cells.len() {
                    assert(c2[j] == cells[j]);
                }
            }
        }
        let r2 = rows.push(c2);
        assert(rows_df(r2)) by {
            assert forall|i: int, j: int| 0 <= i < r2.len() && 0 <= j < r2[i].len() implies dollar_free(
                #[trigger] r2[i][j],
            ) by {
                if i < rows.len() {
                    assert(r2[i] == rows[i]);
                }
            }
        }
        let e: Seq<char> = Seq::empty();
        let ec: Seq<Seq<char>> = Seq::empty();
        if s[p] == '&' {
            lemma_env_rows_df(s, p + 1, rows, c2, e);
        } else if s[p] == '\\' {
            let q = p + 1 + letters(s, p + 1);
            if p + 1 < s.len() && s[p + 1] == 'e' && s.subrange(p + 1, q) == "end"@ && q <= s.len() {
            } else {
                let p2 = if p + 1 < s.len() && s[p + 1] == '\\' {
                    p + 2
                } else {
                    p + 1
                };
                let p3 = if p2 < s.len() && s[p2] == '[' {
                    after_bracket(s, p2 + 1)
                } else {
                    p2
                };
                lemma_env_rows_df(s, clamp(p3, p + 1, s.len() as int), r2, ec, e);
            }
        } else {
            assert(dollar_free(cell.push(s[p]))) by {
                assert forall|k: int| 0 <= k < cell.push(s[p]).len() implies cell.push(s[p])[k] != '$' by {
                    if k < cell.len() {
                        assert(cell.push(s[p])[k] == cell[k]);
                    }
                }
            }
            lemma_env_rows_df(s, p + 1, rows, cells, cell.push(s[p]));
        }
    }
}

proof fn lemma_expr_df(s: Seq<char>, pos: int, acc: Seq<char>)
    requires
        dollar_free(s),
        dollar_free(acc),
    ensures
        dollar_free(lx_expr(s, pos, acc).0),
    decreases s.len() - pos, 0nat,
{
    if !(pos < 0 || pos >= s.len()) {
        let c = s[pos];
        let e: Seq<char> = Seq::empty();
        if c == '^' || c == '_' {
            let r = lx_script(s, pos + 1, c == '^');
            lemma_script_df(s, pos + 1, c == '^');
            lemma_df_concat(acc, r.0);
            lemma_expr_df(s, clamp(r.1, pos + 1, s.len() as int), acc + r.0);
        } else if c == '{' {
            let r = lx_expr(s, pos + 1, e);
            lemma_expr_df(s, pos + 1, e);
            lemma_df_concat(acc, r.0);
            lemma_expr_df(s, clamp(r.1, pos + 1, s.len() as int), acc + r.0);
        } else if c == '}' {
        } else if c == '\\' {
            let r = lx_command(s, pos + 1);
            lemma_command_df(s, pos + 1);
            lemma_df_concat(acc, r.0);
            lemma_expr_df(s, clamp(r.1, pos + 1, s.len() as int), acc + r.0);
        } else if c == ' ' {
            let a2 = if acc.len() > 0 && acc.last() == ' ' {
                acc
            } else {
                acc.push(' ')
            };
            lemma_df_concat(acc, seq![' ']);
            assert(acc.push(' ') == acc + seq![' ']);
            lemma_expr_df(s, pos + 1, a2);
        } else if c == '$' {
        } else {
            let g = if c == '-' {
                '\u{2212}'
            } else {
                c
            };
            lemma_df_concat(acc, seq![g]);
            assert(acc.push(g) == acc + seq![g]);
            lemma_expr_df(s, pos + 1, acc.push(g));
        }
    }
}

proof fn lemma_arg_df(s: Seq<char>, pos: int)
    requires
        dollar_free(s),
    ensures
        dollar_free(lx_arg(s, pos).0),
    decreases s.len() - pos, 1nat,
{
    if !(pos < 0 || pos >= s.len()) {
        if s[pos] == '{' {
            lemma_expr_df(s, pos + 1, Seq::empty());
        } else if s[pos] == '\\' {
            lemma_command_df(s, pos + 1);
        }
    }
}

proof fn lemma_script_df(s: Seq<char>, pos: int, sup: bool)
    requires
        dollar_free(s),
    ensures
        dollar_free(lx_script(s, pos, sup).0),
    decreases s.len() - pos, 2nat,
{
    lemma_arg_df(s, pos);
    let a = lx_arg(s, pos);
    assert(forall|m: int| 0 <= m < 40 ==> (#[trigger] SUPERSCRIPTS@[m]).1 != '$');
    assert(forall|m: int| 0 <= m < 32 ==> (#[trigger] SUBSCRIPTS@[m]).1 != '$');
    if sup {
        lemma_script_run_df(a.0, SUPERSCRIPTS@);
    } else {
        lemma_script_run_df(a.0, SUBSCRIPTS@);
    }
    let open = seq![
        if sup {
            '^'
        } else {
            '_'
        },
        '(',
    ];
    lemma_df_concat(open, a.0);
    lemma_df_concat(open + a.0, seq![')']);
}

proof fn lemma_command_df(s: Seq<char>, pos: int)
    requires
        dollar_free(s),
    ensures
        dollar_free(lx_command(s, pos).0),
    decreases s.len() - pos, 0nat,
{
    if !(pos < 0 || pos > s.len()) {
        let q = pos + letters(s, pos);
        let name = s.subrange(pos, q);
        if q <= pos || q > s.len() {
        } else {
            lemma_df_sub(s, pos, q);
            if name == "frac"@ || name == "binom"@ {
                let a = lx_arg(s, q);
                lemma_arg_df(s, q);
                lemma_arg_df(s, clamp(a.1, q, s.len() as int));
                let b = lx_arg(s, clamp(a.1, q, s.len() as int));
                lemma_df_concat(seq!['('], a.0);
                lemma_df_concat(a.0, seq!['\u{2044}']);
                lemma_df_concat(seq!['('] + a.0, seq![')']);
                lemma_df_concat(seq!['('] + b.0, seq![')']);
                lemma_df_concat(frac_part(a.0), seq!['\u{2044}']);
                lemma_df_concat(frac_part(a.0) + seq!['\u{2044}'], frac_part(b.0));
                lemma_df_concat(seq!['('] + a.0, seq![' ']);
                lemma_df_concat(seq!['('] + a.0 + seq![' '], b.0);
                lemma_df_concat(seq!['('] + a.0 + seq![' '] + b.0, seq![')']);
            } else if name == "sqrt"@ {
                if q < s.len() && s[q] == '[' {
                    lemma_arg_df(s, clamp(after_bracket(s, q + 1), q, s.len() as int));
                    let a = lx_arg(s, clamp(after_bracket(s, q + 1), q, s.len() as int));
                    let n = s.subrange(q + 1, bracket_at(s, q + 1));
                    lemma_bracket_bounds(s, q + 1);
                    lemma_df_sub(s, q + 1, bracket_at(s, q + 1));
                    let r3 = seq!['\u{221b}'];
                    let r4 = seq!['\u{221c}'];
                    lemma_df_concat(r3, a.0);
                    lemma_df_concat(r4, a.0);
                    lemma_df_concat(seq!['\u{221b}', '('], a.0);
                    lemma_df_concat(seq!['\u{221c}', '('], a.0);
                    lemma_df_concat(seq!['\u{221b}', '('] + a.0, seq![')']);
                    lemma_df_concat(seq!['\u{221c}', '('] + a.0, seq![')']);
                    lemma_df_concat(n, seq!['\u{221a}', '(']);
                    lemma_df_concat(n + seq!['\u{221a}', '('], a.0);
                    lemma_df_concat(n + seq!['\u{221a}', '('] + a.0, seq![')']);
                } else {
                    lemma_arg_df(s, q);
                    let a = lx_arg(s, q);
                    lemma_df_concat(seq!['\u{221a}'], a.0);
                    lemma_df_concat(seq!['\u{221a}', '('], a.0);
                    lemma_df_concat(seq!['\u{221a}', '('] + a.0, seq![')']);
                }
            } else if one_of(PLAIN@, name) {
                lemma_arg_df(s, q);
            } else if name == "mathbb"@ {
                lemma_arg_df(s, q);
                let a = lx_arg(s, q);
                let m = a.0.map_values(|c: char| bb(c));
                assert forall|k: int| 0 <= k < m.len() implies #[trigger] m[k] != '$' by {
                    assert(a.0[k] != '$');
                }
            } else if one_of(SILENT@, name) {
            } else if name == "quad"@ || name == "qquad"@ {
            } else if is_accent(name) {
                lemma_arg_df(s, q);
                lemma_df_concat(lx_arg(s, q).0, accent_of(name));
            } else if name == "begin"@ {
                lemma_env_df(s, q);
            } else {
                lemma_name_lookup_df(name, 0);
            }
        }
    }
}

proof fn lemma_bracket_bounds(s: Seq<char>, i: int)
    requires
        0 <= i,
    ensures
        i <= s.len() ==> i <= bracket_at(s, i) <= s.len(),
    decreases s.len() - i,
{
    if 0 <= i < s.len() && s[i] != ']' {
        lemma_bracket_bounds(s, i + 1);
    }
}

proof fn lemma_env_df(s: Seq<char>, pos: int)
    requires
        dollar_free(s),
    ensures
        dollar_free(lx_env(s, pos).0),
    decreases s.len() - pos, 2nat,
{
    if !(pos < 0 || pos > s.len()) {
        let e = lx_arg(s, pos);
        let r = env_rows(s, clamp(e.1, pos, s.len() as int), Seq::empty(), Seq::empty(), Seq::empty());
        lemma_env_rows_df(s, clamp(e.1, pos, s.len() as int), Seq::empty(), Seq::empty(), Seq::empty());
        let texts = row_texts(r.0);
        assert forall|k: int| 0 <= k < texts.len() implies dollar_free(#[trigger] texts[k]) by {
            let row = r.0[k];
            lemma_nonempty_df(row);
            lemma_join_df(nonempty_parts(row), seq![' ', ' ']);
        }
        lemma_join_df(texts, seq![' ', ';', ' ']);
        let inner = join(texts, seq![' ', ';', ' ']);
        lemma_df_concat(seq!['('], inner);
        lemma_df_concat(seq!['('] + inner, seq![')']);
        lemma_df_concat(seq!['['], inner);
        lemma_df_concat(seq!['['] + inner, seq![']']);
        lemma_df_concat(seq!['{'], inner);
        lemma_df_concat(seq!['{'] + inner, seq!['}']);
        lemma_df_concat(seq!['|'], inner);
        lemma_df_concat(seq!['|'] + inner, seq!['|']);
        lemma_df_concat(seq!['\u{2016}'], inner);
        lemma_df_concat(seq!['\u{2016}'] + inner, seq!['\u{2016}']);
        lemma_df_concat(seq!['{', ' '], inner);
        lemma_df_concat(seq!['{', ' '] + inner, seq![' ', '}']);
    }
}

proof fn lemma_no_dollars_df(s: Seq<char>)
    ensures
        dollar_free(no_dollars(s)),
    decreases s.len(),
{
    if s.len() > 0 {
        lemma_no_dollars_df(s.drop_last());
        let r = no_dollars(s.drop_last());
        if s.last() != '$' {
            assert forall|k: int| 0 <= k < r.push(s.last()).len() implies r.push(s.last())[k] != '$' by {
                if k < r.len() {
                    assert(r.push(s.last())[k] == r[k]);
                }
            }
        }
    }
}

/// The Unicode rendering never holds a `$`: stray dollar signs are dropped.
pub proof fn lemma_latex_drops_dollars(src: Seq<char>)
    ensures
        dollar_free(latex_spec(src)),
{
    lemma_no_dollars_df(src);
    lemma_expr_df(no_dollars(src), 0, Seq::empty());
    lemma_df_trim(lx_expr(no_dollars(src), 0, Seq::empty()).0);
}

/// `\frac{N}{D}` prints N, the fraction slash, then D; each of the two is
/// put in parentheses exactly when its rendering is not a single character and
/// holds a `+ - = < >` outside parentheses, the denominator as the numerator.
pub proof fn lemma_frac_parenthesizes(s: Seq<char>, pos: int)
    requires
        0 <= pos,
        pos + 4 <= s.len(),
        s.subrange(pos, pos + 4) == "frac"@,
        letters(s, pos) == 4,
    ensures
        ({
            let a = lx_arg(s, pos + 4);
            let b = lx_arg(s, clamp(a.1, pos + 4, s.len() as int));
            let num = if a.0.len() != 1 && top_op(a.0, 0, 0) {
                seq!['('] + a.0 + seq![')']
            } else {
                a.0
            };
            let den = if b.0.len() != 1 && top_op(b.0, 0, 0) {
                seq!['('] + b.0 + seq![')']
            } else {
                b.0
            };
            lx_command(s, pos) == (num + seq!['\u{2044}'] + den, b.1)
        }),
{
    reveal_strlit("frac");
    reveal_strlit("binom");
    let name = s.subrange(pos, pos + 4);
    assert(name != "binom"@) by {
        assert("binom"@.len() == 5);
    }
}

/// `\binom{N}{K}` prints N and K in parentheses, a space between them.
pub proof fn lemma_binom_text(s: Seq<char>, pos: int)
    requires
        0 <= pos,
        pos + 5 <= s.len(),
        s.subrange(pos, pos + 5) == "binom"@,
        letters(s, pos) == 5,
    ensures
        ({
            let a = lx_arg(s, pos + 5);
            let b = lx_arg(s, clamp(a.1, pos + 5, s.len() as int));
            lx_command(s, pos) == (seq!['('] + a.0 + seq![' '] + b.0 + seq![')'], b.1)
        }),
{
    reveal_strlit("frac");
    reveal_strlit("binom");
    let name = s.subrange(pos, pos + 5);
    assert(name != "frac"@) by {
        assert("frac"@.len() == 4);
    }
}

/// `\sqrt{X}` (no index) prints the root sign before X, and puts X in
/// parentheses unless it renders to a single character.
pub proof fn lemma_sqrt_text(s: Seq<char>, pos: int)
    requires
        0 <= pos,
        pos + 4 <= s.len(),
        s.subrange(pos, pos + 4) == "sqrt"@,
        letters(s, pos) == 4,
        !(pos + 4 < s.len() && s[pos + 4] == '['),
    ensures
        ({
            let a = lx_arg(s, pos + 4);
            lx_command(s, pos) == if a.0.len() == 1 {
                (seq!['\u{221a}'] + a.0, a.1)
            } else {
                (seq!['\u{221a}', '('] + a.0 + seq![')'], a.1)
            }
        }),
{
    reveal_strlit("frac");
    reveal_strlit("binom");
    reveal_strlit("sqrt");
    let name = s.subrange(pos, pos + 4);
    assert(name != "frac"@) by {
        assert(name[0] != "frac"@[0]);
    }
    assert(name != "binom"@) by {
        assert("binom"@.len() == 5);
    }
}

} // verus!

//! The formula grammar and the recursive-descent parser that reads it.
//!
//! ```text
//! formula := group ( "/"? group )*
//! group   := ( symbol | "(" formula ")" ) suffix?
//! symbol  := UPPER LOWER?
//! suffix  := number "wt%"?
//! number  := DIGIT+ ( "." DIGIT+ )?
//! ```
//!
//! A plain number after a group is a molar multiplier; a number followed by
//! `wt%` is the group's percent by mass. The parse tree keeps everything the
//! text says, so that rendering the tree gives the text back.
use crate::element::{spells, ElementSymbol, FormulaError, ELEMENT_SLOTS};
use crate::formula::{
    add_to_slot, lemma_mass_share_congruent, lemma_mass_share_valid, lemma_merged_congruent,
    lemma_merged_valid, lemma_same_amounts_refl, lemma_same_amounts_symm, lemma_same_amounts_trans,
    lemma_scaled_congruent, lemma_scaled_valid, mass_share, merge_fits, merged, no_entries,
    same_amounts, scale_fits, scaled, share_fits, valid_slots, weigh_error, error_fits,
    ChemicalFormula, Slots,
};
use crate::rational::{whole, Frac, Rational};
use vstd::prelude::*;
use vstd::string::StringSliceAdditionalSpecFns;

verus! {

/// A decimal number as written: its digits before and after the point.
#[derive(Debug)]
pub struct Numeral {
    pub whole: Vec<u8>,
    pub fraction: Vec<u8>,
    pub value: Rational,
}

/// What follows a group: nothing, a molar multiplier, or a percent by mass.
#[derive(Debug)]
pub enum Suffix {
    Plain,
    Count(Numeral),
    Percent(Numeral),
}

/// A group's content: one element, or a parenthesized formula.
#[derive(Debug)]
pub enum Body {
    Element(ElementSymbol),
    Nested(Vec<Group>),
}

/// One group of a formula; `slash` when a `/` stands before it.
#[derive(Debug)]
pub struct Group {
    pub slash: bool,
    pub body: Body,
    pub suffix: Suffix,
}

/// The errors that reading a formula can end in.
pub open spec fn read_error(e: FormulaError) -> bool {
    e == FormulaError::FileParseError || e == FormulaError::UnknownElement || e
        == FormulaError::ArithmeticOverflow
}

pub open spec fn is_digit(c: u8) -> bool {
    48 <= c <= 57
}

pub open spec fn is_upper(c: u8) -> bool {
    65 <= c <= 90
}

pub open spec fn is_lower(c: u8) -> bool {
    97 <= c <= 122
}

pub open spec fn all_digits(s: Seq<u8>) -> bool {
    forall|i: int| 0 <= i < s.len() ==> is_digit(#[trigger] s[i])
}

/// The number that a string of digits spells.
pub open spec fn digits_value(s: Seq<u8>) -> int
    decreases s.len(),
{
    if s.len() == 0 {
        0
    } else {
        digits_value(s.drop_last()) * 10 + (s.last() - 48)
    }
}

pub open spec fn pow10(k: nat) -> int
    decreases k,
{
    if k == 0 {
        1
    } else {
        10 * pow10((k - 1) as nat)
    }
}

/// The value of a decimal number with the given digits before and after
/// the point.
pub open spec fn decimal_value(whole: Seq<u8>, fraction: Seq<u8>) -> Frac {
    Frac { n: digits_value(whole + fraction), d: pow10(fraction.len()) }
}

pub open spec fn numeral_wf(n: Numeral) -> bool {
    &&& n.whole@.len() > 0
    &&& all_digits(n.whole@)
    &&& all_digits(n.fraction@)
    &&& n.value@.valid()
    &&& n.value@.eqv(decimal_value(n.whole@, n.fraction@))
}

/// The text of a decimal number with digits `w` before the point and `f`
/// after it; no point where `f` is empty.
pub open spec fn numeral_shape(w: Seq<u8>, f: Seq<u8>) -> Seq<u8> {
    if f.len() == 0 {
        w
    } else {
        w + seq![46u8] + f
    }
}

pub open spec fn numeral_text(n: Numeral) -> Seq<u8> {
    numeral_shape(n.whole@, n.fraction@)
}

/// `s` stands in `t` from `i` on.
pub open spec fn text_at(t: Seq<u8>, i: int, s: Seq<u8>) -> bool {
    0 <= i && i + s.len() <= t.len() && t.subrange(i, i + s.len()) == s
}

/// Nothing at `i` could continue a number: the end, or neither a digit nor
/// a point.
pub open spec fn not_numeric(t: Seq<u8>, i: int) -> bool {
    i == t.len() || (0 <= i < t.len() && !is_digit(t[i]) && t[i] != 46)
}

/// What may follow a group: the end, a closing parenthesis, or the start of
/// another group.
pub open spec fn group_boundary(t: Seq<u8>, i: int) -> bool {
    i == t.len() || (0 <= i < t.len() && (t[i] == 41 || t[i] == 47 || t[i] == 40 || is_upper(
        t[i],
    )))
}

/// What may follow a formula: the end, or a closing parenthesis.
pub open spec fn ends_formula(t: Seq<u8>, i: int) -> bool {
    i == t.len() || (0 <= i < t.len() && t[i] == 41)
}

pub open spec fn suffix_wf(s: Suffix) -> bool {
    match s {
        Suffix::Plain => true,
        Suffix::Count(n) => numeral_wf(n),
        Suffix::Percent(n) => numeral_wf(n),
    }
}

pub open spec fn suffix_text(s: Suffix) -> Seq<u8> {
    match s {
        Suffix::Plain => seq![],
        Suffix::Count(n) => numeral_text(n),
        Suffix::Percent(n) => numeral_text(n) + seq![119u8, 116u8, 37u8],
    }
}

/// The letters of an element's symbol.
pub open spec fn symbol_text(e: ElementSymbol) -> Seq<u8> {
    if e.code().1 == 0 {
        seq![e.code().0]
    } else {
        seq![e.code().0, e.code().1]
    }
}

/// The text of the first `k` groups.
pub open spec fn groups_text(gs: Seq<Group>, k: int) -> Seq<u8>
    decreases gs, k,
{
    if k <= 0 || k > gs.len() {
        seq![]
    } else {
        let g = gs[k - 1];
        let body = match g.body {
            Body::Element(e) => symbol_text(e),
            Body::Nested(inner) => seq![40u8] + groups_text(inner@, inner@.len() as int) + seq![
                41u8,
            ],
        };
        let slash: Seq<u8> = if g.slash {
            seq![47u8]
        } else {
            seq![]
        };
        groups_text(gs, k - 1) + slash + body + suffix_text(g.suffix)
    }
}

/// The text of a formula.
pub open spec fn formula_text(gs: Seq<Group>) -> Seq<u8> {
    groups_text(gs, gs.len() as int)
}

/// The first `k` groups follow the grammar: a slash only between groups,
/// known elements, non-empty nested formulas, well-formed numbers.
pub open spec fn groups_wf(gs: Seq<Group>, k: int) -> bool
    decreases gs, k,
{
    if k <= 0 || k > gs.len() {
        k == 0
    } else {
        let g = gs[k - 1];
        &&& groups_wf(gs, k - 1)
        &&& (k == 1 ==> !g.slash)
        &&& suffix_wf(g.suffix)
        &&& match g.body {
            Body::Element(e) => e != ElementSymbol::Unknown,
            Body::Nested(inner) => inner@.len() > 0 && groups_wf(inner@, inner@.len() as int),
        }
    }
}

/// A formula that follows the grammar: one or more well-formed groups.
pub open spec fn formula_wf(gs: Seq<Group>) -> bool {
    gs.len() > 0 && groups_wf(gs, gs.len() as int)
}

fn is_digit_byte(c: u8) -> (b: bool)
    ensures
        b == is_digit(c),
{
    48 <= c && c <= 57
}

/// Reads the digits from `pos` on; returns them and where they end.
fn read_digits(text: &[u8], pos: usize) -> (r: (Vec<u8>, usize))
    requires
        pos <= text@.len(),
    ensures
        pos <= r.1 <= text@.len(),
        r.0@ == text@.subrange(pos as int, r.1 as int),
        all_digits(r.0@),
        r.1 == text@.len() || !is_digit(text@[r.1 as int]),
        forall|i: int| pos <= i < r.1 ==> is_digit(#[trigger] text@[i]),
{
    let mut out: Vec<u8> = Vec::new();
    let mut i: usize = pos;
    while i < text.len() && is_digit_byte(text[i])
        invariant
            pos <= i <= text@.len(),
            out@ == text@.subrange(pos as int, i as int),
            all_digits(out@),
            forall|j: int| pos <= j < i ==> is_digit(#[trigger] text@[j]),
        decreases text@.len() - i,
    {
        out.push(text[i]);
        i = i + 1;
    }
    (out, i)
}

/// The value of a string of digits, when it fits in 64 bits.
fn digits_number(s: &Vec<u8>) -> (r: Option<u64>)
    requires
        all_digits(s@),
    ensures
        r matches Some(v) ==> v == digits_value(s@),
        digits_value(s@) <= u64::MAX ==> r is Some,
{
    let mut v: u64 = 0;
    let mut i: usize = 0;
    while i < s.len()
        invariant
            i <= s@.len(),
            all_digits(s@),
            v == digits_value(s@.subrange(0, i as int)),
        decreases s@.len() - i,
    {
        let d = s[i];
        proof {
            assert(is_digit(s@[i as int]));
            assert(s@.subrange(0, i as int + 1).drop_last() =~= s@.subrange(0, i as int));
            lemma_digits_prefix(s@, i as int + 1);
            lemma_digits_nonneg(s@.subrange(0, i as int));
        }
        let t = match v.checked_mul(10) {
            Some(t) => t,
            None => {
                return None;
            },
        };
        v = match t.checked_add((d - 48) as u64) {
            Some(t) => t,
            None => {
                return None;
            },
        };
        i = i + 1;
    }
    proof {
        assert(s@.subrange(0, s@.len() as int) =~= s@);
    }
    Some(v)
}

proof fn lemma_digits_nonneg(t: Seq<u8>)
    requires
        all_digits(t),
    ensures
        digits_value(t) >= 0,
    decreases t.len(),
{
    if t.len() > 0 {
        assert(all_digits(t.drop_last()));
        lemma_digits_nonneg(t.drop_last());
        assert(is_digit(t.last()));
    }
}

/// A prefix of a string of digits spells no more than the whole string.
proof fn lemma_digits_prefix(t: Seq<u8>, i: int)
    requires
        all_digits(t),
        0 <= i <= t.len(),
    ensures
        digits_value(t.subrange(0, i)) <= digits_value(t),
    decreases t.len() - i,
{
    if i < t.len() {
        lemma_digits_prefix(t, i + 1);
        assert(t.subrange(0, i + 1).drop_last() =~= t.subrange(0, i));
        assert(all_digits(t.subrange(0, i)));
        lemma_digits_nonneg(t.subrange(0, i));
        assert(is_digit(t[i]));
    } else {
        assert(t.subrange(0, i) =~= t);
    }
}

proof fn lemma_pow10_mono(i: nat, k: nat)
    requires
        i <= k,
    ensures
        1 <= pow10(i) <= pow10(k),
    decreases k,
{
    if i < k {
        lemma_pow10_mono(i, (k - 1) as nat);
    } else if k > 0 {
        lemma_pow10_mono((k - 1) as nat, (k - 1) as nat);
    }
}

/// The digits of a number give a value and a power of ten that fit in 64
/// bits.
pub open spec fn numeral_fits(w: Seq<u8>, f: Seq<u8>) -> bool {
    digits_value(w + f) <= u64::MAX && pow10(f.len()) <= u64::MAX
}

/// Ten to the power `k`, when it fits in 64 bits.
fn power_of_ten(k: usize) -> (r: Option<u64>)
    ensures
        r matches Some(v) ==> v == pow10(k as nat) && v > 0,
        pow10(k as nat) <= u64::MAX ==> r is Some,
{
    let mut v: u64 = 1;
    let mut i: usize = 0;
    while i < k
        invariant
            i <= k,
            v == pow10(i as nat),
            v > 0,
        decreases k - i,
    {
        proof {
            lemma_pow10_mono((i + 1) as nat, k as nat);
        }
        v = match v.checked_mul(10) {
            Some(t) => t,
            None => {
                return None;
            },
        };
        i = i + 1;
    }
    Some(v)
}

/// A run of digits read from `a` up to the first non-digit `b` is exactly
/// the digits `d` that stand at `a` with no digit after them.
proof fn lemma_digit_run(t: Seq<u8>, a: int, b: int, d: Seq<u8>)
    requires
        0 <= a <= b <= t.len(),
        forall|i: int| a <= i < b ==> is_digit(#[trigger] t[i]),
        b == t.len() || !is_digit(t[b]),
        all_digits(d),
        a + d.len() <= t.len(),
        t.subrange(a, a + d.len()) == d,
        a + d.len() == t.len() || !is_digit(t[a + d.len()]),
    ensures
        b == a + d.len(),
{
    if b < a + d.len() {
        assert(t[b] == d[b - a]);
    }
    if b > a + d.len() {
        assert(is_digit(t[a + d.len()]));
    }
}

/// Reads a number that starts at `pos`.
fn parse_numeral(text: &[u8], pos: usize, target: Ghost<(Seq<u8>, Seq<u8>)>) -> (r: Result<
    (Numeral, usize),
    FormulaError,
>)
    requires
        pos < text@.len(),
        is_digit(text@[pos as int]),
    ensures
        r matches Err(e) ==> e == FormulaError::ArithmeticOverflow,
        ({
            let (w, f) = target@;
            w.len() > 0 && all_digits(w) && all_digits(f) && text_at(
                text@,
                pos as int,
                numeral_shape(w, f),
            ) && not_numeric(text@, pos + numeral_shape(w, f).len())
        }) ==> (r matches Ok(p) ==> p.1 == pos + numeral_shape(target@.0, target@.1).len()),
        ({
            let (w, f) = target@;
            w.len() > 0 && all_digits(w) && all_digits(f) && text_at(
                text@,
                pos as int,
                numeral_shape(w, f),
            ) && not_numeric(text@, pos + numeral_shape(w, f).len()) && numeral_fits(w, f)
        }) ==> r is Ok,
        r matches Ok(p) ==> pos < p.1 <= text@.len() && numeral_wf(p.0) && text@.subrange(
            pos as int,
            p.1 as int,
        ) == numeral_text(p.0),
{
    let ghost (tw, tf) = target@;
    let ghost shaped = tw.len() > 0 && all_digits(tw) && all_digits(tf) && text_at(
        text@,
        pos as int,
        numeral_shape(tw, tf),
    ) && not_numeric(text@, pos + numeral_shape(tw, tf).len());
    proof {
        if shaped {
            if tf.len() == 0 {
                assert(numeral_shape(tw, tf) == tw);
            } else {
                lemma_text_at_split(text@, pos as int, tw + seq![46u8], tf);
                lemma_text_at_split(text@, pos as int, tw, seq![46u8]);
                lemma_text_at_index(text@, pos + tw.len(), seq![46u8], 0);
                lemma_text_at_index(text@, pos + tw.len() + 1, tf, 0);
                assert(is_digit(tf[0]));
            }
        }
    }
    let (whole, p1) = read_digits(text, pos);
    proof {
        if shaped {
            lemma_digit_run(text@, pos as int, p1 as int, tw);
            if tf.len() > 0 {
                lemma_text_at_split(text@, pos as int, tw + seq![46u8], tf);
                lemma_text_at_split(text@, pos as int, tw, seq![46u8]);
            } else {
                assert(numeral_shape(tw, tf) == tw);
            }
            assert(whole@ =~= tw);
        }
    }
    let (fraction, end) = if text.len() - p1 > 1 && text[p1] == 46 && is_digit_byte(text[p1 + 1]) {
        let (f, p2) = read_digits(text, p1 + 1);
        proof {
            assert(text@.subrange(pos as int, p2 as int) =~= whole@ + seq![46u8] + f@);
            if shaped {
                assert(tf.len() > 0);
                lemma_digit_run(text@, p1 + 1, p2 as int, tf);
                assert(p2 == pos + numeral_shape(tw, tf).len());
                lemma_text_at_split(text@, pos as int, tw + seq![46u8], tf);
                assert(f@ =~= tf);
            }
        }
        (f, p2)
    } else {
        proof {
            if shaped {
                assert(tf.len() == 0);
                assert(p1 == pos + numeral_shape(tw, tf).len());
                assert(Seq::<u8>::empty() =~= tf);
            }
        }
        (Vec::new(), p1)
    };
    let mut all: Vec<u8> = Vec::new();
    let mut i: usize = 0;
    while i < whole.len()
        invariant
            i <= whole@.len(),
            all@ == whole@.subrange(0, i as int),
        decreases whole@.len() - i,
    {
        all.push(whole[i]);
        i = i + 1;
    }
    let mut j: usize = 0;
    while j < fraction.len()
        invariant
            j <= fraction@.len(),
            all@ == whole@ + fraction@.subrange(0, j as int),
        decreases fraction@.len() - j,
    {
        all.push(fraction[j]);
        j = j + 1;
    }
    proof {
        assert(all@ =~= whole@ + fraction@);
        assert(all_digits(all@));
    }
    let n = match digits_number(&all) {
        Some(n) => n,
        None => {
            return Err(FormulaError::ArithmeticOverflow);
        },
    };
    let d = match power_of_ten(fraction.len()) {
        Some(d) => d,
        None => {
            return Err(FormulaError::ArithmeticOverflow);
        },
    };
    let value = Rational::fraction(n, d);
    let numeral = Numeral { whole, fraction, value };
    proof {
        if numeral.fraction@.len() == 0 {
            assert(text@.subrange(pos as int, end as int) =~= numeral.whole@);
        }
    }
    Ok((numeral, end))
}

/// The number of a suffix, where there is one, fits in 64 bits.
pub open spec fn suffix_fits(s: Suffix) -> bool {
    match s {
        Suffix::Plain => true,
        Suffix::Count(n) => numeral_fits(n.whole@, n.fraction@),
        Suffix::Percent(n) => numeral_fits(n.whole@, n.fraction@),
    }
}

/// Every number in the first `k` groups fits in 64 bits.
pub open spec fn numerals_fit(gs: Seq<Group>, k: int) -> bool
    decreases gs, k,
{
    if k <= 0 || k > gs.len() {
        true
    } else {
        numerals_fit(gs, k - 1) && suffix_fits(gs[k - 1].suffix) && match gs[k - 1].body {
            Body::Element(_) => true,
            Body::Nested(inner) => numerals_fit(inner@, inner@.len() as int),
        }
    }
}

proof fn lemma_numerals_at(gs: Seq<Group>, k: int, i: int)
    requires
        numerals_fit(gs, k),
        0 <= i < k <= gs.len(),
    ensures
        suffix_fits(gs[i].suffix),
        gs[i].body matches Body::Nested(inner) ==> numerals_fit(inner@, inner@.len() as int),
    decreases k,
{
    if i < k - 1 {
        lemma_numerals_at(gs, k - 1, i);
    }
}

/// Every formula that `t` is the text of has numbers that fit in 64 bits.
pub open spec fn text_numerals_fit(t: Seq<u8>) -> bool {
    forall|gs: Seq<Group>|
        #[trigger] formula_wf(gs) && formula_text(gs) == t ==> numerals_fit(gs, gs.len() as int)
}

/// Reads the suffix at `pos`, if there is one.
fn parse_suffix(text: &[u8], pos: usize, target: Ghost<Suffix>) -> (r: Result<
    (Suffix, usize),
    FormulaError,
>)
    requires
        pos <= text@.len(),
    ensures
        r matches Ok(p) ==> pos <= p.1 <= text@.len() && suffix_wf(p.0) && text@.subrange(
            pos as int,
            p.1 as int,
        ) == suffix_text(p.0),
        r matches Err(e) ==> e == FormulaError::ArithmeticOverflow,
        suffix_wf(target@) && text_at(text@, pos as int, suffix_text(target@)) && group_boundary(
            text@,
            pos + suffix_text(target@).len(),
        ) ==> (r matches Ok(p) ==> p.1 == pos + suffix_text(target@).len()),
        suffix_wf(target@) && text_at(text@, pos as int, suffix_text(target@)) && group_boundary(
            text@,
            pos + suffix_text(target@).len(),
        ) && suffix_fits(target@) ==> r is Ok,
{
    let ghost fits = suffix_wf(target@) && text_at(text@, pos as int, suffix_text(target@))
        && group_boundary(text@, pos + suffix_text(target@).len());
    let ghost shape = match target@ {
        Suffix::Count(n) => (n.whole@, n.fraction@),
        Suffix::Percent(n) => (n.whole@, n.fraction@),
        Suffix::Plain => (Seq::<u8>::empty(), Seq::<u8>::empty()),
    };
    if pos < text.len() && is_digit_byte(text[pos]) {
        proof {
            if fits {
                assert(!(target@ is Plain));
                let nt = numeral_shape(shape.0, shape.1);
                assert(suffix_text(target@).subrange(0, nt.len() as int) =~= nt);
                assert(text@.subrange(pos as int, pos + nt.len()) =~= nt);
                if target@ is Percent {
                    assert(suffix_text(target@)[nt.len() as int] == 119u8);
                    assert(text@[pos + nt.len()] == 119u8);
                }
            }
        }
        let (n, p) = parse_numeral(text, pos, Ghost(shape))?;
        if text.len() - p >= 3 && text[p] == 119 && text[p + 1] == 116 && text[p + 2] == 37 {
            proof {
                assert(text@.subrange(pos as int, p + 3) =~= numeral_text(n) + seq![
                    119u8,
                    116u8,
                    37u8,
                ]);
                if fits && target@ is Count {
                    assert(text@[p as int] == 119u8);
                }
            }
            Ok((Suffix::Percent(n), p + 3))
        } else {
            proof {
                if fits && target@ is Percent {
                    let nt = numeral_shape(shape.0, shape.1);
                    assert(suffix_text(target@)[nt.len() as int] == 119u8);
                    assert(suffix_text(target@)[nt.len() as int + 1] == 116u8);
                    assert(suffix_text(target@)[nt.len() as int + 2] == 37u8);
                    assert(text@[p as int] == 119u8);
                    assert(text@[p + 1] == 116u8);
                    assert(text@[p + 2] == 37u8);
                }
            }
            Ok((Suffix::Count(n), p))
        }
    } else {
        proof {
            assert(text@.subrange(pos as int, pos as int) =~= seq![]);
            if fits && !(target@ is Plain) {
                assert(suffix_text(target@)[0] == shape.0[0]);
                assert(text@[pos as int] == suffix_text(target@)[0]);
            }
        }
        Ok((Suffix::Plain, pos))
    }
}

/// Reads the symbol at `pos`: an upper-case letter and an optional
/// lower-case one.
fn parse_symbol(text: &[u8], pos: usize) -> (r: Result<(ElementSymbol, usize), FormulaError>)
    requires
        pos < text@.len(),
        is_upper(text@[pos as int]),
    ensures
        r matches Err(e) ==> e == FormulaError::UnknownElement,
        forall|e: ElementSymbol|
            #![trigger symbol_text(e)]
            e != ElementSymbol::Unknown && text_at(text@, pos as int, symbol_text(e)) && (pos
                + symbol_text(e).len() == text@.len() || !is_lower(
                text@[pos + symbol_text(e).len()],
            )) ==> (r matches Ok(p) && p.1 == pos + symbol_text(e).len()),
        r matches Ok(p) ==> pos < p.1 <= text@.len() && p.0 != ElementSymbol::Unknown
            && text@.subrange(pos as int, p.1 as int) == symbol_text(p.0),
{
    let mut code: Vec<u8> = Vec::new();
    code.push(text[pos]);
    let end = if pos + 1 < text.len() && 97 <= text[pos + 1] && text[pos + 1] <= 122 {
        code.push(text[pos + 1]);
        pos + 2
    } else {
        pos + 1
    };
    assert(code@ =~= text@.subrange(pos as int, end as int));
    let e = ElementSymbol::from_bytes(code.as_slice());
    proof {
        assert forall|x: ElementSymbol|
            #![trigger symbol_text(x)]
            x != ElementSymbol::Unknown && text_at(text@, pos as int, symbol_text(x)) && (pos
                + symbol_text(x).len() == text@.len() || !is_lower(
                text@[pos + symbol_text(x).len()],
            )) implies end == pos + symbol_text(x).len() && spells(code@, x.code()) by {
            x.lemma_index();
            if x.code().1 == 0 {
                assert(text@[pos as int] == x.code().0);
            } else {
                assert(text@[pos + 1] == x.code().1);
            }
            assert(code@ =~= symbol_text(x));
        }
    }
    if e == ElementSymbol::Unknown {
        return Err(FormulaError::UnknownElement);
    }
    proof {
        assert(spells(code@, e.code()));
        assert(symbol_text(e) =~= code@);
    }
    Ok((e, end))
}

/// Whether a group can start at `pos`.
fn starts_group(text: &[u8], pos: usize) -> (b: bool)
    requires
        pos <= text@.len(),
    ensures
        b == (pos < text@.len() && (text@[pos as int] == 40 || is_upper(text@[pos as int]))),
{
    pos < text.len() && (text[pos] == 40 || (65 <= text[pos] && text[pos] <= 90))
}

/// `target` is a formula whose text stands in `t` from `i` on, followed by
/// the end or a closing parenthesis.
pub open spec fn aims_at(t: Seq<u8>, i: int, target: Option<Seq<Group>>) -> bool {
    match target {
        Some(gs) => formula_wf(gs) && text_at(t, i, formula_text(gs)) && ends_formula(
            t,
            i + formula_text(gs).len(),
        ),
        None => false,
    }
}

/// Reads a formula that starts at `pos`, as far as it goes. Where the text
/// of a well-formed formula stands there, it reads exactly that text, or
/// fails only on a number too large.
#[verifier::rlimit(40)]
fn parse_groups(text: &[u8], pos: usize, target: Ghost<Option<Seq<Group>>>) -> (r: Result<
    (Vec<Group>, usize),
    FormulaError,
>)
    requires
        pos <= text@.len(),
    ensures
        r matches Err(e) ==> read_error(e),
        r matches Ok(p) ==> pos < p.1 <= text@.len() && formula_wf(p.0@) && text@.subrange(
            pos as int,
            p.1 as int,
        ) == formula_text(p.0@),
        aims_at(text@, pos as int, target@) ==> (r matches Ok(p) ==> p.1 == pos + formula_text(
            target@->0,
        ).len()) && (r matches Err(e) ==> e == FormulaError::ArithmeticOverflow),
        aims_at(text@, pos as int, target@) && numerals_fit(
            target@->0,
            target@->0.len() as int,
        ) ==> r is Ok,
    decreases text@.len() - pos,
{
    let ghost aimed = aims_at(text@, pos as int, target@);
    let ghost gs = target@->0;
    let ghost fitted = aimed && numerals_fit(gs, gs.len() as int);
    let mut groups: Vec<Group> = Vec::new();
    let mut p: usize = pos;
    loop
        invariant
            pos <= p <= text@.len(),
            groups_wf(groups@, groups@.len() as int),
            groups@.len() > 0 ==> p > pos,
            text@.subrange(pos as int, p as int) == groups_text(groups@, groups@.len() as int),
            aimed == aims_at(text@, pos as int, target@),
            gs == target@->0,
            fitted == (aimed && numerals_fit(gs, gs.len() as int)),
            aimed ==> groups@.len() <= gs.len() && p == pos + groups_text(
                gs,
                groups@.len() as int,
            ).len(),
        ensures
            aimed ==> groups@.len() == gs.len(),
        decreases text@.len() - p,
    {
        let ghost c = groups@.len() as int;
        proof {
            if aimed {
                lemma_next_group(text@, pos as int, gs, c);
            }
        }
        let slash = groups.len() > 0 && p < text.len() && text[p] == 47 && starts_group(
            text,
            p + 1,
        );
        let q: usize = if slash {
            p + 1
        } else {
            p
        };
        let ghost g = gs[c];
        proof {
            if aimed {
                lemma_aimed_group(text@, pos as int, gs, c, p as int, slash, q as int);
            }
        }
        if !starts_group(text, q) {
            break ;
        }
        assert(text@.subrange(p as int, q as int) =~= slash_text(slash));
        let ghost inner_target: Option<Seq<Group>> = if aimed {
            match g.body {
                Body::Nested(inner) => Some(inner@),
                Body::Element(_) => None,
            }
        } else {
            None
        };
        proof {
            if fitted {
                lemma_numerals_at(gs, gs.len() as int, c);
            }
        }
        let (body, after_body) = if text[q] == 40 {
            let (inner, close) = parse_groups(text, q + 1, Ghost(inner_target))?;
            if close >= text.len() || text[close] != 41 {
                return Err(FormulaError::FileParseError);
            }
            proof {
                assert(text@.subrange(q as int, close + 1) =~= seq![40u8] + formula_text(inner@)
                    + seq![41u8]);
            }
            assert(body_text(Body::Nested(inner)) == seq![40u8] + formula_text(inner@) + seq![41u8]);
            (Body::Nested(inner), close + 1)
        } else {
            let (e, after) = parse_symbol(text, q)?;
            proof {
                if aimed {
                    let ge = g.body->Element_0;
                    assert(symbol_text(ge) == body_text(g.body));
                    assert(after == q + symbol_text(ge).len());
                }
            }
            (Body::Element(e), after)
        };
        let (suffix, end) = parse_suffix(text, after_body, Ghost(g.suffix))?;
        let group = Group { slash, body, suffix };
        let ghost before = groups@;
        proof {
            lemma_split4(text@, pos as int, p as int, q as int, after_body as int, end as int);
            if aimed {
                lemma_groups_text_step(gs, c + 1);
            }
        }
        groups.push(group);
        proof {
            lemma_push_group(groups@, before, group);
        }
        p = end;
    }
    proof {
        if aimed {
            assert(groups@.len() == gs.len());
            assert(groups_text(gs, gs.len() as int) == formula_text(gs));
        }
    }
    if groups.len() == 0 {
        return Err(FormulaError::FileParseError);
    }
    Ok((groups, p))
}

/// At the start of a step through an aimed-at formula: where groups remain,
/// the parser's reading of the slash matches the next group's, a group
/// starts after it, and its content can be read; where none remain, no
/// group starts.
proof fn lemma_aimed_group(
    t: Seq<u8>,
    i: int,
    gs: Seq<Group>,
    c: int,
    p: int,
    slash: bool,
    q: int,
)
    requires
        aims_at(t, i, Some(gs)),
        0 <= c <= gs.len(),
        p == i + groups_text(gs, c).len(),
        slash == (c > 0 && p < t.len() && t[p] == 47 && (p + 1 < t.len() && (t[p + 1] == 40
            || is_upper(t[p + 1])))),
        q == if slash {
            p + 1
        } else {
            p
        },
    ensures
        c == gs.len() ==> !(q < t.len() && (t[q] == 40 || is_upper(t[q]))),
        c < gs.len() ==> {
            let g = gs[c];
            &&& slash == g.slash
            &&& q < t.len()
            &&& (t[q] == 40 || is_upper(t[q]))
            &&& text_at(t, q, body_text(g.body))
            &&& text_at(t, q + body_text(g.body).len(), suffix_text(g.suffix))
            &&& group_boundary(t, q + body_text(g.body).len() + suffix_text(g.suffix).len())
            &&& p + group_text(g).len() == q + body_text(g.body).len() + suffix_text(
                g.suffix,
            ).len()
            &&& suffix_wf(g.suffix)
            &&& match g.body {
                Body::Nested(inner) => t[q] == 40 && aims_at(t, q + 1, Some(inner@)),
                Body::Element(e) => t[q] != 40 && e != ElementSymbol::Unknown && text_at(
                    t,
                    q,
                    symbol_text(e),
                ) && (q + symbol_text(e).len() == t.len() || !is_lower(
                    t[q + symbol_text(e).len()],
                )),
            }
        },
{
    lemma_next_group(t, i, gs, c);
    if c < gs.len() {
        let g = gs[c];
        lemma_text_at_index(t, p + slash_text(g.slash).len(), body_text(g.body), 0);
        if g.slash {
            lemma_text_at_index(t, p, slash_text(g.slash), 0);
        }
        match g.body {
            Body::Nested(inner) => {
                let ft = formula_text(inner@);
                lemma_text_at_split(t, q, seq![40u8] + ft, seq![41u8]);
                lemma_text_at_split(t, q, seq![40u8], ft);
                lemma_text_at_index(t, q + 1 + ft.len(), seq![41u8], 0);
            },
            Body::Element(e) => {
                e.lemma_index();
                let after = q + symbol_text(e).len();
                if after < t.len() {
                    if suffix_text(g.suffix).len() > 0 {
                        lemma_text_at_index(t, after, suffix_text(g.suffix), 0);
                        lemma_suffix_start(g.suffix);
                    }
                }
            },
        }
    }
}

/// The text of one group.
pub open spec fn group_text(g: Group) -> Seq<u8> {
    slash_text(g.slash) + body_text(g.body) + suffix_text(g.suffix)
}

proof fn lemma_groups_text_step(gs: Seq<Group>, k: int)
    requires
        0 < k <= gs.len(),
    ensures
        groups_text(gs, k) == groups_text(gs, k - 1) + group_text(gs[k - 1]),
{
    assert(groups_text(gs, k) =~= groups_text(gs, k - 1) + group_text(gs[k - 1]));
}

/// The text of the first `c` groups begins the text of the first `n`.
proof fn lemma_groups_text_prefix(gs: Seq<Group>, c: int, n: int)
    requires
        0 <= c <= n <= gs.len(),
    ensures
        groups_text(gs, c).len() <= groups_text(gs, n).len(),
        groups_text(gs, n).subrange(0, groups_text(gs, c).len() as int) == groups_text(gs, c),
    decreases n - c,
{
    if c < n {
        lemma_groups_text_prefix(gs, c, n - 1);
        lemma_groups_text_step(gs, n);
        let a = groups_text(gs, c);
        let b = groups_text(gs, n - 1);
        assert(groups_text(gs, n).subrange(0, a.len() as int) =~= b.subrange(0, a.len() as int));
    } else {
        assert(groups_text(gs, n).subrange(0, groups_text(gs, c).len() as int) =~= groups_text(
            gs,
            c,
        ));
    }
}

proof fn lemma_text_at_split(t: Seq<u8>, i: int, a: Seq<u8>, b: Seq<u8>)
    requires
        text_at(t, i, a + b),
    ensures
        text_at(t, i, a),
        text_at(t, i + a.len(), b),
{
    let s = t.subrange(i, i + (a + b).len());
    assert forall|k: int| 0 <= k < a.len() implies t.subrange(i, i + a.len())[k] == a[k] by {
        assert(s[k] == (a + b)[k]);
    }
    assert(t.subrange(i, i + a.len()) =~= a);
    assert forall|k: int| 0 <= k < b.len() implies t.subrange(
        i + a.len(),
        i + a.len() + b.len(),
    )[k] == b[k] by {
        assert(s[a.len() + k] == (a + b)[a.len() + k]);
    }
    assert(t.subrange(i + a.len(), i + a.len() + b.len()) =~= b);
}

proof fn lemma_text_at_index(t: Seq<u8>, i: int, s: Seq<u8>, k: int)
    requires
        text_at(t, i, s),
        0 <= k < s.len(),
    ensures
        t[i + k] == s[k],
{
    assert(t.subrange(i, i + s.len())[k] == s[k]);
}

/// A group's text starts with a slash, a parenthesis or an upper-case
/// letter, and its content with a parenthesis or an upper-case letter.
proof fn lemma_group_start(g: Group)
    requires
        suffix_wf(g.suffix),
        match g.body {
            Body::Element(e) => e != ElementSymbol::Unknown,
            Body::Nested(_) => true,
        },
    ensures
        body_text(g.body).len() > 0,
        body_text(g.body)[0] == 40 || is_upper(body_text(g.body)[0]),
        group_text(g).len() > 0,
        group_boundary(group_text(g), 0),
{
    match g.body {
        Body::Element(e) => {
            e.lemma_index();
        },
        Body::Nested(_) => {},
    }
    if g.slash {
        assert(group_text(g)[0] == 47u8);
    } else {
        assert(group_text(g)[0] == body_text(g.body)[0]);
    }
}

/// A suffix's text, where there is one, starts with a digit.
proof fn lemma_suffix_start(s: Suffix)
    requires
        suffix_wf(s),
        suffix_text(s).len() > 0,
    ensures
        is_digit(suffix_text(s)[0]),
{
    match s {
        Suffix::Plain => {},
        Suffix::Count(n) => {
            assert(suffix_text(s)[0] == n.whole@[0]);
        },
        Suffix::Percent(n) => {
            assert(suffix_text(s)[0] == n.whole@[0]);
        },
    }
}

/// Where the first `c` groups of an aimed-at formula have been read, the
/// next group's text follows, and after it what may follow a group.
proof fn lemma_next_group(t: Seq<u8>, i: int, gs: Seq<Group>, c: int)
    requires
        aims_at(t, i, Some(gs)),
        0 <= c <= gs.len(),
    ensures
        c == gs.len() ==> ends_formula(t, i + groups_text(gs, c).len()),
        c < gs.len() ==> {
            let g = gs[c];
            let at = i + groups_text(gs, c).len();
            let after = at + group_text(g).len();
            &&& text_at(t, at, slash_text(g.slash))
            &&& text_at(t, at + slash_text(g.slash).len(), body_text(g.body))
            &&& text_at(
                t,
                at + slash_text(g.slash).len() + body_text(g.body).len(),
                suffix_text(g.suffix),
            )
            &&& after == at + slash_text(g.slash).len() + body_text(g.body).len() + suffix_text(
                g.suffix,
            ).len()
            &&& group_boundary(t, after)
            &&& body_text(g.body).len() > 0
            &&& (body_text(g.body)[0] == 40 || is_upper(body_text(g.body)[0]))
            &&& (c == 0 ==> !g.slash)
            &&& suffix_wf(g.suffix)
            &&& match g.body {
                Body::Element(e) => e != ElementSymbol::Unknown,
                Body::Nested(inner) => formula_wf(inner@),
            }
        },
{
    let n = gs.len() as int;
    if c < n {
        let g = gs[c];
        lemma_groups_text_prefix(gs, c + 1, n);
        lemma_groups_text_step(gs, c + 1);
        lemma_group_wf(gs, n, c);
        lemma_group_flags(gs, n, c);
        lemma_group_start(g);
        let head = groups_text(gs, c + 1);
        assert(text_at(t, i, head)) by {
            assert(t.subrange(i, i + head.len()) =~= formula_text(gs).subrange(0, head.len() as int));
        }
        lemma_text_at_split(t, i, groups_text(gs, c), group_text(g));
        let at = i + groups_text(gs, c).len();
        lemma_text_at_split(t, at, slash_text(g.slash) + body_text(g.body), suffix_text(g.suffix));
        lemma_text_at_split(t, at, slash_text(g.slash), body_text(g.body));
        if c + 1 < n {
            lemma_next_group_start(t, i, gs, c + 1);
        } else {
            assert(head == formula_text(gs));
        }
    } else {
        assert(groups_text(gs, c) == formula_text(gs));
    }
}

/// The text of group `c` stands where the first `c` groups end, and starts
/// as a group does.
proof fn lemma_next_group_start(t: Seq<u8>, i: int, gs: Seq<Group>, c: int)
    requires
        aims_at(t, i, Some(gs)),
        0 <= c < gs.len(),
    ensures
        group_boundary(t, i + groups_text(gs, c).len()),
{
    let n = gs.len() as int;
    let g = gs[c];
    lemma_groups_text_prefix(gs, c + 1, n);
    lemma_groups_text_step(gs, c + 1);
    lemma_group_wf(gs, n, c);
    lemma_group_flags(gs, n, c);
    lemma_group_start(g);
    let head = groups_text(gs, c + 1);
    assert(text_at(t, i, head)) by {
        assert(t.subrange(i, i + head.len()) =~= formula_text(gs).subrange(0, head.len() as int));
    }
    lemma_text_at_split(t, i, groups_text(gs, c), group_text(g));
    let at = i + groups_text(gs, c).len();
    assert(t[at] == group_text(g)[0]);
}

/// The first group has no slash; every element of a well-formed formula is
/// known, and nested formulas are well-formed.
proof fn lemma_group_flags(gs: Seq<Group>, k: int, i: int)
    requires
        groups_wf(gs, k),
        0 <= i < k,
    ensures
        i == 0 ==> !gs[i].slash,
        match gs[i].body {
            Body::Element(e) => e != ElementSymbol::Unknown,
            Body::Nested(inner) => formula_wf(inner@),
        },
    decreases k,
{
    if i < k - 1 {
        lemma_group_flags(gs, k - 1, i);
    }
}

pub open spec fn slash_text(slash: bool) -> Seq<u8> {
    if slash {
        seq![47u8]
    } else {
        seq![]
    }
}

/// The text of a group's content.
pub open spec fn body_text(b: Body) -> Seq<u8> {
    match b {
        Body::Element(e) => symbol_text(e),
        Body::Nested(inner) => seq![40u8] + formula_text(inner@) + seq![41u8],
    }
}

proof fn lemma_split4(t: Seq<u8>, a: int, b: int, c: int, d: int, e: int)
    requires
        0 <= a <= b <= c <= d <= e <= t.len(),
    ensures
        t.subrange(a, e) == t.subrange(a, b) + t.subrange(b, c) + t.subrange(c, d) + t.subrange(
            d,
            e,
        ),
{
    assert(t.subrange(a, e) =~= t.subrange(a, b) + t.subrange(b, c) + t.subrange(c, d)
        + t.subrange(d, e));
}

/// Appending a group appends its text.
proof fn lemma_push_group(gs: Seq<Group>, before: Seq<Group>, g: Group)
    requires
        gs == before.push(g),
    ensures
        formula_text(gs) == formula_text(before) + slash_text(g.slash) + body_text(g.body)
            + suffix_text(g.suffix),
        groups_wf(gs, gs.len() as int) == (groups_wf(before, before.len() as int) && (
        before.len() == 0 ==> !g.slash) && suffix_wf(g.suffix) && match g.body {
            Body::Element(e) => e != ElementSymbol::Unknown,
            Body::Nested(inner) => inner@.len() > 0 && groups_wf(inner@, inner@.len() as int),
        }),
{
    let k = gs.len() as int;
    assert(gs.subrange(0, k - 1) =~= before);
    lemma_groups_prefix(gs, before, k - 1);
    assert(gs[k - 1] == g);
}

/// Text and well-formedness of a prefix do not depend on what follows it.
proof fn lemma_groups_prefix(gs: Seq<Group>, prefix: Seq<Group>, k: int)
    requires
        0 <= k <= prefix.len() <= gs.len(),
        forall|i: int| 0 <= i < prefix.len() ==> gs[i] == prefix[i],
    ensures
        groups_text(gs, k) == groups_text(prefix, k),
        groups_wf(gs, k) == groups_wf(prefix, k),
    decreases k,
{
    if k > 0 {
        lemma_groups_prefix(gs, prefix, k - 1);
    }
}

/// `t` is the text of a well-formed formula.
pub open spec fn in_language(t: Seq<u8>) -> bool {
    exists|gs: Seq<Group>| #[trigger] formula_wf(gs) && formula_text(gs) == t
}

/// The parser of the formula grammar.
pub struct ChemicalFormulaParser {}

impl ChemicalFormulaParser {
    /// The parse tree of `text`; `FileParseError` where the text does not
    /// follow the grammar, `UnknownElement` for a symbol of no element. The
    /// text of every well-formed formula is accepted, unless a number in it
    /// does not fit 64 bits (`ArithmeticOverflow`).
    pub fn parse(text: &str) -> (r: Result<Vec<Group>, FormulaError>)
        ensures
            r matches Err(e) ==> read_error(e),
            r matches Ok(gs) ==> formula_wf(gs@) && formula_text(gs@) == text.spec_bytes(),
            in_language(text.spec_bytes()) ==> (r matches Err(e) ==> e
                == FormulaError::ArithmeticOverflow),
            in_language(text.spec_bytes()) && text_numerals_fit(text.spec_bytes()) ==> r is Ok,
    {
        let bytes = text.as_bytes();
        let ghost target: Option<Seq<Group>> = if in_language(text.spec_bytes()) {
            Some(choose|gs: Seq<Group>| #[trigger] formula_wf(gs) && formula_text(gs) == text.spec_bytes())
        } else {
            None
        };
        proof {
            if in_language(text.spec_bytes()) {
                let gs = target->0;
                assert(bytes@.subrange(0, formula_text(gs).len() as int) =~= bytes@);
            }
        }
        let (groups, end) = parse_groups(bytes, 0, Ghost(target))?;
        if end != bytes.len() {
            return Err(FormulaError::FileParseError);
        }
        proof {
            assert(bytes@.subrange(0, end as int) =~= bytes@);
        }
        Ok(groups)
    }
}

/// No entry in any slot.
pub open spec fn none_slots() -> Slots {
    Seq::new(ELEMENT_SLOTS as nat, |i: int| None::<Frac>)
}

/// The parts that one element with suffix `s` stands for: a molar amount
/// of 1 or of the multiplier, or a mass fraction of the given percent.
pub open spec fn element_parts(e: ElementSymbol, s: Suffix, m: Slots, w: Slots) -> bool {
    match s {
        Suffix::Plain => same_amounts(m, add_to_slot(none_slots(), e.index(), whole(1))) && w
            == none_slots(),
        Suffix::Count(n) => same_amounts(m, add_to_slot(none_slots(), e.index(), n.value@)) && w
            == none_slots(),
        Suffix::Percent(n) => m == none_slots() && same_amounts(
            w,
            add_to_slot(none_slots(), e.index(), n.value@),
        ),
    }
}

/// The parts that a nested formula with parts `mi` and `wi` stands for
/// under suffix `s`: the same parts; every amount times the multiplier; or
/// the formula in molar form as mass parts worth the percent in all.
pub open spec fn nested_parts(mi: Slots, wi: Slots, s: Suffix, m: Slots, w: Slots) -> bool {
    match s {
        Suffix::Plain => same_amounts(m, mi) && same_amounts(w, wi),
        Suffix::Count(n) => same_amounts(m, scaled(mi, n.value@)) && same_amounts(
            w,
            scaled(wi, n.value@),
        ),
        Suffix::Percent(n) => weigh_error(mi, wi) is None && m == none_slots() && same_amounts(
            w,
            mass_share(mi, wi, n.value@),
        ),
    }
}

/// `m` and `w` are the molar and mass parts that the first `k` groups stand
/// for: the entry-wise sum of the parts of each group. The parts are unique
/// up to equal amounts (see [`lemma_builds_unique`]).
pub open spec fn builds(gs: Seq<Group>, k: int, m: Slots, w: Slots) -> bool
    decreases gs, k,
{
    if k <= 0 || k > gs.len() {
        k == 0 && m == none_slots() && w == none_slots()
    } else {
        valid_slots(m) && valid_slots(w) && exists|m0: Slots, w0: Slots, m1: Slots, w1: Slots|
            #![trigger merged(m0, m1), merged(w0, w1)]
            builds(gs, k - 1, m0, w0) && valid_slots(m1) && valid_slots(w1) && same_amounts(
                m,
                merged(m0, m1),
            ) && same_amounts(w, merged(w0, w1)) && match gs[k - 1].body {
                Body::Element(e) => element_parts(e, gs[k - 1].suffix, m1, w1),
                Body::Nested(inner) => exists|mi: Slots, wi: Slots|
                    #![trigger nested_parts(mi, wi, gs[k - 1].suffix, m1, w1)]
                    builds(inner@, inner@.len() as int, mi, wi) && nested_parts(
                        mi,
                        wi,
                        gs[k - 1].suffix,
                        m1,
                        w1,
                    ),
            }
    }
}

/// Building one of the first `k` groups fails with `e`: a nested formula
/// fails, or the formula under a percent suffix cannot be weighed.
pub open spec fn fails(gs: Seq<Group>, k: int, e: FormulaError) -> bool
    decreases gs, k,
{
    if k <= 0 || k > gs.len() {
        false
    } else {
        fails(gs, k - 1, e) || match gs[k - 1].body {
            Body::Element(_) => false,
            Body::Nested(inner) => fails(inner@, inner@.len() as int, e) || (
            gs[k - 1].suffix is Percent && exists|mi: Slots, wi: Slots|
                #![trigger weigh_error(mi, wi)]
                builds(inner@, inner@.len() as int, mi, wi) && weigh_error(mi, wi) == Some(e)),
        }
    }
}

/// Group `k - 1` stands for the parts `m1` and `w1`.
pub open spec fn group_parts(gs: Seq<Group>, k: int, m1: Slots, w1: Slots) -> bool {
    match gs[k - 1].body {
        Body::Element(e) => element_parts(e, gs[k - 1].suffix, m1, w1),
        Body::Nested(inner) => exists|mi: Slots, wi: Slots|
            #![trigger nested_parts(mi, wi, gs[k - 1].suffix, m1, w1)]
            builds(inner@, inner@.len() as int, mi, wi) && nested_parts(
                mi,
                wi,
                gs[k - 1].suffix,
                m1,
                w1,
            ),
    }
}

proof fn lemma_builds_step(
    gs: Seq<Group>,
    k: int,
    m0: Slots,
    w0: Slots,
    m1: Slots,
    w1: Slots,
    m: Slots,
    w: Slots,
)
    requires
        0 < k <= gs.len(),
        builds(gs, k - 1, m0, w0),
        valid_slots(m1),
        valid_slots(w1),
        valid_slots(m),
        valid_slots(w),
        same_amounts(m, merged(m0, m1)),
        same_amounts(w, merged(w0, w1)),
        group_parts(gs, k, m1, w1),
    ensures
        builds(gs, k, m, w),
{
    match gs[k - 1].body {
        Body::Element(e) => {},
        Body::Nested(inner) => {
            let (mi, wi) = choose|mi: Slots, wi: Slots|
                #![trigger nested_parts(mi, wi, gs[k - 1].suffix, m1, w1)]
                builds(inner@, inner@.len() as int, mi, wi) && nested_parts(
                    mi,
                    wi,
                    gs[k - 1].suffix,
                    m1,
                    w1,
                );
            assert(builds(inner@, inner@.len() as int, mi, wi));
        },
    }
}

/// The parts that a formula stands for are valid, one slot per element.
proof fn lemma_builds_valid(gs: Seq<Group>, k: int, m: Slots, w: Slots)
    requires
        builds(gs, k, m, w),
    ensures
        valid_slots(m),
        valid_slots(w),
        m.len() == ELEMENT_SLOTS,
        w.len() == ELEMENT_SLOTS,
    decreases k,
{
    if k > 0 && k <= gs.len() {
        let (m0, w0, m1, w1) = choose|m0: Slots, w0: Slots, m1: Slots, w1: Slots|
            #![trigger merged(m0, m1), merged(w0, w1)]
            builds(gs, k - 1, m0, w0) && valid_slots(m1) && valid_slots(w1) && same_amounts(
                m,
                merged(m0, m1),
            ) && same_amounts(w, merged(w0, w1)) && match gs[k - 1].body {
                Body::Element(e) => element_parts(e, gs[k - 1].suffix, m1, w1),
                Body::Nested(inner) => exists|mi: Slots, wi: Slots|
                    #![trigger nested_parts(mi, wi, gs[k - 1].suffix, m1, w1)]
                    builds(inner@, inner@.len() as int, mi, wi) && nested_parts(
                        mi,
                        wi,
                        gs[k - 1].suffix,
                        m1,
                        w1,
                    ),
            };
        lemma_builds_valid(gs, k - 1, m0, w0);
    }
}

proof fn lemma_none_slots_valid(i: int, v: Frac)
    requires
        0 <= i < ELEMENT_SLOTS,
        v.valid(),
    ensures
        valid_slots(none_slots()),
        valid_slots(add_to_slot(none_slots(), i, v)),
{
    let a = add_to_slot(none_slots(), i, v);
    assert forall|j: int| 0 <= j < a.len() implies crate::formula::valid_slot(#[trigger] a[j]) by {
        if j == i {
            assert(none_slots()[i] is None);
            assert(a[j] == Some(v));
        } else {
            assert(a[j] == none_slots()[j]);
        }
    }
}

/// `a` and `d` are equal where each equals one of two equal valid slots.
proof fn lemma_equal_through(a: Slots, b: Slots, c: Slots, d: Slots)
    requires
        same_amounts(a, b),
        same_amounts(b, c),
        same_amounts(d, c),
        valid_slots(b),
        valid_slots(c),
    ensures
        same_amounts(a, d),
{
    lemma_same_amounts_trans(a, b, c);
    lemma_same_amounts_symm(d, c);
    lemma_same_amounts_trans(a, c, d);
}

/// A formula stands for one composition: any two pairs of parts that the
/// first `k` groups stand for hold equal amounts in the same slots.
pub proof fn lemma_builds_unique(gs: Seq<Group>, k: int, m: Slots, w: Slots, m2: Slots, w2: Slots)
    requires
        groups_wf(gs, k),
        builds(gs, k, m, w),
        builds(gs, k, m2, w2),
    ensures
        same_amounts(m, m2),
        same_amounts(w, w2),
    decreases gs, k,
{
    if k <= 0 || k > gs.len() {
        lemma_same_amounts_refl(m);
        lemma_same_amounts_refl(w);
    } else {
        let g = gs[k - 1];
        let (m0, w0, m1, w1) = choose|m0: Slots, w0: Slots, m1: Slots, w1: Slots|
            #![trigger merged(m0, m1), merged(w0, w1)]
            builds(gs, k - 1, m0, w0) && valid_slots(m1) && valid_slots(w1) && same_amounts(
                m,
                merged(m0, m1),
            ) && same_amounts(w, merged(w0, w1)) && match gs[k - 1].body {
                Body::Element(e) => element_parts(e, gs[k - 1].suffix, m1, w1),
                Body::Nested(inner) => exists|mi: Slots, wi: Slots|
                    #![trigger nested_parts(mi, wi, gs[k - 1].suffix, m1, w1)]
                    builds(inner@, inner@.len() as int, mi, wi) && nested_parts(
                        mi,
                        wi,
                        gs[k - 1].suffix,
                        m1,
                        w1,
                    ),
            };
        let (n0, v0, n1, v1) = choose|m0: Slots, w0: Slots, m1: Slots, w1: Slots|
            #![trigger merged(m0, m1), merged(w0, w1)]
            builds(gs, k - 1, m0, w0) && valid_slots(m1) && valid_slots(w1) && same_amounts(
                m2,
                merged(m0, m1),
            ) && same_amounts(w2, merged(w0, w1)) && match gs[k - 1].body {
                Body::Element(e) => element_parts(e, gs[k - 1].suffix, m1, w1),
                Body::Nested(inner) => exists|mi: Slots, wi: Slots|
                    #![trigger nested_parts(mi, wi, gs[k - 1].suffix, m1, w1)]
                    builds(inner@, inner@.len() as int, mi, wi) && nested_parts(
                        mi,
                        wi,
                        gs[k - 1].suffix,
                        m1,
                        w1,
                    ),
            };
        lemma_group_wf(gs, k, k - 1);
        lemma_builds_unique(gs, k - 1, m0, w0, n0, v0);
        lemma_builds_valid(gs, k - 1, m0, w0);
        lemma_builds_valid(gs, k - 1, n0, v0);
        match g.body {
            Body::Element(e) => {
                e.lemma_index();
                let target = match g.suffix {
                    Suffix::Plain => add_to_slot(none_slots(), e.index(), whole(1)),
                    Suffix::Count(n) => add_to_slot(none_slots(), e.index(), n.value@),
                    Suffix::Percent(n) => add_to_slot(none_slots(), e.index(), n.value@),
                };
                match g.suffix {
                    Suffix::Plain => lemma_none_slots_valid(e.index(), whole(1)),
                    Suffix::Count(n) => lemma_none_slots_valid(e.index(), n.value@),
                    Suffix::Percent(n) => lemma_none_slots_valid(e.index(), n.value@),
                }
                if g.suffix is Percent {
                    lemma_same_amounts_refl(m1);
                    lemma_equal_through(w1, target, target, v1);
                    lemma_same_amounts_refl(target);
                } else {
                    lemma_same_amounts_refl(w1);
                    lemma_same_amounts_refl(target);
                    lemma_equal_through(m1, target, target, n1);
                }
            },
            Body::Nested(inner) => {
                let (mi, wi) = choose|mi: Slots, wi: Slots|
                    #![trigger nested_parts(mi, wi, gs[k - 1].suffix, m1, w1)]
                    builds(inner@, inner@.len() as int, mi, wi) && nested_parts(
                        mi,
                        wi,
                        gs[k - 1].suffix,
                        m1,
                        w1,
                    );
                let (ni, vi) = choose|mi: Slots, wi: Slots|
                    #![trigger nested_parts(mi, wi, gs[k - 1].suffix, n1, v1)]
                    builds(inner@, inner@.len() as int, mi, wi) && nested_parts(
                        mi,
                        wi,
                        gs[k - 1].suffix,
                        n1,
                        v1,
                    );
                lemma_builds_unique(inner@, inner@.len() as int, mi, wi, ni, vi);
                lemma_builds_valid(inner@, inner@.len() as int, mi, wi);
                lemma_builds_valid(inner@, inner@.len() as int, ni, vi);
                match g.suffix {
                    Suffix::Plain => {
                        lemma_equal_through(m1, mi, ni, n1);
                        lemma_equal_through(w1, wi, vi, v1);
                    },
                    Suffix::Count(n) => {
                        let c = n.value@;
                        lemma_scaled_congruent(mi, ni, c, c);
                        lemma_scaled_congruent(wi, vi, c, c);
                        lemma_scaled_valid(mi, c);
                        lemma_scaled_valid(ni, c);
                        lemma_scaled_valid(wi, c);
                        lemma_scaled_valid(vi, c);
                        lemma_equal_through(m1, scaled(mi, c), scaled(ni, c), n1);
                        lemma_equal_through(w1, scaled(wi, c), scaled(vi, c), v1);
                    },
                    Suffix::Percent(n) => {
                        let c = n.value@;
                        lemma_same_amounts_refl(m1);
                        lemma_mass_share_congruent(mi, wi, ni, vi, c);
                        lemma_mass_share_valid(mi, wi, c);
                        lemma_mass_share_valid(ni, vi, c);
                        lemma_equal_through(w1, mass_share(mi, wi, c), mass_share(ni, vi, c), v1);
                    },
                }
            },
        }
        lemma_merged_congruent(m0, m1, n0, n1);
        lemma_merged_congruent(w0, w1, v0, v1);
        lemma_merged_valid(m0, m1);
        lemma_merged_valid(n0, n1);
        lemma_merged_valid(w0, w1);
        lemma_merged_valid(v0, v1);
        lemma_equal_through(m, merged(m0, m1), merged(n0, n1), m2);
        lemma_equal_through(w, merged(w0, w1), merged(v0, v1), w2);
    }
}

proof fn lemma_fails_grows(gs: Seq<Group>, k: int, j: int, e: FormulaError)
    requires
        0 <= k <= j <= gs.len(),
        fails(gs, k, e),
    ensures
        fails(gs, j, e),
    decreases j - k,
{
    if k < j {
        lemma_fails_grows(gs, k, j - 1, e);
    }
}

proof fn lemma_group_wf(gs: Seq<Group>, k: int, i: int)
    requires
        groups_wf(gs, k),
        0 <= i < k,
    ensures
        suffix_wf(gs[i].suffix),
        gs[i].body matches Body::Nested(inner) ==> groups_wf(inner@, inner@.len() as int),
    decreases k,
{
    if i < k - 1 {
        lemma_group_wf(gs, k - 1, i);
    }
}

proof fn lemma_new_is_none(f: ChemicalFormula)
    requires
        f.wf(),
        no_entries(f.molar()),
        no_entries(f.mass()),
    ensures
        f.molar() == none_slots(),
        f.mass() == none_slots(),
{
    assert(f.molar() =~= none_slots());
    assert(f.mass() =~= none_slots());
}

/// Every value that applying suffix `s` to the parts `mi`, `wi` of a nested
/// formula computes fits in 64 bits, up to the error it ends in if any.
pub open spec fn suffix_step_fits(mi: Slots, wi: Slots, s: Suffix) -> bool {
    match s {
        Suffix::Plain => true,
        Suffix::Count(n) => scale_fits(mi, n.value@) && scale_fits(wi, n.value@),
        Suffix::Percent(n) => if weigh_error(mi, wi) is Some {
            error_fits(mi, wi)
        } else {
            share_fits(mi, wi, n.value@)
        },
    }
}

/// Every value that building the first `k` groups computes fits in 64
/// bits: each group's parts, and their sums with the groups before it.
pub open spec fn build_fits(gs: Seq<Group>, k: int) -> bool
    decreases gs, k,
{
    if k <= 0 || k > gs.len() {
        true
    } else {
        &&& build_fits(gs, k - 1)
        &&& forall|m0: Slots, w0: Slots, m1: Slots, w1: Slots|
            #![trigger builds(gs, k - 1, m0, w0), group_parts(gs, k, m1, w1)]
            builds(gs, k - 1, m0, w0) && group_parts(gs, k, m1, w1) ==> merge_fits(m0, m1)
                && merge_fits(w0, w1)
        &&& match gs[k - 1].body {
            Body::Element(_) => true,
            Body::Nested(inner) => build_fits(inner@, inner@.len() as int) && forall|
                mi: Slots,
                wi: Slots,
            |
                #![trigger builds(inner@, inner@.len() as int, mi, wi)]
                builds(inner@, inner@.len() as int, mi, wi) ==> suffix_step_fits(
                    mi,
                    wi,
                    gs[k - 1].suffix,
                ),
        }
    }
}

proof fn lemma_build_fits_prefix(gs: Seq<Group>, n: int, k: int)
    requires
        build_fits(gs, n),
        0 <= k <= n <= gs.len(),
    ensures
        build_fits(gs, k),
    decreases n,
{
    if k < n {
        lemma_build_fits_prefix(gs, n - 1, k);
    }
}

fn element_part(e: ElementSymbol, s: &Suffix) -> (r: Result<ChemicalFormula, FormulaError>)
    requires
        suffix_wf(*s),
    ensures
        r matches Ok(f) ==> f.wf() && element_parts(e, *s, f.molar(), f.mass()),
        r is Ok,
{
    let mut f = ChemicalFormula::new();
    proof {
        lemma_new_is_none(f);
        e.lemma_index();
    }
    match s {
        Suffix::Plain => {
            f.add_element(e, Rational::from_integer(1))?;
        },
        Suffix::Count(n) => {
            f.add_element(e, n.value)?;
        },
        Suffix::Percent(n) => {
            f.add_wt_percent(e, n.value)?;
        },
    }
    Ok(f)
}

fn nested_part(f: ChemicalFormula, s: &Suffix) -> (r: Result<ChemicalFormula, FormulaError>)
    requires
        f.wf(),
        suffix_wf(*s),
    ensures
        r matches Ok(g) ==> g.wf() && nested_parts(f.molar(), f.mass(), *s, g.molar(), g.mass()),
        r matches Err(x) ==> x == FormulaError::ArithmeticOverflow || (s is Percent && weigh_error(
            f.molar(),
            f.mass(),
        ) == Some(x)),
        (s is Percent ==> weigh_error(f.molar(), f.mass()) is None) && suffix_step_fits(
            f.molar(),
            f.mass(),
            *s,
        ) ==> r is Ok,
        suffix_step_fits(f.molar(), f.mass(), *s) ==> (r matches Err(x) ==> x
            != FormulaError::ArithmeticOverflow),
{
    let mut g = f;
    match s {
        Suffix::Plain => {
            proof {
                lemma_same_amounts_refl(f.molar());
                lemma_same_amounts_refl(f.mass());
            }
        },
        Suffix::Count(n) => {
            g.multiply(n.value)?;
        },
        Suffix::Percent(n) => {
            g.multiply_wt_percent(n.value)?;
            proof {
                lemma_new_is_none_molar(g);
            }
        },
    }
    Ok(g)
}

proof fn lemma_new_is_none_molar(f: ChemicalFormula)
    requires
        f.wf(),
        no_entries(f.molar()),
    ensures
        f.molar() == none_slots(),
{
    assert(f.molar() =~= none_slots());
}

/// Folds a parse tree into a composition: each group stands for its parts
/// (see [`builds`]), and the parts of sibling groups are added up.
pub fn build_formula(groups: &Vec<Group>) -> (r: Result<ChemicalFormula, FormulaError>)
    requires
        groups_wf(groups@, groups@.len() as int),
    ensures
        r matches Ok(f) ==> f.wf() && builds(groups@, groups@.len() as int, f.molar(), f.mass()),
        r matches Err(e) ==> e == FormulaError::ArithmeticOverflow || fails(
            groups@,
            groups@.len() as int,
            e,
        ),
        build_fits(groups@, groups@.len() as int) && (forall|e: FormulaError|
            !#[trigger] fails(groups@, groups@.len() as int, e)) ==> r is Ok,
        build_fits(groups@, groups@.len() as int) ==> (r matches Err(e) ==> e
            != FormulaError::ArithmeticOverflow),
    decreases groups,
{
    let ghost n = groups@.len() as int;
    let ghost fitted = build_fits(groups@, n) && (forall|e: FormulaError|
        !#[trigger] fails(groups@, n, e));
    let mut acc = ChemicalFormula::new();
    proof {
        lemma_new_is_none(acc);
    }
    let mut i: usize = 0;
    while i < groups.len()
        invariant
            i <= groups@.len(),
            groups_wf(groups@, groups@.len() as int),
            acc.wf(),
            builds(groups@, i as int, acc.molar(), acc.mass()),
            n == groups@.len(),
            fitted == (build_fits(groups@, n) && (forall|e: FormulaError|
                !#[trigger] fails(groups@, n, e))),
        decreases groups@.len() - i,
    {
        let g = &groups[i];
        proof {
            lemma_group_wf(groups@, groups@.len() as int, i as int);
            if build_fits(groups@, n) {
                lemma_build_fits_prefix(groups@, n, i + 1);
            }
            if fitted {
                lemma_build_fits_prefix(groups@, n, i + 1);
                assert forall|e: FormulaError| !#[trigger] fails(groups@, i + 1, e) by {
                    if fails(groups@, i + 1, e) {
                        lemma_fails_grows(groups@, i + 1, n, e);
                    }
                }
            }
        }
        let part = match &g.body {
            Body::Element(e) => {
                let p = element_part(*e, &g.suffix)?;
                proof {
                    assert(group_parts(groups@, i + 1, p.molar(), p.mass()));
                }
                p
            },
            Body::Nested(inner) => {
                proof {
                    if fitted {
                        assert forall|e: FormulaError| !#[trigger] fails(inner@, inner@.len() as int, e) by {
                            assert(!fails(groups@, i + 1, e));
                        }
                    }
                }
                let f = match build_formula(inner) {
                    Ok(f) => f,
                    Err(e) => {
                        proof {
                            if e != FormulaError::ArithmeticOverflow {
                                assert(fails(groups@, i + 1, e));
                                lemma_fails_grows(groups@, i + 1, groups@.len() as int, e);
                            }
                        }
                        return Err(e);
                    },
                };
                proof {
                    if build_fits(groups@, n) {
                        assert(builds(inner@, inner@.len() as int, f.molar(), f.mass()));
                        assert(suffix_step_fits(f.molar(), f.mass(), g.suffix));
                    }
                    if fitted {
                        assert(builds(inner@, inner@.len() as int, f.molar(), f.mass()));
                        if g.suffix is Percent && weigh_error(f.molar(), f.mass()) is Some {
                            let e = weigh_error(f.molar(), f.mass())->0;
                            assert(fails(groups@, i + 1, e));
                        }
                    }
                }
                match nested_part(f, &g.suffix) {
                    Ok(p) => {
                        proof {
                            assert(builds(inner@, inner@.len() as int, f.molar(), f.mass()));
                            assert(exists|mi: Slots, wi: Slots|
                                #![trigger nested_parts(mi, wi, groups@[i as int].suffix, p.molar(), p.mass())]
                                builds(inner@, inner@.len() as int, mi, wi) && nested_parts(
                                    mi,
                                    wi,
                                    groups@[i as int].suffix,
                                    p.molar(),
                                    p.mass(),
                                ));
                            assert(group_parts(groups@, i + 1, p.molar(), p.mass()));
                        }
                        p
                    },
                    Err(e) => {
                        proof {
                            if e != FormulaError::ArithmeticOverflow {
                                assert(builds(inner@, inner@.len() as int, f.molar(), f.mass()));
                                assert(fails(groups@, i + 1, e));
                                lemma_fails_grows(groups@, i + 1, groups@.len() as int, e);
                            }
                        }
                        return Err(e);
                    },
                }
            },
        };
        let ghost m0 = acc.molar();
        let ghost w0 = acc.mass();
        proof {
            if build_fits(groups@, n) {
                assert(group_parts(groups@, i + 1, part.molar(), part.mass()));
                assert(builds(groups@, i + 1 - 1, m0, w0));
                assert(merge_fits(m0, part.molar()) && merge_fits(w0, part.mass()));
            }
        }
        acc.add_formula(&part)?;
        proof {
            assert(builds(groups@, i as int, m0, w0));
            assert(same_amounts(acc.molar(), merged(m0, part.molar())));
            assert(same_amounts(acc.mass(), merged(w0, part.mass())));
            lemma_builds_step(
                groups@,
                i + 1,
                m0,
                w0,
                part.molar(),
                part.mass(),
                acc.molar(),
                acc.mass(),
            );
        }
        i = i + 1;
    }
    Ok(acc)
}

/// Every formula that `t` is the text of has numbers that fit in 64 bits,
/// builds without an error of its own, and computes only values that fit.
pub open spec fn text_builds(t: Seq<u8>) -> bool {
    forall|gs: Seq<Group>|
        #[trigger] formula_wf(gs) && formula_text(gs) == t ==> numerals_fit(gs, gs.len() as int)
            && build_fits(gs, gs.len() as int) && forall|e: FormulaError|
            !#[trigger] fails(gs, gs.len() as int, e)
}

/// Every formula that `t` is the text of has numbers that fit in 64 bits
/// and computes only values that fit, up to the error it ends in if any.
pub open spec fn text_fits(t: Seq<u8>) -> bool {
    forall|gs: Seq<Group>|
        #[trigger] formula_wf(gs) && formula_text(gs) == t ==> numerals_fit(gs, gs.len() as int)
            && build_fits(gs, gs.len() as int)
}

/// Parses `s` and builds the composition it describes.
pub fn parse_formula(s: &str) -> (r: Result<ChemicalFormula, FormulaError>)
    ensures
        r matches Ok(f) ==> f.wf() && exists|gs: Seq<Group>|
            #![trigger formula_text(gs)]
            formula_wf(gs) && formula_text(gs) == s.spec_bytes() && builds(
                gs,
                gs.len() as int,
                f.molar(),
                f.mass(),
            ),
        r matches Err(e) ==> e == FormulaError::ArithmeticOverflow || (!in_language(
            s.spec_bytes(),
        ) && (e == FormulaError::FileParseError || e == FormulaError::UnknownElement)) || exists|
            gs: Seq<Group>,
        |
            #![trigger formula_text(gs)]
            formula_wf(gs) && formula_text(gs) == s.spec_bytes() && fails(gs, gs.len() as int, e),
        in_language(s.spec_bytes()) && text_builds(s.spec_bytes()) ==> r is Ok,
        in_language(s.spec_bytes()) && text_fits(s.spec_bytes()) ==> (r matches Err(e) ==> e
            != FormulaError::ArithmeticOverflow),
{
    proof {
        if in_language(s.spec_bytes()) && text_builds(s.spec_bytes()) {
            assert(text_numerals_fit(s.spec_bytes()));
        }
    }
    proof {
        if in_language(s.spec_bytes()) && text_fits(s.spec_bytes()) {
            assert forall|gs: Seq<Group>| #[trigger] formula_wf(gs) && formula_text(gs)
                == s.spec_bytes() implies numerals_fit(gs, gs.len() as int) by {}
        }
    }
    let groups = ChemicalFormulaParser::parse(s)?;
    proof {
        if text_builds(s.spec_bytes()) || text_fits(s.spec_bytes()) {
            assert(formula_wf(groups@) && formula_text(groups@) == s.spec_bytes());
        }
    }
    let r = build_formula(&groups);
    proof {
        assert(formula_text(groups@) == s.spec_bytes());
    }
    r
}

} // verus!

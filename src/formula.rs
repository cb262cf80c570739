//! The composition of a material: molar amounts and mass fractions per
//! element, and the exact conversions between them.
//!
//! A composition keeps one slot per atomic number for each of its two maps.
//! An empty slot is an absent entry; a present entry may be zero. Contracts
//! speak of the two maps as sequences of optional fractions, [`Slots`], and
//! compare amounts as numbers ([`Frac::eqv`]): the library keeps every
//! fraction in lowest terms, the model does not.
use crate::element::{weight_at, ElementSymbol, FormulaError, ELEMENT_SLOTS};
use crate::rational::{
    fits, lemma_fits_eqv, lemma_compare_congruent, lemma_eqv_refl, lemma_eqv_symm, lemma_eqv_trans, lemma_ops_congruent,
    lemma_valid_ops, whole, Frac, Rational,
};
use vstd::prelude::*;

verus! {

/// One optional amount per atomic number.
pub type Slots = Seq<Option<Frac>>;

pub open spec fn slot_view(o: Option<Rational>) -> Option<Frac> {
    match o {
        Some(r) => Some(r@),
        None => None,
    }
}

pub open spec fn slots_view(v: Seq<Option<Rational>>) -> Slots {
    Seq::new(v.len(), |i: int| slot_view(v[i]))
}

pub open spec fn valid_slot(o: Option<Frac>) -> bool {
    match o {
        Some(x) => x.valid(),
        None => true,
    }
}

pub open spec fn valid_slots(a: Slots) -> bool {
    forall|i: int| 0 <= i < a.len() ==> valid_slot(#[trigger] a[i])
}

/// Both absent, or both present and equal as numbers.
pub open spec fn same_slot(a: Option<Frac>, b: Option<Frac>) -> bool {
    match (a, b) {
        (None, None) => true,
        (Some(x), Some(y)) => x.eqv(y),
        _ => false,
    }
}

/// The same entries, with equal amounts.
pub open spec fn same_amounts(a: Slots, b: Slots) -> bool {
    a.len() == b.len() && forall|i: int| 0 <= i < a.len() ==> same_slot(#[trigger] a[i], b[i])
}

pub open spec fn no_entries(a: Slots) -> bool {
    forall|i: int| 0 <= i < a.len() ==> (#[trigger] a[i]) is None
}

/// An entry's amount, zero where it is absent.
pub open spec fn amount_or_zero(o: Option<Frac>) -> Frac {
    match o {
        Some(x) => x,
        None => whole(0),
    }
}

/// The sum of the entries in the first `k` slots.
pub open spec fn total_upto(a: Slots, k: int) -> Frac
    decreases k,
{
    if k <= 0 {
        whole(0)
    } else {
        total_upto(a, k - 1).plus(amount_or_zero(a[k - 1]))
    }
}

/// The sum of all entries.
pub open spec fn total(a: Slots) -> Frac {
    total_upto(a, a.len() as int)
}

/// The sum of amount times atomic weight over the first `k` slots.
pub open spec fn weight_upto(a: Slots, k: int) -> Frac
    decreases k,
{
    if k <= 0 {
        whole(0)
    } else {
        weight_upto(a, k - 1).plus(amount_or_zero(a[k - 1]).times(weight_at(k - 1)))
    }
}

/// The molecular weight of molar amounts: the sum of amount times atomic
/// weight.
pub open spec fn molecular_weight_of(a: Slots) -> Frac {
    weight_upto(a, a.len() as int)
}

pub open spec fn merge_slot(a: Option<Frac>, b: Option<Frac>) -> Option<Frac> {
    match (a, b) {
        (None, _) => b,
        (_, None) => a,
        (Some(x), Some(y)) => Some(x.plus(y)),
    }
}

/// The entry-wise sum: an entry present in either is present in the result.
pub open spec fn merged(a: Slots, b: Slots) -> Slots {
    Seq::new(a.len(), |i: int| merge_slot(a[i], b[i]))
}

pub open spec fn scale_slot(o: Option<Frac>, k: Frac) -> Option<Frac> {
    match o {
        Some(x) => Some(x.times(k)),
        None => None,
    }
}

/// Every entry multiplied by `k`.
pub open spec fn scaled(a: Slots, k: Frac) -> Slots {
    Seq::new(a.len(), |i: int| scale_slot(a[i], k))
}

pub open spec fn add_to_slot(a: Slots, i: int, x: Frac) -> Slots {
    a.update(i, merge_slot(a[i], Some(x)))
}

/// Mass fractions that add up to more than 100 percent.
pub open spec fn mass_overflows(w: Slots) -> bool {
    whole(100).below(total(w))
}

/// The percent of the mass left to the molar part.
pub open spec fn residue_of(w: Slots) -> Frac {
    whole(100).minus(total(w))
}

/// The weight that a missing molar part is taken to have, in mass units,
/// when mass fractions are converted to molar amounts.
pub const DEFAULT_ANCHOR_WEIGHT: u64 = 100;

/// The weight that fixes the scale of a conversion to molar amounts: the
/// molecular weight of the molar part, or [`DEFAULT_ANCHOR_WEIGHT`] where
/// there is none.
pub open spec fn anchor_weight(m: Slots) -> Frac {
    if no_entries(m) {
        whole(DEFAULT_ANCHOR_WEIGHT as int)
    } else {
        molecular_weight_of(m)
    }
}

/// The molar amount that a mass fraction `f` of the element in slot `i`
/// stands for, when the molar part `m` makes up the residue.
///
/// With `wt_over_mw` the sum of fraction over atomic weight, the total
/// molecular weight is `anchor * wt_over_mw / residue`, and the amount is
/// that times `f / weight / wt_over_mw`; the factor `wt_over_mw` cancels.
pub open spec fn mass_to_molar(m: Slots, w: Slots, i: int, f: Frac) -> Frac {
    anchor_weight(m).times(f).over(weight_at(i).times(residue_of(w)))
}

pub open spec fn converted_slot(m: Slots, w: Slots, i: int) -> Option<Frac> {
    match w[i] {
        Some(f) => merge_slot(m[i], Some(mass_to_molar(m, w, i, f))),
        None => m[i],
    }
}

/// The error of the conversion to molar amounts, if any.
pub open spec fn molar_error(m: Slots, w: Slots) -> Option<FormulaError> {
    if no_entries(w) {
        None
    } else if mass_overflows(w) {
        Some(FormulaError::WeightPercentOverflow)
    } else if total(w).eqv(whole(100)) || w[0] is Some {
        Some(FormulaError::IndeterminateScale)
    } else {
        None
    }
}

/// The molar amounts of the composition with molar part `m` and mass part
/// `w`: `m` itself where there are no mass fractions; otherwise each mass
/// fraction is turned into a molar amount and added to that element's.
pub open spec fn molar_form(m: Slots, w: Slots) -> Slots {
    if no_entries(w) {
        m
    } else {
        Seq::new(m.len(), |i: int| converted_slot(m, w, i))
    }
}

/// The molecular weight of the composition.
pub open spec fn formula_weight(m: Slots, w: Slots) -> Frac {
    molecular_weight_of(molar_form(m, w))
}

/// The error of a conversion that divides by the molecular weight, if any.
pub open spec fn weigh_error(m: Slots, w: Slots) -> Option<FormulaError> {
    if molar_error(m, w) is Some {
        molar_error(m, w)
    } else if formula_weight(m, w).is_zero() {
        Some(FormulaError::IndeterminateScale)
    } else {
        None
    }
}

pub open spec fn mass_slot(o: Option<Frac>, i: int, mw: Frac, k: Frac) -> Option<Frac> {
    match o {
        Some(x) => Some(x.times(weight_at(i)).over(mw).times(k)),
        None => None,
    }
}

/// Each molar amount as its share of the molecular weight `mw`, times `k`.
pub open spec fn mass_entries(c: Slots, mw: Frac, k: Frac) -> Slots {
    Seq::new(c.len(), |i: int| mass_slot(c[i], i, mw, k))
}

/// The composition as mass parts worth `k` in all: every element's share
/// of the molecular weight, times `k`.
pub open spec fn mass_share(m: Slots, w: Slots, k: Frac) -> Slots {
    mass_entries(molar_form(m, w), formula_weight(m, w), k)
}

/// The error of [`ChemicalFormula::to_wt`], if any.
pub open spec fn wt_error(m: Slots, w: Slots) -> Option<FormulaError> {
    if no_entries(m) {
        None
    } else {
        weigh_error(m, w)
    }
}

/// The mass fractions of [`ChemicalFormula::to_wt`]: those of `w` where
/// there is no molar part, else every element's share of the molecular
/// weight, in percent.
pub open spec fn wt_form(m: Slots, w: Slots) -> Slots {
    if no_entries(m) {
        w
    } else {
        mass_share(m, w, whole(100))
    }
}

/// Entries scaled so that they add up to 100; unchanged where there are
/// none.
pub open spec fn normalized(a: Slots) -> Slots {
    if no_entries(a) {
        a
    } else {
        scaled(a, whole(100).over(total(a)))
    }
}

/// Entries that cannot be normalized: present, and adding up to zero.
pub open spec fn zero_total(a: Slots) -> bool {
    !no_entries(a) && total(a).is_zero()
}

/// The error of [`ChemicalFormula::to_wt_percent`], if any.
pub open spec fn wt_percent_error(m: Slots, w: Slots) -> Option<FormulaError> {
    if wt_error(m, w) is Some {
        wt_error(m, w)
    } else if zero_total(wt_form(m, w)) {
        Some(FormulaError::IndeterminateScale)
    } else {
        None
    }
}

/// The error of [`ChemicalFormula::to_mol_percent`], if any.
pub open spec fn mol_percent_error(m: Slots, w: Slots) -> Option<FormulaError> {
    if molar_error(m, w) is Some {
        molar_error(m, w)
    } else if zero_total(molar_form(m, w)) {
        Some(FormulaError::IndeterminateScale)
    } else {
        None
    }
}

/// Every partial sum of the entries fits in 64 bits.
pub open spec fn sums_fit(a: Slots) -> bool {
    forall|k: int| 0 < k <= a.len() ==> fits(#[trigger] total_upto(a, k))
}

/// Every term and every partial sum of the molecular weight fits.
pub open spec fn weights_fit(a: Slots) -> bool {
    forall|k: int|
        0 < k <= a.len() ==> fits(#[trigger] weight_upto(a, k)) && fits(
            amount_or_zero(a[k - 1]).times(weight_at(k - 1)),
        )
}

/// An entry plus `x` fits, where there is an entry.
pub open spec fn adds_fit(o: Option<Frac>, x: Frac) -> bool {
    match o {
        Some(y) => fits(y.plus(x)),
        None => true,
    }
}

/// Both have an entry and their sum does not fit.
pub open spec fn sum_overflows(a: Option<Frac>, b: Option<Frac>) -> bool {
    match (a, b) {
        (Some(x), Some(y)) => !fits(x.plus(y)),
        _ => false,
    }
}

/// Where both have an entry, the sum fits.
pub open spec fn merge_fits(a: Slots, b: Slots) -> bool {
    forall|i: int| 0 <= i < a.len() ==> !sum_overflows(#[trigger] a[i], b[i])
}

pub open spec fn scale_slot_fits(o: Option<Frac>, k: Frac) -> bool {
    match o {
        Some(x) => fits(x.times(k)),
        None => true,
    }
}

/// Every entry times `k` fits.
pub open spec fn scale_fits(a: Slots, k: Frac) -> bool {
    forall|i: int| 0 <= i < a.len() ==> scale_slot_fits(#[trigger] a[i], k)
}

pub open spec fn mass_slot_fits(o: Option<Frac>, i: int, mw: Frac, k: Frac) -> bool {
    match o {
        Some(x) => fits(x.times(weight_at(i))) && fits(x.times(weight_at(i)).over(mw)) && fits(
            x.times(weight_at(i)).over(mw).times(k),
        ),
        None => true,
    }
}

/// Every step of [`mass_entries`] fits.
pub open spec fn mass_entries_fit(c: Slots, mw: Frac, k: Frac) -> bool {
    forall|i: int| 0 <= i < c.len() ==> mass_slot_fits(#[trigger] c[i], i, mw, k)
}

pub open spec fn converted_slot_fits(m: Slots, w: Slots, i: int) -> bool {
    match w[i] {
        Some(f) => fits(anchor_weight(m).times(f)) && fits(weight_at(i).times(residue_of(w)))
            && fits(mass_to_molar(m, w, i, f)) && adds_fit(m[i], mass_to_molar(m, w, i, f)),
        None => true,
    }
}

/// Every value that the conversion to molar amounts computes fits in 64
/// bits: the partial sums of the mass fractions, the residue, the anchor
/// weight and each converted amount with its intermediate products.
pub open spec fn conversion_fits(m: Slots, w: Slots) -> bool {
    no_entries(w) || (sums_fit(w) && fits(residue_of(w)) && (no_entries(m) || weights_fit(m))
        && forall|i: int| 0 <= i < w.len() ==> #[trigger] converted_slot_fits(m, w, i))
}

/// The conversion and the molecular weight of its result fit.
pub open spec fn weighing_fits(m: Slots, w: Slots) -> bool {
    conversion_fits(m, w) && weights_fit(molar_form(m, w))
}

/// Every value that [`mass_share`] computes fits.
pub open spec fn share_fits(m: Slots, w: Slots, k: Frac) -> bool {
    weighing_fits(m, w) && mass_entries_fit(molar_form(m, w), formula_weight(m, w), k)
}

/// Every value that normalizing the entries computes fits.
pub open spec fn normalizing_fits(a: Slots) -> bool {
    sums_fit(a) && fits(whole(100).over(total(a))) && scale_fits(a, whole(100).over(total(a)))
}

/// Enough fits to tell which error a conversion to molar amounts ends in.
pub open spec fn error_fits(m: Slots, w: Slots) -> bool {
    if molar_error(m, w) is Some {
        sums_fit(w)
    } else {
        weighing_fits(m, w)
    }
}

/// `x` fits where a value `y` equal to it does.
proof fn lemma_fits_from(y: Frac, x: Frac)
    requires
        y.d > 0,
        x.eqv(y),
        fits(y),
    ensures
        fits(x),
{
    lemma_eqv_symm(x, y);
    lemma_fits_eqv(y, x);
}

/// An entry of a merge holds the sum of the two amounts, an absent one
/// counting as zero.
proof fn lemma_merged_amount(s: Option<Frac>, a: Option<Frac>, b: Option<Frac>)
    requires
        same_slot(s, merge_slot(a, b)),
    ensures
        amount_or_zero(s).eqv(amount_or_zero(a).plus(amount_or_zero(b))),
{
    let x = amount_or_zero(a);
    let y = amount_or_zero(b);
    let z = amount_or_zero(s);
    match (a, b) {
        (None, None) => {},
        (Some(p), None) => {
            assert(x.plus(y) == Frac { n: p.n, d: p.d });
        },
        (None, Some(q)) => {
            assert(x.plus(y) == Frac { n: q.n, d: q.d });
        },
        (Some(p), Some(q)) => {},
    }
}

proof fn lemma_weight_valid(i: int)
    ensures
        weight_at(i).valid(),
        1 <= i < ELEMENT_SLOTS ==> weight_at(i).n > 0,
{
    crate::element::element_at(i).lemma_index();
    if 1 <= i < ELEMENT_SLOTS {
        ElementSymbol::lemma_slot(i);
    }
}

/// Adding zero leaves a number as it is.
proof fn lemma_plus_zero(t: Frac, z: Frac)
    requires
        z.n == 0,
        z.d > 0,
    ensures
        t.plus(z).eqv(t),
{
    assert((t.n * z.d + z.n * t.d) * t.d == t.n * (t.d * z.d)) by (nonlinear_arith)
        requires
            z.n == 0,
    ;
}

proof fn lemma_amount_valid(o: Option<Frac>)
    requires
        valid_slot(o),
    ensures
        amount_or_zero(o).valid(),
{
}

/// Sums and weights of equal entries are equal, and valid where the
/// entries are.
proof fn lemma_totals_congruent(a: Slots, b: Slots, k: int)
    requires
        same_amounts(a, b),
        0 <= k <= a.len(),
    ensures
        total_upto(a, k).eqv(total_upto(b, k)),
        weight_upto(a, k).eqv(weight_upto(b, k)),
        valid_slots(a) ==> total_upto(a, k).valid() && weight_upto(a, k).valid(),
    decreases k,
{
    if k > 0 {
        lemma_totals_congruent(a, b, k - 1);
        assert(same_slot(a[k - 1], b[k - 1]));
        let x = amount_or_zero(a[k - 1]);
        let y = amount_or_zero(b[k - 1]);
        let w = weight_at(k - 1);
        lemma_ops_congruent(x, y, w, w);
        lemma_ops_congruent(total_upto(a, k - 1), total_upto(b, k - 1), x, y);
        lemma_ops_congruent(weight_upto(a, k - 1), weight_upto(b, k - 1), x.times(w), y.times(w));
        if valid_slots(a) {
            assert(valid_slot(a[k - 1]));
            lemma_amount_valid(a[k - 1]);
            lemma_weight_valid(k - 1);
            lemma_valid_ops(x, w);
            lemma_valid_ops(total_upto(a, k - 1), x);
            lemma_valid_ops(weight_upto(a, k - 1), x.times(w));
        }
    }
}

proof fn lemma_totals_valid(a: Slots)
    requires
        valid_slots(a),
    ensures
        total(a).valid(),
        molecular_weight_of(a).valid(),
{
    lemma_totals_congruent(a, a, a.len() as int);
}

pub proof fn lemma_same_amounts_trans(a: Slots, b: Slots, c: Slots)
    requires
        same_amounts(a, b),
        same_amounts(b, c),
        valid_slots(b),
    ensures
        same_amounts(a, c),
{
    assert forall|i: int| 0 <= i < a.len() implies same_slot(#[trigger] a[i], c[i]) by {
        assert(same_slot(a[i], b[i]) && same_slot(b[i], c[i]) && valid_slot(b[i]));
        if a[i] is Some {
            lemma_eqv_trans(a[i]->0, b[i]->0, c[i]->0);
        }
    }
}

proof fn lemma_mass_entries_congruent(c1: Slots, c2: Slots, mw1: Frac, mw2: Frac, k: Frac)
    requires
        same_amounts(c1, c2),
        mw1.eqv(mw2),
    ensures
        same_amounts(mass_entries(c1, mw1, k), mass_entries(c2, mw2, k)),
{
    assert forall|i: int| 0 <= i < c1.len() implies same_slot(
        #[trigger] mass_entries(c1, mw1, k)[i],
        mass_entries(c2, mw2, k)[i],
    ) by {
        assert(same_slot(c1[i], c2[i]));
        if c1[i] is Some {
            let x = c1[i]->0;
            let y = c2[i]->0;
            let w = weight_at(i);
            lemma_ops_congruent(x, y, w, w);
            lemma_ops_congruent(x.times(w), y.times(w), mw1, mw2);
            lemma_ops_congruent(x.times(w).over(mw1), y.times(w).over(mw2), k, k);
        }
    }
}

pub proof fn lemma_scaled_congruent(a: Slots, b: Slots, k1: Frac, k2: Frac)
    requires
        same_amounts(a, b),
        k1.eqv(k2),
    ensures
        same_amounts(scaled(a, k1), scaled(b, k2)),
{
    assert forall|i: int| 0 <= i < a.len() implies same_slot(
        #[trigger] scaled(a, k1)[i],
        scaled(b, k2)[i],
    ) by {
        assert(same_slot(a[i], b[i]));
        if a[i] is Some {
            lemma_ops_congruent(a[i]->0, b[i]->0, k1, k2);
        }
    }
}

pub proof fn lemma_same_amounts_refl(a: Slots)
    ensures
        same_amounts(a, a),
{
    assert forall|i: int| 0 <= i < a.len() implies same_slot(#[trigger] a[i], a[i]) by {
        if a[i] is Some {
            lemma_eqv_refl(a[i]->0);
        }
    }
}

/// Equal entries are present in the same slots.
proof fn lemma_same_presence(a: Slots, b: Slots)
    requires
        same_amounts(a, b),
    ensures
        no_entries(a) == no_entries(b),
{
    if !no_entries(a) {
        let i = choose|i: int| 0 <= i < a.len() && (#[trigger] a[i]) is Some;
        assert(same_slot(a[i], b[i]));
    }
    if !no_entries(b) {
        let i = choose|i: int| 0 <= i < b.len() && (#[trigger] b[i]) is Some;
        assert(same_slot(a[i], b[i]));
    }
}

pub proof fn lemma_scaled_valid(a: Slots, k: Frac)
    requires
        valid_slots(a),
        k.valid(),
    ensures
        valid_slots(scaled(a, k)),
{
    assert forall|i: int| 0 <= i < a.len() implies valid_slot(#[trigger] scaled(a, k)[i]) by {
        assert(valid_slot(a[i]));
        if a[i] is Some {
            lemma_valid_ops(a[i]->0, k);
        }
    }
}

proof fn lemma_mass_entries_valid(c: Slots, mw: Frac, k: Frac)
    requires
        valid_slots(c),
        mw.valid(),
        mw.n > 0,
        k.valid(),
    ensures
        valid_slots(mass_entries(c, mw, k)),
{
    assert forall|i: int| 0 <= i < c.len() implies valid_slot(
        #[trigger] mass_entries(c, mw, k)[i],
    ) by {
        assert(valid_slot(c[i]));
        if c[i] is Some {
            let x = c[i]->0;
            lemma_weight_valid(i);
            lemma_valid_ops(x, weight_at(i));
            lemma_valid_ops(x.times(weight_at(i)), mw);
            lemma_valid_ops(x.times(weight_at(i)).over(mw), k);
        }
    }
}

/// The molar form of a composition that converts is valid.
proof fn lemma_molar_form_valid(m: Slots, w: Slots)
    requires
        m.len() == ELEMENT_SLOTS,
        w.len() == ELEMENT_SLOTS,
        valid_slots(m),
        valid_slots(w),
        molar_error(m, w) is None,
    ensures
        molar_form(m, w).len() == ELEMENT_SLOTS,
        valid_slots(molar_form(m, w)),
        formula_weight(m, w).valid(),
{
    if !no_entries(w) {
        lemma_totals_valid(w);
        lemma_totals_valid(m);
        let t = total(w);
        let res = residue_of(w);
        lemma_valid_ops(whole(100), t);
        assert(res.n > 0);
        let c = molar_form(m, w);
        assert forall|i: int| 0 <= i < c.len() implies valid_slot(#[trigger] c[i]) by {
            assert(valid_slot(m[i]) && valid_slot(w[i]));
            if w[i] is Some {
                let f = w[i]->0;
                let a = anchor_weight(m);
                lemma_weight_valid(i);
                lemma_valid_ops(a, f);
                lemma_valid_ops(weight_at(i), res);
                assert(weight_at(i).times(res).n > 0) by (nonlinear_arith)
                    requires
                        weight_at(i).n > 0,
                        res.n > 0,
                ;
                lemma_valid_ops(a.times(f), weight_at(i).times(res));
                if m[i] is Some {
                    lemma_valid_ops(m[i]->0, mass_to_molar(m, w, i, f));
                }
            }
        }
    }
    lemma_totals_valid(molar_form(m, w));
}

proof fn lemma_distributes_ints(an: int, ad: int, bn: int, bd: int, kn: int, kd: int)
    ensures
        (an * kn) * (bd * kd) + (bn * kn) * (ad * kd) == kn * kd * (an * bd + bn * ad),
        (ad * kd) * (bd * kd) == (ad * bd * kd) * kd,
{
    assert((an * kn) * (bd * kd) == kn * kd * (an * bd)) by (nonlinear_arith);
    assert((bn * kn) * (ad * kd) == kn * kd * (bn * ad)) by (nonlinear_arith);
    assert(kn * kd * (an * bd + bn * ad) == kn * kd * (an * bd) + kn * kd * (bn * ad))
        by (nonlinear_arith);
    assert((ad * kd) * (bd * kd) == (ad * bd * kd) * kd) by (nonlinear_arith);
}

proof fn lemma_regroup_four(kn: int, kd: int, x: int, p: int)
    ensures
        (kn * kd * x) * p == (x * kn) * (p * kd),
{
    assert((kn * kd * x) * p == (x * kn) * (p * kd)) by (nonlinear_arith);
}

/// `a * k + b * k == (a + b) * k`.
proof fn lemma_distributes(a: Frac, b: Frac, k: Frac)
    ensures
        a.times(k).plus(b.times(k)).eqv(a.plus(b).times(k)),
{
    lemma_distributes_ints(a.n, a.d, b.n, b.d, k.n, k.d);
    lemma_regroup_four(k.n, k.d, a.n * b.d + b.n * a.d, a.d * b.d * k.d);
}

/// The sum of scaled entries is the scaled sum.
proof fn lemma_total_scaled(a: Slots, k: Frac, i: int)
    requires
        valid_slots(a),
        k.valid(),
        0 <= i <= a.len(),
    ensures
        total_upto(scaled(a, k), i).eqv(total_upto(a, i).times(k)),
    decreases i,
{
    let sa = scaled(a, k);
    if i == 0 {
        let z = whole(0);
        assert(z.eqv(z.times(k))) by (nonlinear_arith)
            requires
                z.n == 0,
                z.d == 1,
        ;
    } else {
        lemma_total_scaled(a, k, i - 1);
        lemma_totals_congruent(a, a, i - 1);
        lemma_totals_congruent(sa, sa, i - 1);
        lemma_scaled_valid(a, k);
        let t = total_upto(a, i - 1);
        let x = amount_or_zero(a[i - 1]);
        assert(valid_slot(a[i - 1]));
        lemma_amount_valid(a[i - 1]);
        let y = amount_or_zero(sa[i - 1]);
        match a[i - 1] {
            Some(v) => {
                assert(y == x.times(k));
                lemma_eqv_refl(y);
                assert(y.eqv(x.times(k)));
            },
            None => {
                assert(x == whole(0) && y == whole(0));
                assert(x.n == 0);
                assert(y.eqv(x.times(k))) by (nonlinear_arith)
                    requires
                        x.n == 0,
                        y.n == 0,
                        y.d == 1,
                ;
            },
        }
        lemma_ops_congruent(total_upto(sa, i - 1), t.times(k), y, x.times(k));
        lemma_distributes(t, x, k);
        lemma_valid_ops(t, k);
        lemma_valid_ops(x, k);
        lemma_valid_ops(t.times(k), x.times(k));
        lemma_eqv_trans(
            total_upto(sa, i),
            t.times(k).plus(x.times(k)),
            t.plus(x).times(k),
        );
    }
}

/// Normalizing equal entries gives equal entries, and fails on both alike.
proof fn lemma_normalized_congruent(a: Slots, b: Slots)
    requires
        same_amounts(a, b),
        valid_slots(a),
        valid_slots(b),
    ensures
        same_amounts(normalized(a), normalized(b)),
        zero_total(a) == zero_total(b),
        no_entries(a) == no_entries(b),
{
    lemma_same_presence(a, b);
    lemma_totals_congruent(a, b, a.len() as int);
    lemma_totals_valid(a);
    lemma_totals_valid(b);
    lemma_compare_congruent(total(a), total(b), total(a), total(b));
    if !no_entries(a) {
        let h = whole(100);
        lemma_eqv_refl(h);
        lemma_ops_congruent(h, h, total(a), total(b));
        lemma_scaled_congruent(a, b, h.over(total(a)), h.over(total(b)));
    }
}

proof fn lemma_normalized_valid(a: Slots)
    requires
        valid_slots(a),
        !zero_total(a),
    ensures
        valid_slots(normalized(a)),
{
    if !no_entries(a) {
        lemma_totals_valid(a);
        lemma_valid_ops(whole(100), total(a));
        lemma_scaled_valid(a, whole(100).over(total(a)));
    }
}

proof fn lemma_share_ratio_ints(
    xn: int,
    xd: int,
    an: int,
    ad: int,
    yn: int,
    yd: int,
    bn: int,
    bd: int,
    cn: int,
    cd: int,
)
    ensures
        ((xn * an * cn) * ad * yn) * ((yd * bd * cd) * bn * xd) == ((yn * bn * cn) * bd * xn) * ((
        xd * ad * cd) * an * yd),
{
    assert((xn * an * cn) * ad * yn == ((xn * yn) * (an * ad)) * cn) by (nonlinear_arith);
    assert((yd * bd * cd) * bn * xd == ((xd * yd) * (bn * bd)) * cd) by (nonlinear_arith);
    assert((yn * bn * cn) * bd * xn == ((xn * yn) * (bn * bd)) * cn) by (nonlinear_arith);
    assert((xd * ad * cd) * an * yd == ((xd * yd) * (an * ad)) * cd) by (nonlinear_arith);
    lemma_swap_factors(xn * yn, an * ad, bn * bd, cn, xd * yd, cd);
}

proof fn lemma_swap_factors(p: int, a: int, b: int, c: int, q: int, d: int)
    ensures
        ((p * a) * c) * ((q * b) * d) == ((p * b) * c) * ((q * a) * d),
{
    assert((p * a) * c == (p * c) * a) by (nonlinear_arith);
    assert((q * b) * d == (q * d) * b) by (nonlinear_arith);
    assert((p * b) * c == (p * c) * b) by (nonlinear_arith);
    assert((q * a) * d == (q * d) * a) by (nonlinear_arith);
    lemma_cross_swap(p * c, a, q * d, b);
}

proof fn lemma_cross_swap(x: int, a: int, y: int, b: int)
    ensures
        (x * a) * (y * b) == (x * b) * (y * a),
{
    assert((x * a) * (y * b) == (x * b) * (y * a)) by (nonlinear_arith);
}

proof fn lemma_assoc3(x: int, r: int, s: int, t: int)
    ensures
        ((x * r) * s) * t == x * (r * s * t),
{
    assert(((x * r) * s) * t == x * (r * s * t)) by (nonlinear_arith);
}

/// `(x * a * c) / a * y == (y * b * c) / b * x`: the share of an amount in
/// a mass divided by its atomic weight is the amount times a common factor.
proof fn lemma_share_ratio(x: Frac, a: Frac, y: Frac, b: Frac, f: Frac, h: Frac, k: Frac)
    ensures
        x.times(a).over(f).times(h).times(k).over(a).times(y).eqv(
            y.times(b).over(f).times(h).times(k).over(b).times(x),
        ),
{
    let cn = f.d * h.n * k.n;
    let cd = f.n * h.d * k.d;
    lemma_assoc3(x.n * a.n, f.d, h.n, k.n);
    lemma_assoc3(x.d * a.d, f.n, h.d, k.d);
    lemma_assoc3(y.n * b.n, f.d, h.n, k.n);
    lemma_assoc3(y.d * b.d, f.n, h.d, k.d);
    lemma_share_ratio_ints(x.n, x.d, a.n, a.d, y.n, y.d, b.n, b.d, cn, cd);
}

/// Weight percentages keep the molar ratios: for a composition of molar
/// amounts only, the weight percent of each element divided by its atomic
/// weight stands to that of any other element as their molar amounts do.
pub proof fn lemma_wt_percent_round_trip(m: Slots, w: Slots, i: int, j: int)
    requires
        m.len() == ELEMENT_SLOTS,
        w.len() == ELEMENT_SLOTS,
        valid_slots(m),
        no_entries(w),
        wt_percent_error(m, w) is None,
        0 <= i < ELEMENT_SLOTS,
        0 <= j < ELEMENT_SLOTS,
        m[i] is Some,
        m[j] is Some,
    ensures
        normalized(wt_form(m, w))[i] is Some,
        normalized(wt_form(m, w))[j] is Some,
        (normalized(wt_form(m, w))[i]->0).over(weight_at(i)).times(m[j]->0).eqv(
            (normalized(wt_form(m, w))[j]->0).over(weight_at(j)).times(m[i]->0),
        ),
{
    let x = wt_form(m, w);
    assert(!no_entries(m));
    assert(molar_form(m, w) == m);
    let f = formula_weight(m, w);
    let h = whole(100);
    assert(x[i] is Some);
    let k = h.over(total(x));
    assert(normalized(x) == scaled(x, k));
    lemma_share_ratio(m[i]->0, weight_at(i), m[j]->0, weight_at(j), f, h, k);
}

/// Normalization: the weight percentages of a non-empty composition add up
/// to exactly 100.
pub proof fn lemma_wt_percent_sums_to_hundred(m: Slots, w: Slots)
    requires
        m.len() == ELEMENT_SLOTS,
        w.len() == ELEMENT_SLOTS,
        valid_slots(m),
        valid_slots(w),
        !(no_entries(m) && no_entries(w)),
        wt_percent_error(m, w) is None,
    ensures
        !no_entries(normalized(wt_form(m, w))),
        total(normalized(wt_form(m, w))).eqv(whole(100)),
{
    let x = wt_form(m, w);
    if no_entries(m) {
        assert(x == w);
    } else {
        lemma_molar_form_valid(m, w);
        let f = formula_weight(m, w);
        lemma_mass_entries_valid(molar_form(m, w), f, whole(100));
        let i = choose|i: int| 0 <= i < m.len() && (#[trigger] m[i]) is Some;
        assert(molar_form(m, w)[i] is Some);
        assert(x[i] is Some);
    }
    assert(valid_slots(x));
    assert(!no_entries(x));
    let t = total(x);
    lemma_totals_valid(x);
    let k = whole(100).over(t);
    lemma_valid_ops(whole(100), t);
    lemma_total_scaled(x, k, x.len() as int);
    let y = scaled(x, k);
    let i = choose|i: int| 0 <= i < x.len() && (#[trigger] x[i]) is Some;
    assert(y[i] is Some);
    assert(t.times(k).eqv(whole(100))) by (nonlinear_arith)
        requires
            k == whole(100).over(t),
    ;
    lemma_valid_ops(t, k);
    lemma_eqv_trans(total(y), t.times(k), whole(100));
}

/// Overflow boundary: the conversion to molar amounts fails with
/// `WeightPercentOverflow` exactly when there are mass fractions and they
/// add up to more than 100; mass fractions below 100 in all, none of them on
/// the sentinel, convert.
pub proof fn lemma_overflow_boundary(m: Slots, w: Slots)
    requires
        valid_slots(w),
    ensures
        (molar_error(m, w) == Some(FormulaError::WeightPercentOverflow)) <==> (!no_entries(w)
            && whole(100).below(total(w))),
        total(w).below(whole(100)) && w.len() > 0 && w[0] is None ==> molar_error(m, w) is None,
{
    lemma_totals_valid(w);
}

pub proof fn lemma_same_amounts_symm(a: Slots, b: Slots)
    requires
        same_amounts(a, b),
    ensures
        same_amounts(b, a),
{
    assert forall|i: int| 0 <= i < b.len() implies same_slot(#[trigger] b[i], a[i]) by {
        assert(same_slot(a[i], b[i]));
    }
}

/// Merging equal entries gives equal entries.
pub proof fn lemma_merged_congruent(a: Slots, b: Slots, a2: Slots, b2: Slots)
    requires
        same_amounts(a, a2),
        same_amounts(b, b2),
        a.len() == b.len(),
    ensures
        same_amounts(merged(a, b), merged(a2, b2)),
{
    assert forall|i: int| 0 <= i < a.len() implies same_slot(
        #[trigger] merged(a, b)[i],
        merged(a2, b2)[i],
    ) by {
        assert(same_slot(a[i], a2[i]) && same_slot(b[i], b2[i]));
        if a[i] is Some && b[i] is Some {
            lemma_ops_congruent(a[i]->0, a2[i]->0, b[i]->0, b2[i]->0);
        }
    }
}

/// The molar forms of equal compositions are equal.
proof fn lemma_molar_form_congruent(m: Slots, w: Slots, m2: Slots, w2: Slots)
    requires
        same_amounts(m, m2),
        same_amounts(w, w2),
        m.len() == w.len(),
    ensures
        same_amounts(molar_form(m, w), molar_form(m2, w2)),
{
    lemma_same_presence(m, m2);
    lemma_same_presence(w, w2);
    if !no_entries(w) {
        lemma_totals_congruent(m, m2, m.len() as int);
        lemma_totals_congruent(w, w2, w.len() as int);
        let h = whole(100);
        lemma_eqv_refl(h);
        lemma_eqv_refl(whole(DEFAULT_ANCHOR_WEIGHT as int));
        lemma_ops_congruent(h, h, total(w), total(w2));
        let c1 = molar_form(m, w);
        let c2 = molar_form(m2, w2);
        assert forall|i: int| 0 <= i < c1.len() implies same_slot(#[trigger] c1[i], c2[i]) by {
            assert(same_slot(m[i], m2[i]) && same_slot(w[i], w2[i]));
            if w[i] is Some {
                let f = w[i]->0;
                let f2 = w2[i]->0;
                let wt = weight_at(i);
                lemma_eqv_refl(wt);
                lemma_ops_congruent(anchor_weight(m), anchor_weight(m2), f, f2);
                lemma_ops_congruent(wt, wt, residue_of(w), residue_of(w2));
                lemma_ops_congruent(
                    anchor_weight(m).times(f),
                    anchor_weight(m2).times(f2),
                    wt.times(residue_of(w)),
                    wt.times(residue_of(w2)),
                );
                if m[i] is Some {
                    lemma_ops_congruent(
                        m[i]->0,
                        m2[i]->0,
                        mass_to_molar(m, w, i, f),
                        mass_to_molar(m2, w2, i, f2),
                    );
                }
            }
        }
    }
}

/// The mass shares of equal compositions are equal.
pub proof fn lemma_mass_share_congruent(m: Slots, w: Slots, m2: Slots, w2: Slots, k: Frac)
    requires
        same_amounts(m, m2),
        same_amounts(w, w2),
        m.len() == w.len(),
    ensures
        same_amounts(mass_share(m, w, k), mass_share(m2, w2, k)),
{
    lemma_molar_form_congruent(m, w, m2, w2);
    let c1 = molar_form(m, w);
    let c2 = molar_form(m2, w2);
    lemma_totals_congruent(c1, c2, c1.len() as int);
    lemma_mass_entries_congruent(c1, c2, formula_weight(m, w), formula_weight(m2, w2), k);
}

/// The mass share of a composition that can be weighed is valid.
pub proof fn lemma_mass_share_valid(m: Slots, w: Slots, k: Frac)
    requires
        m.len() == ELEMENT_SLOTS,
        w.len() == ELEMENT_SLOTS,
        valid_slots(m),
        valid_slots(w),
        weigh_error(m, w) is None,
        k.valid(),
    ensures
        valid_slots(mass_share(m, w, k)),
        mass_share(m, w, k).len() == ELEMENT_SLOTS,
{
    lemma_molar_form_valid(m, w);
    lemma_mass_entries_valid(molar_form(m, w), formula_weight(m, w), k);
}

pub proof fn lemma_merged_valid(a: Slots, b: Slots)
    requires
        valid_slots(a),
        valid_slots(b),
        a.len() == b.len(),
    ensures
        valid_slots(merged(a, b)),
{
    assert forall|i: int| 0 <= i < a.len() implies valid_slot(#[trigger] merged(a, b)[i]) by {
        assert(valid_slot(a[i]) && valid_slot(b[i]));
        if a[i] is Some && b[i] is Some {
            lemma_valid_ops(a[i]->0, b[i]->0);
        }
    }
}

/// Scaling by equal factors fits alike.
proof fn lemma_scale_fits_transfer(a: Slots, k1: Frac, k2: Frac)
    requires
        valid_slots(a),
        k1.valid(),
        k1.eqv(k2),
        scale_fits(a, k1),
    ensures
        scale_fits(a, k2),
{
    assert forall|i: int| 0 <= i < a.len() implies scale_slot_fits(#[trigger] a[i], k2) by {
        assert(valid_slot(a[i]) && scale_slot_fits(a[i], k1));
        if a[i] is Some {
            let x = a[i]->0;
            lemma_eqv_refl(x);
            lemma_ops_congruent(x, x, k2, k1);
            lemma_valid_ops(x, k1);
            lemma_fits_from(x.times(k1), x.times(k2));
        }
    }
}

/// Equal entries weigh alike: where one molecular weight fits step by step,
/// so does the other.
proof fn lemma_weights_fit_transfer(a: Slots, b: Slots)
    requires
        same_amounts(a, b),
        valid_slots(b),
        weights_fit(b),
    ensures
        weights_fit(a),
{
    assert forall|k: int| 0 < k <= a.len() implies fits(#[trigger] weight_upto(a, k)) && fits(
        amount_or_zero(a[k - 1]).times(weight_at(k - 1)),
    ) by {
        lemma_totals_congruent(a, b, k);
        lemma_totals_congruent(b, b, k);
        lemma_fits_from(weight_upto(b, k), weight_upto(a, k));
        assert(same_slot(a[k - 1], b[k - 1]) && valid_slot(b[k - 1]));
        let x = amount_or_zero(a[k - 1]);
        let y = amount_or_zero(b[k - 1]);
        let w = weight_at(k - 1);
        lemma_weight_valid(k - 1);
        lemma_amount_valid(b[k - 1]);
        lemma_ops_congruent(x, y, w, w);
        lemma_valid_ops(y, w);
        lemma_fits_from(y.times(w), x.times(w));
    }
}

/// Equal entries and equal weights give mass entries that fit alike.
proof fn lemma_mass_fit_transfer(c1: Slots, c2: Slots, mw1: Frac, mw2: Frac, k: Frac)
    requires
        same_amounts(c1, c2),
        valid_slots(c2),
        mw2.valid(),
        mw2.n > 0,
        mw1.eqv(mw2),
        k.valid(),
        mass_entries_fit(c2, mw2, k),
    ensures
        mass_entries_fit(c1, mw1, k),
{
    assert forall|i: int| 0 <= i < c1.len() implies mass_slot_fits(#[trigger] c1[i], i, mw1, k) by {
        assert(same_slot(c1[i], c2[i]) && valid_slot(c2[i]) && mass_slot_fits(c2[i], i, mw2, k));
        if c1[i] is Some {
            let x = c1[i]->0;
            let y = c2[i]->0;
            let w = weight_at(i);
            lemma_weight_valid(i);
            lemma_eqv_refl(w);
            lemma_eqv_refl(k);
            lemma_ops_congruent(x, y, w, w);
            lemma_ops_congruent(x.times(w), y.times(w), mw1, mw2);
            lemma_ops_congruent(x.times(w).over(mw1), y.times(w).over(mw2), k, k);
            lemma_valid_ops(y, w);
            lemma_valid_ops(y.times(w), mw2);
            lemma_valid_ops(y.times(w).over(mw2), k);
            lemma_fits_from(y.times(w), x.times(w));
            lemma_fits_from(y.times(w).over(mw2), x.times(w).over(mw1));
            lemma_fits_from(y.times(w).over(mw2).times(k), x.times(w).over(mw1).times(k));
        }
    }
}

/// Equal entries normalize alike.
proof fn lemma_normalizing_fits_transfer(a: Slots, b: Slots)
    requires
        same_amounts(a, b),
        valid_slots(a),
        valid_slots(b),
        !no_entries(b),
        !zero_total(b),
        normalizing_fits(b),
    ensures
        normalizing_fits(a),
{
    lemma_same_presence(a, b);
    assert forall|k: int| 0 < k <= a.len() implies fits(#[trigger] total_upto(a, k)) by {
        lemma_totals_congruent(a, b, k);
        lemma_totals_congruent(b, b, k);
        lemma_fits_from(total_upto(b, k), total_upto(a, k));
    }
    lemma_totals_congruent(a, b, a.len() as int);
    lemma_totals_valid(a);
    lemma_totals_valid(b);
    let h = whole(100);
    lemma_eqv_refl(h);
    lemma_ops_congruent(h, h, total(a), total(b));
    lemma_valid_ops(h, total(b));
    lemma_valid_ops(h, total(a));
    lemma_fits_from(h.over(total(b)), h.over(total(a)));
    let ka = h.over(total(a));
    let kb = h.over(total(b));
    assert forall|i: int| 0 <= i < a.len() implies scale_slot_fits(#[trigger] a[i], ka) by {
        assert(same_slot(a[i], b[i]) && valid_slot(b[i]) && scale_slot_fits(b[i], kb));
        if a[i] is Some {
            lemma_ops_congruent(a[i]->0, b[i]->0, ka, kb);
            lemma_valid_ops(b[i]->0, kb);
            lemma_fits_from(b[i]->0.times(kb), a[i]->0.times(ka));
        }
    }
}

proof fn lemma_pair(p: int, q: int, r: int, t: int)
    ensures
        (p * q) * (r * t) == (p * r) * (q * t),
{
    assert((p * q) * (r * t) == (p * r) * (q * t)) by (nonlinear_arith);
}

proof fn lemma_sum_times(x: int, y: int, z: int)
    ensures
        x * z + y * z == (x + y) * z,
{
    assert(x * z + y * z == (x + y) * z) by (nonlinear_arith);
}

proof fn lemma_assoc_pair(x: int, y: int, z: int)
    ensures
        x * (y * z) == (x * y) * z,
{
    assert(x * (y * z) == (x * y) * z) by (nonlinear_arith);
}

/// `(a + b) / f == a / f + b / f`.
proof fn lemma_over_distributes(a: Frac, b: Frac, f: Frac)
    ensures
        a.plus(b).over(f).eqv(a.over(f).plus(b.over(f))),
{
    let s = a.n * b.d + b.n * a.d;
    assert(a.plus(b).over(f).n == s * f.d);
    assert(a.plus(b).over(f).d == (a.d * b.d) * f.n);
    assert(a.over(f).plus(b.over(f)).n == (a.n * f.d) * (b.d * f.n) + (b.n * f.d) * (a.d * f.n));
    assert(a.over(f).plus(b.over(f)).d == (a.d * f.n) * (b.d * f.n));
    lemma_pair(a.n, f.d, b.d, f.n);
    lemma_pair(b.n, f.d, a.d, f.n);
    lemma_sum_times(a.n * b.d, b.n * a.d, f.d * f.n);
    lemma_assoc_pair(s, f.d, f.n);
    assert((a.d * f.n) * (b.d * f.n) == ((a.d * b.d) * f.n) * f.n) by (nonlinear_arith);
    lemma_cross_swap(s * f.d, ((a.d * b.d) * f.n), 1, f.n);
    assert((s * f.d) * (((a.d * b.d) * f.n) * f.n) == ((s * f.d) * f.n) * ((a.d * b.d) * f.n))
        by (nonlinear_arith);
}

/// The mass entries add up to the weights they come from, over `f`,
/// times `k`.
proof fn lemma_mass_entries_total(c: Slots, f: Frac, k: Frac, i: int)
    requires
        valid_slots(c),
        f.valid(),
        f.n > 0,
        k.valid(),
        0 <= i <= c.len(),
    ensures
        total_upto(mass_entries(c, f, k), i).eqv(weight_upto(c, i).over(f).times(k)),
        total_upto(mass_entries(c, f, k), i).valid(),
    decreases i,
{
    let me = mass_entries(c, f, k);
    lemma_mass_entries_valid(c, f, k);
    lemma_totals_congruent(me, me, i);
    if i == 0 {
        let z = whole(0);
        assert(z.over(f).times(k).n == 0) by (nonlinear_arith)
            requires
                z.n == 0,
        ;
    } else {
        lemma_mass_entries_total(c, f, k, i - 1);
        lemma_totals_congruent(c, c, i - 1);
        let t = total_upto(me, i - 1);
        let w = weight_upto(c, i - 1);
        let wt = weight_at(i - 1);
        lemma_weight_valid(i - 1);
        assert(valid_slot(c[i - 1]));
        lemma_amount_valid(c[i - 1]);
        let x = amount_or_zero(c[i - 1]);
        let y = x.times(wt);
        lemma_valid_ops(x, wt);
        // the new term of the total equals y / f * k
        let term = amount_or_zero(me[i - 1]);
        match c[i - 1] {
            Some(v) => {
                assert(term == y.over(f).times(k));
                lemma_eqv_refl(term);
            },
            None => {
                assert(y.n == 0) by (nonlinear_arith)
                    requires
                        x.n == 0,
                        y == x.times(wt),
                ;
                assert(term.eqv(y.over(f).times(k))) by (nonlinear_arith)
                    requires
                        term == whole(0),
                        y.n == 0,
                ;
            },
        }
        lemma_valid_ops(w, f);
        lemma_valid_ops(w.over(f), k);
        lemma_valid_ops(y, f);
        lemma_valid_ops(y.over(f), k);
        lemma_ops_congruent(t, w.over(f).times(k), term, y.over(f).times(k));
        lemma_distributes(w.over(f), y.over(f), k);
        lemma_over_distributes(w, y, f);
        lemma_eqv_refl(k);
        lemma_ops_congruent(w.plus(y).over(f), w.over(f).plus(y.over(f)), k, k);
        lemma_valid_ops(w.over(f).times(k), y.over(f).times(k));
        lemma_valid_ops(w.over(f), y.over(f));
        lemma_valid_ops(w.over(f).plus(y.over(f)), k);
        lemma_eqv_trans(
            total_upto(me, i),
            w.over(f).times(k).plus(y.over(f).times(k)),
            w.over(f).plus(y.over(f)).times(k),
        );
        lemma_eqv_symm(w.plus(y).over(f).times(k), w.over(f).plus(y.over(f)).times(k));
        lemma_eqv_trans(
            total_upto(me, i),
            w.over(f).plus(y.over(f)).times(k),
            w.plus(y).over(f).times(k),
        );
    }
}

/// Mass parts add up to their worth: the mass share of a composition that
/// can be weighed, worth `k` in all, adds up to exactly `k`.
pub proof fn lemma_mass_share_total(m: Slots, w: Slots, k: Frac)
    requires
        m.len() == ELEMENT_SLOTS,
        w.len() == ELEMENT_SLOTS,
        valid_slots(m),
        valid_slots(w),
        weigh_error(m, w) is None,
        k.valid(),
    ensures
        total(mass_share(m, w, k)).eqv(k),
{
    lemma_molar_form_valid(m, w);
    let c = molar_form(m, w);
    let f = formula_weight(m, w);
    lemma_mass_entries_total(c, f, k, c.len() as int);
    assert(f.over(f).times(k).eqv(k)) by (nonlinear_arith)
        requires
            f.n > 0,
            f.d > 0,
    ;
    lemma_valid_ops(f, f);
    lemma_valid_ops(f.over(f), k);
    lemma_eqv_trans(total(mass_share(m, w, k)), f.over(f).times(k), k);
}

/// A composition: per element, a molar amount (moles per formula unit) and
/// a mass fraction (percent of the total mass), each possibly absent.
#[derive(Clone, Debug)]
pub struct ChemicalFormula {
    stoichiometry: Vec<Option<Rational>>,
    wt_percent: Vec<Option<Rational>>,
}

fn empty_slots() -> (v: Vec<Option<Rational>>)
    ensures
        v@.len() == ELEMENT_SLOTS,
        no_entries(slots_view(v@)),
        valid_slots(slots_view(v@)),
{
    let mut v: Vec<Option<Rational>> = Vec::new();
    while v.len() < ELEMENT_SLOTS
        invariant
            v@.len() <= ELEMENT_SLOTS,
            forall|j: int| 0 <= j < v@.len() ==> (#[trigger] v@[j]) is None,
        decreases ELEMENT_SLOTS - v@.len(),
    {
        v.push(None);
    }
    v
}

fn copy_slots(v: &Vec<Option<Rational>>) -> (r: Vec<Option<Rational>>)
    ensures
        r@ == v@,
{
    let mut r: Vec<Option<Rational>> = Vec::new();
    let mut i: usize = 0;
    while i < v.len()
        invariant
            i <= v@.len(),
            r@ == v@.subrange(0, i as int),
        decreases v@.len() - i,
    {
        r.push(v[i]);
        i = i + 1;
    }
    r
}

fn has_no_entries(v: &Vec<Option<Rational>>) -> (b: bool)
    ensures
        b == no_entries(slots_view(v@)),
{
    let mut i: usize = 0;
    while i < v.len()
        invariant
            i <= v@.len(),
            forall|j: int| 0 <= j < i ==> (#[trigger] v@[j]) is None,
        decreases v@.len() - i,
    {
        if v[i].is_some() {
            assert(slots_view(v@)[i as int] is Some);
            return false;
        }
        i = i + 1;
    }
    true
}

fn merged_slots(a: &Vec<Option<Rational>>, b: &Vec<Option<Rational>>) -> (r: Option<
    Vec<Option<Rational>>,
>)
    requires
        a@.len() == b@.len(),
        valid_slots(slots_view(a@)),
        valid_slots(slots_view(b@)),
    ensures
        r matches Some(v) ==> valid_slots(slots_view(v@)) && same_amounts(
            slots_view(v@),
            merged(slots_view(a@), slots_view(b@)),
        ),
        merge_fits(slots_view(a@), slots_view(b@)) ==> r is Some,
{
    let ghost sa = slots_view(a@);
    let ghost sb = slots_view(b@);
    let mut out: Vec<Option<Rational>> = Vec::new();
    let mut i: usize = 0;
    while i < a.len()
        invariant
            a@.len() == b@.len(),
            sa == slots_view(a@),
            sb == slots_view(b@),
            valid_slots(sa),
            valid_slots(sb),
            i <= a@.len(),
            out@.len() == i,
            forall|j: int|
                0 <= j < i ==> valid_slot(slot_view(#[trigger] out@[j])) && same_slot(
                    slot_view(out@[j]),
                    merge_slot(sa[j], sb[j]),
                ),
        decreases a@.len() - i,
    {
        assert(valid_slot(sa[i as int]) && valid_slot(sb[i as int]));
        let s: Option<Rational> = match (a[i], b[i]) {
            (None, y) => y,
            (x, None) => x,
            (Some(x), Some(y)) => {
                match x.plus(&y) {
                    Some(z) => Some(z),
                    None => {
                        proof {
                            assert(!sum_overflows(sa[i as int], sb[i as int]) ==> fits(
                                x@.plus(y@),
                            ));
                        }
                        return None;
                    },
                }
            },
        };
        out.push(s);
        i = i + 1;
    }
    Some(out)
}

fn scaled_slots(a: &Vec<Option<Rational>>, k: &Rational) -> (r: Option<Vec<Option<Rational>>>)
    requires
        valid_slots(slots_view(a@)),
        k@.valid(),
    ensures
        r matches Some(v) ==> valid_slots(slots_view(v@)) && same_amounts(
            slots_view(v@),
            scaled(slots_view(a@), k@),
        ),
        scale_fits(slots_view(a@), k@) ==> r is Some,
{
    let ghost sa = slots_view(a@);
    let mut out: Vec<Option<Rational>> = Vec::new();
    let mut i: usize = 0;
    while i < a.len()
        invariant
            sa == slots_view(a@),
            valid_slots(sa),
            k@.valid(),
            i <= a@.len(),
            out@.len() == i,
            forall|j: int|
                0 <= j < i ==> valid_slot(slot_view(#[trigger] out@[j])) && same_slot(
                    slot_view(out@[j]),
                    scale_slot(sa[j], k@),
                ),
        decreases a@.len() - i,
    {
        assert(valid_slot(sa[i as int]));
        let s: Option<Rational> = match a[i] {
            None => None,
            Some(x) => {
                match x.times(k) {
                    Some(z) => Some(z),
                    None => {
                        proof {
                            assert(scale_slot_fits(sa[i as int], k@) ==> fits(x@.times(k@)));
                        }
                        return None;
                    },
                }
            },
        };
        out.push(s);
        i = i + 1;
    }
    Some(out)
}

/// Adds `x` to the entry in slot `i`, or makes it the entry where there is
/// none; `None` when the sum does not fit.
fn added_to_slot(a: &Vec<Option<Rational>>, i: usize, x: &Rational) -> (r: Option<
    Vec<Option<Rational>>,
>)
    requires
        i < a@.len(),
        valid_slots(slots_view(a@)),
        x@.valid(),
    ensures
        r matches Some(v) ==> valid_slots(slots_view(v@)) && same_amounts(
            slots_view(v@),
            add_to_slot(slots_view(a@), i as int, x@),
        ),
        adds_fit(slots_view(a@)[i as int], x@) ==> r is Some,
{
    let ghost sa = slots_view(a@);
    assert(valid_slot(sa[i as int]));
    let s: Rational = match a[i] {
        None => *x,
        Some(y) => {
            match y.plus(x) {
                Some(z) => z,
                None => {
                    proof {
                        assert(adds_fit(sa[i as int], x@) ==> fits(y@.plus(x@)));
                    }
                    return None;
                },
            }
        },
    };
    let mut v = copy_slots(a);
    v.set(i, Some(s));
    proof {
        let sv = slots_view(v@);
        let target = add_to_slot(sa, i as int, x@);
        assert forall|j: int| 0 <= j < sv.len() implies valid_slot(#[trigger] sv[j]) && same_slot(
            sv[j],
            target[j],
        ) by {
            if j != i {
                assert(sv[j] == sa[j]);
                assert(valid_slot(sa[j]));
            }
        }
    }
    Some(v)
}

/// The sum of the entries; `None` when it does not fit.
fn sum_slots(v: &Vec<Option<Rational>>) -> (r: Option<Rational>)
    requires
        valid_slots(slots_view(v@)),
    ensures
        r matches Some(t) ==> t@.valid() && t@.eqv(total(slots_view(v@))),
        sums_fit(slots_view(v@)) ==> r is Some,
{
    let ghost sv = slots_view(v@);
    let mut acc = Rational::from_integer(0);
    let mut i: usize = 0;
    while i < v.len()
        invariant
            sv == slots_view(v@),
            valid_slots(sv),
            i <= v@.len(),
            acc@.valid(),
            acc@.eqv(total_upto(sv, i as int)),
        decreases v@.len() - i,
    {
        proof {
            lemma_totals_congruent(sv, sv, i as int);
            assert(valid_slot(sv[i as int]));
        }
        let ghost t = total_upto(sv, i as int);
        match v[i] {
            None => {
                proof {
                    lemma_plus_zero(t, whole(0));
                    lemma_eqv_symm(t.plus(whole(0)), t);
                    lemma_eqv_trans(acc@, t, t.plus(whole(0)));
                }
            },
            Some(x) => {
                proof {
                    lemma_ops_congruent(acc@, t, x@, x@);
                    lemma_valid_ops(acc@, x@);
                    lemma_valid_ops(t, x@);
                    if sums_fit(sv) {
                        assert(fits(total_upto(sv, i + 1)));
                        lemma_fits_from(t.plus(x@), acc@.plus(x@));
                    }
                }
                let next = match acc.plus(&x) {
                    Some(z) => z,
                    None => {
                        return None;
                    },
                };
                proof {
                    lemma_eqv_trans(next@, acc@.plus(x@), t.plus(x@));
                }
                acc = next;
            },
        }
        i = i + 1;
    }
    Some(acc)
}

/// The sum of amount times atomic weight; `None` when it does not fit.
fn weigh_slots(v: &Vec<Option<Rational>>) -> (r: Option<Rational>)
    requires
        valid_slots(slots_view(v@)),
        v@.len() <= ELEMENT_SLOTS,
    ensures
        r matches Some(t) ==> t@.valid() && t@.eqv(molecular_weight_of(slots_view(v@))),
        weights_fit(slots_view(v@)) ==> r is Some,
{
    let ghost sv = slots_view(v@);
    let mut acc = Rational::from_integer(0);
    let mut i: usize = 0;
    while i < v.len()
        invariant
            sv == slots_view(v@),
            valid_slots(sv),
            i <= v@.len() <= ELEMENT_SLOTS,
            acc@.valid(),
            acc@.eqv(weight_upto(sv, i as int)),
        decreases v@.len() - i,
    {
        proof {
            lemma_totals_congruent(sv, sv, i as int);
            assert(valid_slot(sv[i as int]));
            lemma_weight_valid(i as int);
        }
        let ghost t = weight_upto(sv, i as int);
        let ghost w = weight_at(i as int);
        match v[i] {
            None => {
                proof {
                    lemma_plus_zero(t, whole(0).times(w));
                    lemma_eqv_symm(t.plus(whole(0).times(w)), t);
                    lemma_eqv_trans(acc@, t, t.plus(whole(0).times(w)));
                }
            },
            Some(x) => {
                let aw = ElementSymbol::from_number(i).atomic_weight();
                proof {
                    lemma_ops_congruent(x@, x@, aw@, w);
                    lemma_valid_ops(x@, aw@);
                    lemma_valid_ops(x@, w);
                    if weights_fit(sv) {
                        assert(fits(weight_upto(sv, i + 1)));
                        lemma_fits_from(x@.times(w), x@.times(aw@));
                    }
                }
                let term = match x.times(&aw) {
                    Some(z) => z,
                    None => {
                        return None;
                    },
                };
                proof {
                    lemma_eqv_trans(term@, x@.times(aw@), x@.times(w));
                    lemma_ops_congruent(acc@, t, term@, x@.times(w));
                    lemma_valid_ops(acc@, term@);
                    lemma_valid_ops(t, x@.times(w));
                    if weights_fit(sv) {
                        lemma_fits_from(t.plus(x@.times(w)), acc@.plus(term@));
                    }
                }
                let next = match acc.plus(&term) {
                    Some(z) => z,
                    None => {
                        return None;
                    },
                };
                proof {
                    lemma_eqv_trans(next@, acc@.plus(term@), t.plus(x@.times(w)));
                }
                acc = next;
            },
        }
        i = i + 1;
    }
    Some(acc)
}

/// Each molar amount as its share of `mw`, times `k`; `None` when a result
/// does not fit.
fn mass_slots(c: &Vec<Option<Rational>>, mw: &Rational, k: &Rational) -> (r: Option<
    Vec<Option<Rational>>,
>)
    requires
        valid_slots(slots_view(c@)),
        c@.len() <= ELEMENT_SLOTS,
        mw@.valid(),
        !mw@.is_zero(),
        k@.valid(),
    ensures
        r matches Some(v) ==> valid_slots(slots_view(v@)) && same_amounts(
            slots_view(v@),
            mass_entries(slots_view(c@), mw@, k@),
        ),
        mass_entries_fit(slots_view(c@), mw@, k@) ==> r is Some,
{
    let ghost sc = slots_view(c@);
    let mut out: Vec<Option<Rational>> = Vec::new();
    let mut i: usize = 0;
    while i < c.len()
        invariant
            sc == slots_view(c@),
            valid_slots(sc),
            c@.len() <= ELEMENT_SLOTS,
            mw@.valid(),
            !mw@.is_zero(),
            k@.valid(),
            i <= c@.len(),
            out@.len() == i,
            forall|j: int|
                0 <= j < i ==> valid_slot(slot_view(#[trigger] out@[j])) && same_slot(
                    slot_view(out@[j]),
                    mass_slot(sc[j], j, mw@, k@),
                ),
        decreases c@.len() - i,
    {
        proof {
            assert(valid_slot(sc[i as int]));
            lemma_weight_valid(i as int);
        }
        let s: Option<Rational> = match c[i] {
            None => None,
            Some(x) => {
                let ghost w = weight_at(i as int);
                let aw = ElementSymbol::from_number(i).atomic_weight();
                let ghost fit = mass_entries_fit(sc, mw@, k@);
                proof {
                    lemma_eqv_refl(mw@);
                    lemma_eqv_refl(k@);
                    lemma_ops_congruent(x@, x@, aw@, w);
                    lemma_valid_ops(x@, aw@);
                    lemma_valid_ops(x@, w);
                    if fit {
                        assert(mass_slot_fits(sc[i as int], i as int, mw@, k@));
                        lemma_fits_from(x@.times(w), x@.times(aw@));
                    }
                }
                let a = match x.times(&aw) {
                    Some(z) => z,
                    None => {
                        return None;
                    },
                };
                proof {
                    lemma_eqv_trans(a@, x@.times(aw@), x@.times(w));
                    lemma_ops_congruent(a@, x@.times(w), mw@, mw@);
                    lemma_valid_ops(a@, mw@);
                    lemma_valid_ops(x@.times(w), mw@);
                    if fit {
                        lemma_fits_from(x@.times(w).over(mw@), a@.over(mw@));
                    }
                }
                let b = match a.over(mw) {
                    Some(z) => z,
                    None => {
                        return None;
                    },
                };
                proof {
                    lemma_eqv_trans(b@, a@.over(mw@), x@.times(w).over(mw@));
                    lemma_ops_congruent(b@, x@.times(w).over(mw@), k@, k@);
                    lemma_valid_ops(b@, k@);
                    lemma_valid_ops(x@.times(w).over(mw@), k@);
                    if fit {
                        lemma_fits_from(x@.times(w).over(mw@).times(k@), b@.times(k@));
                    }
                }
                let e = match b.times(k) {
                    Some(z) => z,
                    None => {
                        return None;
                    },
                };
                proof {
                    lemma_eqv_trans(e@, b@.times(k@), x@.times(w).over(mw@).times(k@));
                }
                Some(e)
            },
        };
        out.push(s);
        i = i + 1;
    }
    Some(out)
}

/// The molar amount for mass fraction `f` of an element of weight `aw`,
/// given the anchor weight and the residue; `None` when it does not fit.
fn coefficient(anchor: &Rational, f: &Rational, aw: &Rational, residue: &Rational) -> (r: Option<
    Rational,
>)
    requires
        anchor@.valid(),
        f@.valid(),
        aw@.valid(),
        residue@.valid(),
        !aw@.is_zero(),
        !residue@.is_zero(),
    ensures
        r matches Some(c) ==> c@.valid() && c@.eqv(anchor@.times(f@).over(aw@.times(residue@))),
        fits(anchor@.times(f@)) && fits(aw@.times(residue@)) && fits(
            anchor@.times(f@).over(aw@.times(residue@)),
        ) ==> r is Some,
{
    let a = match anchor.times(f) {
        Some(z) => z,
        None => {
            return None;
        },
    };
    let b = match aw.times(residue) {
        Some(z) => z,
        None => {
            return None;
        },
    };
    proof {
        lemma_valid_ops(aw@, residue@);
        assert(aw@.times(residue@).n > 0) by (nonlinear_arith)
            requires
                aw@.n > 0,
                residue@.n > 0,
        ;
        lemma_compare_congruent(b@, aw@.times(residue@), b@, aw@.times(residue@));
    }
    proof {
        lemma_valid_ops(anchor@, f@);
        lemma_ops_congruent(a@, anchor@.times(f@), b@, aw@.times(residue@));
        lemma_valid_ops(anchor@.times(f@), aw@.times(residue@));
        if fits(anchor@.times(f@).over(aw@.times(residue@))) {
            lemma_fits_from(anchor@.times(f@).over(aw@.times(residue@)), a@.over(b@));
        }
    }
    let c = match a.over(&b) {
        Some(z) => z,
        None => {
            return None;
        },
    };
    proof {
        lemma_valid_ops(anchor@, f@);
        lemma_ops_congruent(a@, anchor@.times(f@), b@, aw@.times(residue@));
        lemma_valid_ops(a@, b@);
        lemma_eqv_trans(c@, a@.over(b@), anchor@.times(f@).over(aw@.times(residue@)));
    }
    Some(c)
}

/// Entries scaled to add up to 100; `Err` when they add up to zero or a
/// result does not fit.
fn normalized_slots(v: &Vec<Option<Rational>>) -> (r: Result<Vec<Option<Rational>>, FormulaError>)
    requires
        valid_slots(slots_view(v@)),
        !no_entries(slots_view(v@)),
    ensures
        r matches Ok(n) ==> valid_slots(slots_view(n@)) && !zero_total(slots_view(v@))
            && same_amounts(slots_view(n@), normalized(slots_view(v@))) && total(
            slots_view(n@),
        ).eqv(whole(100)),
        r matches Err(e) ==> e == FormulaError::ArithmeticOverflow || (e
            == FormulaError::IndeterminateScale && zero_total(slots_view(v@))),
        zero_total(slots_view(v@)) ==> r is Err,
        zero_total(slots_view(v@)) && sums_fit(slots_view(v@)) ==> r == Err::<
            Vec<Option<Rational>>,
            FormulaError,
        >(FormulaError::IndeterminateScale),
        !zero_total(slots_view(v@)) && normalizing_fits(slots_view(v@)) ==> r is Ok,
{
    let ghost sv = slots_view(v@);
    let t = match sum_slots(v) {
        Some(t) => t,
        None => {
            return Err(FormulaError::ArithmeticOverflow);
        },
    };
    proof {
        lemma_totals_valid(sv);
        lemma_compare_congruent(t@, total(sv), t@, total(sv));
    }
    if t.is_zero() {
        return Err(FormulaError::IndeterminateScale);
    }
    let hundred = Rational::from_integer(100);
    proof {
        let kk = whole(100).over(total(sv));
        lemma_eqv_refl(hundred@);
        lemma_ops_congruent(hundred@, hundred@, t@, total(sv));
        lemma_valid_ops(hundred@, t@);
        lemma_valid_ops(hundred@, total(sv));
        if normalizing_fits(sv) {
            lemma_fits_from(kk, hundred@.over(t@));
        }
    }
    let k = match hundred.over(&t) {
        Some(z) => z,
        None => {
            return Err(FormulaError::ArithmeticOverflow);
        },
    };
    proof {
        let kk = whole(100).over(total(sv));
        lemma_eqv_trans(k@, hundred@.over(t@), kk);
        if normalizing_fits(sv) {
            lemma_eqv_symm(k@, kk);
            lemma_scale_fits_transfer(sv, kk, k@);
        }
    }
    let n = match scaled_slots(v, &k) {
        Some(n) => n,
        None => {
            return Err(FormulaError::ArithmeticOverflow);
        },
    };
    proof {
        let sn = slots_view(n@);
        let kk = whole(100).over(total(sv));
        lemma_eqv_refl(hundred@);
        lemma_ops_congruent(hundred@, hundred@, t@, total(sv));
        lemma_valid_ops(hundred@, t@);
        lemma_eqv_trans(k@, hundred@.over(t@), kk);
        lemma_same_amounts_refl(sv);
        lemma_scaled_congruent(sv, sv, k@, kk);
        lemma_scaled_valid(sv, k@);
        lemma_same_amounts_trans(sn, scaled(sv, k@), scaled(sv, kk));
        // the total of the result is 100
        lemma_totals_congruent(sn, scaled(sv, k@), sn.len() as int);
        lemma_total_scaled(sv, k@, sv.len() as int);
        lemma_totals_valid(scaled(sv, k@));
        lemma_eqv_trans(total(sn), total(scaled(sv, k@)), total(sv).times(k@));
        lemma_eqv_symm(t@, total(sv));
        lemma_ops_congruent(total(sv), t@, k@, hundred@.over(t@));
        lemma_valid_ops(total(sv), k@);
        lemma_eqv_trans(total(sn), total(sv).times(k@), t@.times(hundred@.over(t@)));
        assert(t@.times(hundred@.over(t@)).eqv(whole(100))) by (nonlinear_arith)
            requires
                hundred@ == whole(100),
        ;
        lemma_valid_ops(t@, hundred@.over(t@));
        lemma_eqv_trans(total(sn), t@.times(hundred@.over(t@)), whole(100));
    }
    Ok(n)
}

impl ChemicalFormula {
    /// The molar amounts, one slot per atomic number.
    pub closed spec fn molar(&self) -> Slots {
        slots_view(self.stoichiometry@)
    }

    /// The mass fractions in percent, one slot per atomic number.
    pub closed spec fn mass(&self) -> Slots {
        slots_view(self.wt_percent@)
    }

    pub open spec fn wf(&self) -> bool {
        &&& self.molar().len() == ELEMENT_SLOTS
        &&& self.mass().len() == ELEMENT_SLOTS
        &&& valid_slots(self.molar())
        &&& valid_slots(self.mass())
    }

    /// The empty composition.
    pub fn new() -> (r: ChemicalFormula)
        ensures
            r.wf(),
            no_entries(r.molar()),
            no_entries(r.mass()),
    {
        ChemicalFormula { stoichiometry: empty_slots(), wt_percent: empty_slots() }
    }

    /// The molar amount of `element`, if it has one.
    pub fn stoichiometry_of(&self, element: ElementSymbol) -> (r: Option<Rational>)
        requires
            self.wf(),
        ensures
            slot_view(r) == self.molar()[element.index()],
    {
        proof {
            element.lemma_index();
        }
        self.stoichiometry[element.number()]
    }

    /// The mass fraction of `element` in percent, if it has one.
    pub fn wt_percent_of(&self, element: ElementSymbol) -> (r: Option<Rational>)
        requires
            self.wf(),
        ensures
            slot_view(r) == self.mass()[element.index()],
    {
        proof {
            element.lemma_index();
        }
        self.wt_percent[element.number()]
    }

    /// The elements present, with a molar amount or a mass fraction, in
    /// order of atomic number.
    pub fn elements(&self) -> (r: Vec<ElementSymbol>)
        requires
            self.wf(),
        ensures
            forall|e: ElementSymbol|
                r@.contains(e) <==> (self.molar()[e.index()] is Some || self.mass()[
                    e.index()
                ] is Some),
    {
        let mut out: Vec<ElementSymbol> = Vec::new();
        let mut i: usize = 0;
        while i < ELEMENT_SLOTS
            invariant
                self.wf(),
                i <= ELEMENT_SLOTS,
                forall|e: ElementSymbol|
                    out@.contains(e) <==> (e.index() < i && (self.molar()[e.index()] is Some
                        || self.mass()[e.index()] is Some)),
            decreases ELEMENT_SLOTS - i,
        {
            proof {
                assert(self.molar()[i as int] == slot_view(self.stoichiometry@[i as int]));
                assert(self.mass()[i as int] == slot_view(self.wt_percent@[i as int]));
            }
            if self.stoichiometry[i].is_some() || self.wt_percent[i].is_some() {
                let e = ElementSymbol::from_number(i);
                let ghost before = out@;
                out.push(e);
                proof {
                    assert forall|x: ElementSymbol| out@.contains(x) <==> (x.index() < i + 1 && (
                    self.molar()[x.index()] is Some || self.mass()[x.index()] is Some)) by {
                        x.lemma_index();
                        e.lemma_index();
                        if i > 0 {
                            ElementSymbol::lemma_slot(i as int);
                        }
                        if out@.contains(x) && x != e {
                            let j = choose|j: int| 0 <= j < out@.len() && out@[j] == x;
                            assert(before[j] == x);
                        }
                        if before.contains(x) {
                            let j = choose|j: int| 0 <= j < before.len() && before[j] == x;
                            assert(out@[j] == x);
                        }
                        if x.index() == i {
                            assert(crate::element::element_at(i as int) == x);
                            assert(out@[before.len() as int] == x);
                        }
                    }
                }
            } else {
                proof {
                    assert forall|x: ElementSymbol| out@.contains(x) <==> (x.index() < i + 1 && (
                    self.molar()[x.index()] is Some || self.mass()[x.index()] is Some)) by {
                        x.lemma_index();
                    }
                }
            }
            i = i + 1;
        }
        out
    }

    /// Adds `stoichiometry` moles of `element`, to its molar entry if there
    /// is one. On an error the composition is unchanged.
    pub fn add_element(&mut self, element: ElementSymbol, stoichiometry: Rational) -> (r: Result<
        (),
        FormulaError,
    >)
        requires
            old(self).wf(),
            stoichiometry@.valid(),
        ensures
            final(self).wf(),
            r matches Err(e) ==> e == FormulaError::ArithmeticOverflow && *final(self) == *old(
                self,
            ),
            r is Ok ==> same_amounts(
                final(self).molar(),
                add_to_slot(old(self).molar(), element.index(), stoichiometry@),
            ) && final(self).mass() == old(self).mass(),
            adds_fit(old(self).molar()[element.index()], stoichiometry@) ==> r is Ok,
    {
        proof {
            element.lemma_index();
        }
        match added_to_slot(&self.stoichiometry, element.number(), &stoichiometry) {
            Some(v) => {
                self.stoichiometry = v;
                Ok(())
            },
            None => Err(FormulaError::ArithmeticOverflow),
        }
    }

    /// Adds `wt_ratio` percent by mass of `element`, to its mass entry if
    /// there is one. On an error the composition is unchanged.
    pub fn add_wt_percent(&mut self, element: ElementSymbol, wt_ratio: Rational) -> (r: Result<
        (),
        FormulaError,
    >)
        requires
            old(self).wf(),
            wt_ratio@.valid(),
        ensures
            final(self).wf(),
            r matches Err(e) ==> e == FormulaError::ArithmeticOverflow && *final(self) == *old(
                self,
            ),
            r is Ok ==> same_amounts(
                final(self).mass(),
                add_to_slot(old(self).mass(), element.index(), wt_ratio@),
            ) && final(self).molar() == old(self).molar(),
            adds_fit(old(self).mass()[element.index()], wt_ratio@) ==> r is Ok,
    {
        proof {
            element.lemma_index();
        }
        match added_to_slot(&self.wt_percent, element.number(), &wt_ratio) {
            Some(v) => {
                self.wt_percent = v;
                Ok(())
            },
            None => Err(FormulaError::ArithmeticOverflow),
        }
    }

    /// Multiplies every molar amount and every mass fraction by
    /// `multiplier`. On an error the composition is unchanged.
    pub fn multiply(&mut self, multiplier: Rational) -> (r: Result<(), FormulaError>)
        requires
            old(self).wf(),
            multiplier@.valid(),
        ensures
            final(self).wf(),
            r matches Err(e) ==> e == FormulaError::ArithmeticOverflow && *final(self) == *old(
                self,
            ),
            r is Ok ==> same_amounts(final(self).molar(), scaled(old(self).molar(), multiplier@))
                && same_amounts(final(self).mass(), scaled(old(self).mass(), multiplier@)),
            scale_fits(old(self).molar(), multiplier@) && scale_fits(old(self).mass(), multiplier@)
                ==> r is Ok,
    {
        let m = match scaled_slots(&self.stoichiometry, &multiplier) {
            Some(v) => v,
            None => {
                return Err(FormulaError::ArithmeticOverflow);
            },
        };
        let w = match scaled_slots(&self.wt_percent, &multiplier) {
            Some(v) => v,
            None => {
                return Err(FormulaError::ArithmeticOverflow);
            },
        };
        self.stoichiometry = m;
        self.wt_percent = w;
        Ok(())
    }

    /// The composition in molar form: each mass fraction becomes a molar
    /// amount such that the existing molar part makes up the residue of
    /// the mass, and is added to that element's molar amount. Without mass
    /// fractions the composition comes back as it is.
    pub fn to_molecular_formula(&self) -> (r: Result<ChemicalFormula, FormulaError>)
        requires
            self.wf(),
        ensures
            r matches Ok(f) ==> f.wf() && molar_error(self.molar(), self.mass()) is None
                && same_amounts(f.molar(), molar_form(self.molar(), self.mass())) && no_entries(
                f.mass(),
            ),
            r matches Err(e) ==> e == FormulaError::ArithmeticOverflow || molar_error(
                self.molar(),
                self.mass(),
            ) == Some(e),
            no_entries(self.mass()) ==> (r matches Ok(f) && f.molar() == self.molar()),
            molar_error(self.molar(), self.mass()) is None && conversion_fits(
                self.molar(),
                self.mass(),
            ) ==> r is Ok,
            molar_error(self.molar(), self.mass()) is Some && sums_fit(self.mass()) ==> r == Err::<
                ChemicalFormula,
                FormulaError,
            >(molar_error(self.molar(), self.mass())->0),
    {
        if has_no_entries(&self.wt_percent) {
            return Ok(
                ChemicalFormula {
                    stoichiometry: copy_slots(&self.stoichiometry),
                    wt_percent: copy_slots(&self.wt_percent),
                },
            );
        }
        let ghost m = self.molar();
        let ghost w = self.mass();
        let hundred = Rational::from_integer(100);
        let wsum = match sum_slots(&self.wt_percent) {
            Some(t) => t,
            None => {
                return Err(FormulaError::ArithmeticOverflow);
            },
        };
        proof {
            lemma_totals_valid(w);
            lemma_totals_valid(m);
            lemma_eqv_refl(hundred@);
            lemma_compare_congruent(hundred@, hundred@, wsum@, total(w));
            lemma_compare_congruent(wsum@, total(w), hundred@, hundred@);
        }
        if !wsum.at_most(&hundred) {
            return Err(FormulaError::WeightPercentOverflow);
        }
        if wsum.same_value(&hundred) || self.wt_percent[0].is_some() {
            proof {
                assert(w[0] == slot_view(self.wt_percent@[0]));
            }
            return Err(FormulaError::IndeterminateScale);
        }
        assert(w[0] is None) by {
            assert(w[0] == slot_view(self.wt_percent@[0]));
        }
        let ghost fit = molar_error(m, w) is None && conversion_fits(m, w);
        proof {
            lemma_valid_ops(hundred@, wsum@);
            lemma_ops_congruent(hundred@, hundred@, wsum@, total(w));
            lemma_valid_ops(hundred@, total(w));
            if fit {
                lemma_fits_from(residue_of(w), hundred@.minus(wsum@));
            }
        }
        let residue = match hundred.minus(&wsum) {
            Some(z) => z,
            None => {
                return Err(FormulaError::ArithmeticOverflow);
            },
        };
        proof {
            lemma_valid_ops(hundred@, wsum@);
            lemma_ops_congruent(hundred@, hundred@, wsum@, total(w));
            lemma_eqv_trans(residue@, hundred@.minus(wsum@), residue_of(w));
            lemma_compare_congruent(
                residue@,
                hundred@.minus(wsum@),
                residue@,
                hundred@.minus(wsum@),
            );
        }
        let anchor = if has_no_entries(&self.stoichiometry) {
            Rational::from_integer(DEFAULT_ANCHOR_WEIGHT)
        } else {
            match weigh_slots(&self.stoichiometry) {
                Some(t) => t,
                None => {
                    return Err(FormulaError::ArithmeticOverflow);
                },
            }
        };
        assert(anchor@.eqv(anchor_weight(m)));
        proof {
            lemma_compare_congruent(residue@, residue_of(w), residue@, residue_of(w));
        }
        let mut out: Vec<Option<Rational>> = Vec::new();
        let mut i: usize = 0;
        while i < self.wt_percent.len()
            invariant
                self.wf(),
                m == self.molar(),
                w == self.mass(),
                !no_entries(w),
                w[0] is None,
                anchor@.valid(),
                anchor@.eqv(anchor_weight(m)),
                residue@.valid(),
                !residue@.is_zero(),
                residue@.eqv(residue_of(w)),
                residue_of(w).valid(),
                residue_of(w).n > 0,
                anchor_weight(m).valid(),
                fit == (molar_error(m, w) is None && conversion_fits(m, w)),
                i <= ELEMENT_SLOTS,
                out@.len() == i,
                forall|j: int|
                    0 <= j < i ==> valid_slot(slot_view(#[trigger] out@[j])) && same_slot(
                        slot_view(out@[j]),
                        converted_slot(m, w, j),
                    ),
            decreases ELEMENT_SLOTS - i,
        {
            proof {
                assert(valid_slot(m[i as int]) && valid_slot(w[i as int]));
                assert(m[i as int] == slot_view(self.stoichiometry@[i as int]));
                assert(w[i as int] == slot_view(self.wt_percent@[i as int]));
            }
            let s: Option<Rational> = match self.wt_percent[i] {
                None => self.stoichiometry[i],
                Some(f) => {
                    proof {
                        lemma_weight_valid(i as int);
                    }
                    let aw = ElementSymbol::from_number(i).atomic_weight();
                    let ghost spec_c = mass_to_molar(m, w, i as int, f@);
                    proof {
                        lemma_compare_congruent(aw@, weight_at(i as int), aw@, weight_at(i as int));
                        lemma_eqv_refl(f@);
                        lemma_ops_congruent(anchor@, anchor_weight(m), f@, f@);
                        lemma_ops_congruent(aw@, weight_at(i as int), residue@, residue_of(w));
                        lemma_ops_congruent(
                            anchor@.times(f@),
                            anchor_weight(m).times(f@),
                            aw@.times(residue@),
                            weight_at(i as int).times(residue_of(w)),
                        );
                        lemma_valid_ops(anchor_weight(m), f@);
                        lemma_valid_ops(weight_at(i as int), residue_of(w));
                        assert(weight_at(i as int).times(residue_of(w)).n > 0) by (nonlinear_arith)
                            requires
                                weight_at(i as int).n > 0,
                                residue_of(w).n > 0,
                        ;
                        lemma_valid_ops(
                            anchor_weight(m).times(f@),
                            weight_at(i as int).times(residue_of(w)),
                        );
                        if fit {
                            assert(converted_slot_fits(m, w, i as int));
                            lemma_fits_from(anchor_weight(m).times(f@), anchor@.times(f@));
                            lemma_fits_from(weight_at(i as int).times(residue_of(w)), aw@.times(residue@));
                            lemma_fits_from(spec_c, anchor@.times(f@).over(aw@.times(residue@)));
                        }
                    }
                    let c = match coefficient(&anchor, &f, &aw, &residue) {
                        Some(z) => z,
                        None => {
                            return Err(FormulaError::ArithmeticOverflow);
                        },
                    };
                    proof {
                        lemma_eqv_refl(f@);
                        lemma_ops_congruent(anchor@, anchor_weight(m), f@, f@);
                        lemma_ops_congruent(aw@, weight_at(i as int), residue@, residue_of(w));
                        lemma_ops_congruent(
                            anchor@.times(f@),
                            anchor_weight(m).times(f@),
                            aw@.times(residue@),
                            weight_at(i as int).times(residue_of(w)),
                        );
                        lemma_valid_ops(anchor@, f@);
                        lemma_valid_ops(aw@, residue@);
                        assert(aw@.times(residue@).n > 0) by (nonlinear_arith)
                            requires
                                aw@.n > 0,
                                residue@.n > 0,
                        ;
                        lemma_valid_ops(anchor@.times(f@), aw@.times(residue@));
                        lemma_eqv_trans(
                            c@,
                            anchor@.times(f@).over(aw@.times(residue@)),
                            spec_c,
                        );
                    }
                    match self.stoichiometry[i] {
                        None => Some(c),
                        Some(x) => {
                            proof {
                                lemma_eqv_refl(x@);
                                lemma_ops_congruent(x@, x@, c@, spec_c);
                                lemma_valid_ops(x@, spec_c);
                                if fit {
                                    lemma_fits_from(x@.plus(spec_c), x@.plus(c@));
                                }
                            }
                            match x.plus(&c) {
                                Some(z) => {
                                    proof {
                                        lemma_eqv_refl(x@);
                                        lemma_ops_congruent(x@, x@, c@, spec_c);
                                        lemma_valid_ops(x@, c@);
                                        lemma_eqv_trans(z@, x@.plus(c@), x@.plus(spec_c));
                                    }
                                    Some(z)
                                },
                                None => {
                                    return Err(FormulaError::ArithmeticOverflow);
                                },
                            }
                        },
                    }
                },
            };
            out.push(s);
            i = i + 1;
        }
        let result = ChemicalFormula { stoichiometry: out, wt_percent: empty_slots() };
        proof {
            let target = molar_form(m, w);
            assert forall|j: int| 0 <= j < ELEMENT_SLOTS implies valid_slot(
                #[trigger] result.molar()[j],
            ) && same_slot(result.molar()[j], target[j]) by {
                assert(result.molar()[j] == slot_view(out@[j]));
            }
        }
        Ok(result)
    }

    /// The molar form together with its molecular weight.
    fn weighed(&self) -> (r: Result<(ChemicalFormula, Rational), FormulaError>)
        requires
            self.wf(),
        ensures
            r matches Ok(p) ==> p.0.wf() && molar_error(self.molar(), self.mass()) is None
                && same_amounts(p.0.molar(), molar_form(self.molar(), self.mass())) && no_entries(
                p.0.mass(),
            ) && p.1@.valid() && p.1@.eqv(formula_weight(self.molar(), self.mass()))
                && formula_weight(self.molar(), self.mass()).valid() && valid_slots(
                molar_form(self.molar(), self.mass()),
            ),
            r matches Err(e) ==> e == FormulaError::ArithmeticOverflow || molar_error(
                self.molar(),
                self.mass(),
            ) == Some(e),
            molar_error(self.molar(), self.mass()) is None && weighing_fits(self.molar(), self.mass()) ==> r is Ok,
            molar_error(self.molar(), self.mass()) is Some && sums_fit(self.mass()) ==> r == Err::<
                (ChemicalFormula, Rational),
                FormulaError,
            >(molar_error(self.molar(), self.mass())->0),
    {
        let c = self.to_molecular_formula()?;
        proof {
            if weighing_fits(self.molar(), self.mass()) {
                lemma_molar_form_valid(self.molar(), self.mass());
                lemma_weights_fit_transfer(c.molar(), molar_form(self.molar(), self.mass()));
            }
        }
        let mw = match weigh_slots(&c.stoichiometry) {
            Some(t) => t,
            None => {
                return Err(FormulaError::ArithmeticOverflow);
            },
        };
        proof {
            let mf = molar_form(self.molar(), self.mass());
            lemma_molar_form_valid(self.molar(), self.mass());
            lemma_totals_congruent(c.molar(), mf, ELEMENT_SLOTS as int);
            lemma_totals_valid(c.molar());
            lemma_eqv_trans(mw@, molecular_weight_of(c.molar()), molecular_weight_of(mf));
        }
        Ok((c, mw))
    }

    /// The molecular weight: the sum of amount times atomic weight over the
    /// molar form.
    pub fn molecular_weight(&self) -> (r: Result<Rational, FormulaError>)
        requires
            self.wf(),
        ensures
            r matches Ok(x) ==> molar_error(self.molar(), self.mass()) is None && x@.valid()
                && x@.eqv(formula_weight(self.molar(), self.mass())),
            r matches Err(e) ==> e == FormulaError::ArithmeticOverflow || molar_error(
                self.molar(),
                self.mass(),
            ) == Some(e),
            molar_error(self.molar(), self.mass()) is None && weighing_fits(self.molar(), self.mass()) ==> r is Ok,
            molar_error(self.molar(), self.mass()) is Some && sums_fit(self.mass()) ==> r == Err::<Rational, FormulaError>(
                molar_error(self.molar(), self.mass())->0,
            ),
    {
        let (_, mw) = self.weighed()?;
        Ok(mw)
    }

    /// The composition as mass fractions in percent of its molecular
    /// weight. Without molar amounts the composition comes back as it is.
    pub fn to_wt(&self) -> (r: Result<ChemicalFormula, FormulaError>)
        requires
            self.wf(),
        ensures
            r matches Ok(f) ==> f.wf() && wt_error(self.molar(), self.mass()) is None
                && same_amounts(f.mass(), wt_form(self.molar(), self.mass())) && no_entries(
                f.molar(),
            ),
            r matches Err(e) ==> e == FormulaError::ArithmeticOverflow || wt_error(
                self.molar(),
                self.mass(),
            ) == Some(e),
            no_entries(self.molar()) ==> (r matches Ok(f) && f.mass() == self.mass()),
            wt_error(self.molar(), self.mass()) is None && (no_entries(self.molar()) || share_fits(
                self.molar(), self.mass(),
                whole(100),
            )) ==> r is Ok,
            wt_error(self.molar(), self.mass()) is Some && error_fits(self.molar(), self.mass()) ==> r == Err::<ChemicalFormula, FormulaError>(
                wt_error(self.molar(), self.mass())->0,
            ),
    {
        if has_no_entries(&self.stoichiometry) {
            proof {
                lemma_same_amounts_refl(self.mass());
            }
            return Ok(
                ChemicalFormula {
                    stoichiometry: copy_slots(&self.stoichiometry),
                    wt_percent: copy_slots(&self.wt_percent),
                },
            );
        }
        let hundred = Rational::from_integer(100);
        let mass = self.mass_parts(&hundred)?;
        Ok(ChemicalFormula { stoichiometry: empty_slots(), wt_percent: mass })
    }

    /// The molar form as mass parts worth `k` in all.
    fn mass_parts(&self, k: &Rational) -> (r: Result<Vec<Option<Rational>>, FormulaError>)
        requires
            self.wf(),
            k@.valid(),
        ensures
            r matches Ok(v) ==> v@.len() == ELEMENT_SLOTS && valid_slots(slots_view(v@))
                && weigh_error(self.molar(), self.mass()) is None && same_amounts(
                slots_view(v@),
                mass_share(self.molar(), self.mass(), k@),
            ),
            r matches Err(e) ==> e == FormulaError::ArithmeticOverflow || weigh_error(
                self.molar(),
                self.mass(),
            ) == Some(e),
            weigh_error(self.molar(), self.mass()) is None && share_fits(self.molar(), self.mass(), k@) ==> r is Ok,
            weigh_error(self.molar(), self.mass()) is Some && error_fits(self.molar(), self.mass()) ==> r == Err::<
                Vec<Option<Rational>>,
                FormulaError,
            >(weigh_error(self.molar(), self.mass())->0),
    {
        let (c, mw) = self.weighed()?;
        let ghost fw = formula_weight(self.molar(), self.mass());
        proof {
            lemma_compare_congruent(mw@, fw, mw@, fw);
        }
        if mw.is_zero() {
            return Err(FormulaError::IndeterminateScale);
        }
        proof {
            if share_fits(self.molar(), self.mass(), k@) {
                lemma_molar_form_valid(self.molar(), self.mass());
                lemma_mass_fit_transfer(
                    c.molar(),
                    molar_form(self.molar(), self.mass()),
                    mw@,
                    fw,
                    k@,
                );
            }
        }
        let v = match mass_slots(&c.stoichiometry, &mw, k) {
            Some(v) => v,
            None => {
                return Err(FormulaError::ArithmeticOverflow);
            },
        };
        proof {
            let mf = molar_form(self.molar(), self.mass());
            lemma_mass_entries_congruent(c.molar(), mf, mw@, fw, k@);
            lemma_mass_entries_valid(c.molar(), mw@, k@);
            lemma_same_amounts_trans(
                slots_view(v@),
                mass_entries(c.molar(), mw@, k@),
                mass_entries(mf, fw, k@),
            );
        }
        Ok(v)
    }

    /// Replaces the composition by its molar form expressed as mass parts
    /// worth `multiplier` in all: each element's share of the molecular
    /// weight, times `multiplier`, not normalized to 100. On an error the
    /// composition is unchanged.
    pub fn multiply_wt_percent(&mut self, multiplier: Rational) -> (r: Result<(), FormulaError>)
        requires
            old(self).wf(),
            multiplier@.valid(),
        ensures
            final(self).wf(),
            r matches Err(e) ==> (e == FormulaError::ArithmeticOverflow || weigh_error(
                old(self).molar(),
                old(self).mass(),
            ) == Some(e)) && *final(self) == *old(self),
            r is Ok ==> weigh_error(old(self).molar(), old(self).mass()) is None && no_entries(
                final(self).molar(),
            ) && same_amounts(
                final(self).mass(),
                mass_share(old(self).molar(), old(self).mass(), multiplier@),
            ),
            weigh_error(old(self).molar(), old(self).mass()) is None && share_fits(old(self).molar(), old(self).mass(), multiplier@) ==> r is Ok,
            weigh_error(old(self).molar(), old(self).mass()) is Some && error_fits(old(self).molar(), old(self).mass()) ==> r == Err::<(), FormulaError>(
                weigh_error(old(self).molar(), old(self).mass())->0,
            ),
            r is Ok ==> total(final(self).mass()).eqv(multiplier@),
    {
        let mass = self.mass_parts(&multiplier)?;
        proof {
            let sm = mass_share(self.molar(), self.mass(), multiplier@);
            lemma_mass_share_total(self.molar(), self.mass(), multiplier@);
            lemma_totals_congruent(slots_view(mass@), sm, ELEMENT_SLOTS as int);
            lemma_mass_share_valid(self.molar(), self.mass(), multiplier@);
            lemma_totals_valid(sm);
            lemma_eqv_trans(total(slots_view(mass@)), total(sm), multiplier@);
        }
        self.stoichiometry = empty_slots();
        self.wt_percent = mass;
        Ok(())
    }

    /// The composition as mass fractions that add up to exactly 100.
    pub fn to_wt_percent(&self) -> (r: Result<ChemicalFormula, FormulaError>)
        requires
            self.wf(),
        ensures
            r matches Ok(f) ==> f.wf() && wt_percent_error(self.molar(), self.mass()) is None
                && same_amounts(f.mass(), normalized(wt_form(self.molar(), self.mass())))
                && no_entries(f.molar()),
            r matches Ok(f) ==> !no_entries(f.mass()) ==> total(f.mass()).eqv(whole(100)),
            r matches Err(e) ==> e == FormulaError::ArithmeticOverflow || wt_percent_error(
                self.molar(),
                self.mass(),
            ) == Some(e),
            wt_percent_error(self.molar(), self.mass()) is None && (no_entries(self.molar()) || share_fits(
                self.molar(), self.mass(),
                whole(100),
            )) && (no_entries(wt_form(self.molar(), self.mass())) || normalizing_fits(wt_form(self.molar(), self.mass()))) ==> r is Ok,
            wt_error(self.molar(), self.mass()) is Some && error_fits(self.molar(), self.mass()) ==> r == Err::<ChemicalFormula, FormulaError>(
                wt_error(self.molar(), self.mass())->0,
            ),
    {
        let x = self.to_wt()?;
        let ghost wf = wt_form(self.molar(), self.mass());
        proof {
            if !no_entries(self.molar()) {
                lemma_molar_form_valid(self.molar(), self.mass());
                lemma_mass_entries_valid(
                    molar_form(self.molar(), self.mass()),
                    formula_weight(self.molar(), self.mass()),
                    whole(100),
                );
            }
            lemma_normalized_congruent(x.mass(), wf);
        }
        if has_no_entries(&x.wt_percent) {
            proof {
                lemma_same_amounts_trans(x.mass(), wf, normalized(wf));
            }
            return Ok(x);
        }
        proof {
            lemma_same_presence(x.mass(), wf);
            if normalizing_fits(wf) && !zero_total(wf) {
                lemma_normalizing_fits_transfer(x.mass(), wf);
            }
        }
        let mass = normalized_slots(&x.wt_percent)?;
        let result = ChemicalFormula { stoichiometry: x.stoichiometry, wt_percent: mass };
        proof {
            lemma_normalized_congruent(x.mass(), wf);
            lemma_normalized_valid(x.mass());
            lemma_same_amounts_trans(result.mass(), normalized(x.mass()), normalized(wf));
        }
        Ok(result)
    }

    /// The molar form scaled so that its amounts add up to exactly 100;
    /// the empty composition where there are no amounts.
    pub fn to_mol_percent(&self) -> (r: Result<ChemicalFormula, FormulaError>)
        requires
            self.wf(),
        ensures
            r matches Ok(f) ==> f.wf() && mol_percent_error(self.molar(), self.mass()) is None
                && same_amounts(f.molar(), normalized(molar_form(self.molar(), self.mass())))
                && no_entries(f.mass()),
            r matches Ok(f) ==> !no_entries(f.molar()) ==> total(f.molar()).eqv(whole(100)),
            r matches Err(e) ==> e == FormulaError::ArithmeticOverflow || mol_percent_error(
                self.molar(),
                self.mass(),
            ) == Some(e),
            mol_percent_error(self.molar(), self.mass()) is None && conversion_fits(self.molar(), self.mass()) && (no_entries(
                molar_form(self.molar(), self.mass()),
            ) || normalizing_fits(molar_form(self.molar(), self.mass()))) ==> r is Ok,
            molar_error(self.molar(), self.mass()) is Some && sums_fit(self.mass()) ==> r == Err::<
                ChemicalFormula,
                FormulaError,
            >(molar_error(self.molar(), self.mass())->0),
    {
        let c = self.to_molecular_formula()?;
        let ghost mf = molar_form(self.molar(), self.mass());
        proof {
            lemma_molar_form_valid(self.molar(), self.mass());
            lemma_normalized_congruent(c.molar(), mf);
        }
        if has_no_entries(&c.stoichiometry) {
            let e = ChemicalFormula::new();
            proof {
                assert(same_amounts(e.molar(), normalized(mf)));
            }
            return Ok(e);
        }
        proof {
            lemma_same_presence(c.molar(), mf);
            if normalizing_fits(mf) && !zero_total(mf) {
                lemma_normalizing_fits_transfer(c.molar(), mf);
            }
        }
        let molar = normalized_slots(&c.stoichiometry)?;
        let result = ChemicalFormula { stoichiometry: molar, wt_percent: c.wt_percent };
        proof {
            lemma_normalized_valid(c.molar());
            lemma_same_amounts_trans(result.molar(), normalized(c.molar()), normalized(mf));
        }
        Ok(result)
    }

    /// Adds `formula` into this composition, entry by entry: molar amounts
    /// to molar amounts, mass fractions to mass fractions. On an error the
    /// composition is unchanged.
    pub fn add_formula(&mut self, formula: &ChemicalFormula) -> (r: Result<(), FormulaError>)
        requires
            old(self).wf(),
            formula.wf(),
        ensures
            final(self).wf(),
            r matches Err(e) ==> e == FormulaError::ArithmeticOverflow && *final(self) == *old(
                self,
            ),
            r is Ok ==> same_amounts(final(self).molar(), merged(old(self).molar(), formula.molar()))
                && same_amounts(final(self).mass(), merged(old(self).mass(), formula.mass())),
            merge_fits(old(self).molar(), formula.molar()) && merge_fits(
                old(self).mass(),
                formula.mass(),
            ) ==> r is Ok,
            r is Ok ==> forall|i: int|
                0 <= i < ELEMENT_SLOTS ==> #[trigger] amount_or_zero(final(self).mass()[i]).eqv(
                    amount_or_zero(old(self).mass()[i]).plus(amount_or_zero(formula.mass()[i])),
                ),
    {
        let m = match merged_slots(&self.stoichiometry, &formula.stoichiometry) {
            Some(v) => v,
            None => {
                return Err(FormulaError::ArithmeticOverflow);
            },
        };
        let w = match merged_slots(&self.wt_percent, &formula.wt_percent) {
            Some(v) => v,
            None => {
                return Err(FormulaError::ArithmeticOverflow);
            },
        };
        let ghost before = self.mass();
        self.stoichiometry = m;
        self.wt_percent = w;
        proof {
            assert forall|i: int| 0 <= i < ELEMENT_SLOTS implies #[trigger] amount_or_zero(
                self.mass()[i],
            ).eqv(amount_or_zero(before[i]).plus(amount_or_zero(formula.mass()[i]))) by {
                assert(same_slot(self.mass()[i], merge_slot(before[i], formula.mass()[i])));
                lemma_merged_amount(self.mass()[i], before[i], formula.mass()[i]);
            }
        }
        Ok(())
    }
}

} // verus!

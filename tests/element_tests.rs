use chemical_formula::element::{ElementSymbol, FormulaError};
use chemical_formula::formula::ChemicalFormula;
use chemical_formula::rational::Rational;

fn as_f64(r: Rational) -> f64 {
    r.numer() as f64 / r.denom() as f64
}

fn whole_number(n: u64) -> Rational {
    Rational::from_integer(n)
}

fn close(a: f64, b: f64, eps: f64) -> bool {
    (a - b).abs() <= eps
}

#[test]
fn test_formula() {
    let mut formula = ChemicalFormula::new();

    formula.add_element(ElementSymbol::O, whole_number(1)).unwrap();
    formula.add_wt_percent(ElementSymbol::H, whole_number(10)).unwrap();
    formula.add_wt_percent(ElementSymbol::N, whole_number(20)).unwrap();

    let expected_o = 1.0;
    let expected_h = 10.0;
    let expected_n = 20.0;

    let molecular_formula = formula.to_molecular_formula().unwrap();
    assert!(molecular_formula.stoichiometry_of(ElementSymbol::O).is_some());
    assert!(molecular_formula.stoichiometry_of(ElementSymbol::H).is_some());

    let wt_ratio = formula.to_wt_percent().unwrap();

    assert_eq!(as_f64(molecular_formula.stoichiometry_of(ElementSymbol::O).unwrap()), expected_o);
    assert!(close(as_f64(wt_ratio.wt_percent_of(ElementSymbol::H).unwrap()), expected_h, 1e-6));
    assert!(close(as_f64(wt_ratio.wt_percent_of(ElementSymbol::N).unwrap()), expected_n, 1e-6));
}

#[test]
fn test_formula_no_element() {
    let mut formula = ChemicalFormula::new();

    formula.add_wt_percent(ElementSymbol::H, whole_number(10)).unwrap();
    formula.add_wt_percent(ElementSymbol::N, whole_number(20)).unwrap();

    let expected_h = 10.;
    let expected_n = 20.;
    let expected_h_after_wt_percent = 1. / 3. * 100.;
    let expected_n_after_wt_percent = 2. / 3. * 100.;

    let molecular_formula = formula.to_molecular_formula().unwrap();
    assert!(molecular_formula.stoichiometry_of(ElementSymbol::H).is_some());

    let wt_ratio = formula.to_wt().unwrap();

    assert!(close(as_f64(wt_ratio.wt_percent_of(ElementSymbol::H).unwrap()), expected_h, 1e-6));
    assert!(close(as_f64(wt_ratio.wt_percent_of(ElementSymbol::N).unwrap()), expected_n, 1e-6));

    let wt_percent = formula.to_wt_percent().unwrap();

    assert!(close(
        as_f64(wt_percent.wt_percent_of(ElementSymbol::H).unwrap()),
        expected_h_after_wt_percent,
        1e-6
    ));
    assert!(close(
        as_f64(wt_percent.wt_percent_of(ElementSymbol::N).unwrap()),
        expected_n_after_wt_percent,
        1e-6
    ));
}

#[test]
fn test_no_wt_percent() {
    let mut formula = ChemicalFormula::new();

    formula.add_element(ElementSymbol::O, whole_number(1)).unwrap();

    let expected_o = 1.0;

    let molecular_formula = formula.to_molecular_formula().unwrap();
    assert!(molecular_formula.stoichiometry_of(ElementSymbol::O).is_some());

    let wt_ratio = formula.to_wt_percent().unwrap();

    assert_eq!(as_f64(molecular_formula.stoichiometry_of(ElementSymbol::O).unwrap()), expected_o);
    assert!(close(as_f64(wt_ratio.wt_percent_of(ElementSymbol::O).unwrap()), 100., 1e-6));
}

#[test]
fn test_add_formula() {
    let mut formula = ChemicalFormula::new();
    let mut formula2 = ChemicalFormula::new();

    formula.add_element(ElementSymbol::O, whole_number(1)).unwrap();
    formula.add_wt_percent(ElementSymbol::H, whole_number(10)).unwrap();
    formula.add_wt_percent(ElementSymbol::N, whole_number(20)).unwrap();

    formula2.add_element(ElementSymbol::O, whole_number(1)).unwrap();
    formula2.add_wt_percent(ElementSymbol::H, whole_number(10)).unwrap();
    formula2.add_wt_percent(ElementSymbol::N, whole_number(20)).unwrap();

    let expected_o = 2.0;
    let expected_h = 20.0;
    let expected_n = 40.0;

    formula.add_formula(&formula2).unwrap();

    let molecular_formula = formula.to_molecular_formula().unwrap();
    assert!(molecular_formula.stoichiometry_of(ElementSymbol::H).is_some());

    let wt_ratio = formula.to_wt_percent().unwrap();

    assert_eq!(as_f64(molecular_formula.stoichiometry_of(ElementSymbol::O).unwrap()), expected_o);
    assert!(close(as_f64(wt_ratio.wt_percent_of(ElementSymbol::H).unwrap()), expected_h, 1e-6));
    assert!(close(as_f64(wt_ratio.wt_percent_of(ElementSymbol::N).unwrap()), expected_n, 1e-6));
}

#[test]
fn test_multiply_formula() {
    let mut formula = ChemicalFormula::new();
    let multiplier = whole_number(2);

    formula.add_element(ElementSymbol::O, whole_number(1)).unwrap();
    formula.add_wt_percent(ElementSymbol::H, whole_number(10)).unwrap();
    formula.add_wt_percent(ElementSymbol::N, whole_number(20)).unwrap();

    let expected_o = 2.0;
    let expected_h = 20.0;
    let expected_n = 40.0;

    formula.multiply(multiplier).unwrap();

    let molecular_formula = formula.to_molecular_formula().unwrap();
    assert!(molecular_formula.stoichiometry_of(ElementSymbol::H).is_some());

    let wt_ratio = formula.to_wt_percent().unwrap();

    assert_eq!(as_f64(molecular_formula.stoichiometry_of(ElementSymbol::O).unwrap()), expected_o);
    assert!(close(as_f64(wt_ratio.wt_percent_of(ElementSymbol::H).unwrap()), expected_h, 1e-6));
    assert!(close(as_f64(wt_ratio.wt_percent_of(ElementSymbol::N).unwrap()), expected_n, 1e-6));
}

#[test]
fn test_wt_multiply_formula() {
    let mut formula = ChemicalFormula::new();
    let multiplier = whole_number(2);

    formula.add_element(ElementSymbol::O, whole_number(1)).unwrap();
    formula.add_wt_percent(ElementSymbol::H, whole_number(10)).unwrap();
    formula.add_wt_percent(ElementSymbol::N, whole_number(20)).unwrap();

    let expected_h = 10.0 * 2.0 / 100.0;
    let expected_n = 20.0 * 2.0 / 100.0;

    let expected_h_after_wt_ratio = 10.;
    let expected_n_after_wt_ratio = 20.;

    formula.multiply_wt_percent(multiplier).unwrap();

    assert!(close(as_f64(formula.wt_percent_of(ElementSymbol::H).unwrap()), expected_h, 1e-6));
    assert!(close(as_f64(formula.wt_percent_of(ElementSymbol::N).unwrap()), expected_n, 1e-6));

    let wt_ratio = formula.to_wt_percent().unwrap();

    assert!(close(
        as_f64(wt_ratio.wt_percent_of(ElementSymbol::H).unwrap()),
        expected_h_after_wt_ratio,
        1e-6
    ));
    assert!(close(
        as_f64(wt_ratio.wt_percent_of(ElementSymbol::N).unwrap()),
        expected_n_after_wt_ratio,
        1e-6
    ));
}

#[test]
fn element_codes_resolve() {
    assert_eq!(ElementSymbol::from_str("H"), ElementSymbol::H);
    assert_eq!(ElementSymbol::from_str("He"), ElementSymbol::He);
    assert_eq!(ElementSymbol::from_str("Og"), ElementSymbol::Og);
    assert_eq!(ElementSymbol::from_str("Pt"), ElementSymbol::Pt);
    assert_eq!(ElementSymbol::from_str("Xx"), ElementSymbol::Unknown);
    assert_eq!(ElementSymbol::from_str(""), ElementSymbol::Unknown);
    assert_eq!(ElementSymbol::from_str("h"), ElementSymbol::Unknown);
    assert_eq!(ElementSymbol::from_str("Hee"), ElementSymbol::Unknown);
}

#[test]
fn atomic_weights_are_exact() {
    let si = ElementSymbol::Si.atomic_weight();
    assert_eq!((si.numer(), si.denom()), (5617, 200));
    let f = ElementSymbol::F.atomic_weight();
    assert_eq!((f.numer(), f.denom()), (18998403163, 1000000000));
    assert!(ElementSymbol::Unknown.atomic_weight().is_zero());
    assert_eq!(ElementSymbol::Og.number(), 118);
    assert_eq!(ElementSymbol::from_number(79), ElementSymbol::Au);
}

#[test]
fn add_is_entrywise_and_exact() {
    let mut a = ChemicalFormula::new();
    a.add_wt_percent(ElementSymbol::Pt, Rational::new(5, 2).unwrap()).unwrap();
    a.add_element(ElementSymbol::O, whole_number(1)).unwrap();
    let mut b = ChemicalFormula::new();
    b.add_wt_percent(ElementSymbol::Pt, Rational::new(1, 3).unwrap()).unwrap();
    b.add_wt_percent(ElementSymbol::Au, whole_number(7)).unwrap();
    a.add_formula(&b).unwrap();
    let pt = a.wt_percent_of(ElementSymbol::Pt).unwrap();
    assert_eq!((pt.numer(), pt.denom()), (17, 6));
    let au = a.wt_percent_of(ElementSymbol::Au).unwrap();
    assert_eq!((au.numer(), au.denom()), (7, 1));
    assert!(a.wt_percent_of(ElementSymbol::O).is_none());
    assert_eq!(a.elements(), vec![ElementSymbol::O, ElementSymbol::Pt, ElementSymbol::Au]);
}

#[test]
fn weight_percent_overflow_boundary() {
    let mut over = ChemicalFormula::new();
    over.add_wt_percent(ElementSymbol::H, whole_number(60)).unwrap();
    over.add_wt_percent(ElementSymbol::N, Rational::new(40000001, 1000000).unwrap()).unwrap();
    assert_eq!(over.to_molecular_formula().unwrap_err(), FormulaError::WeightPercentOverflow);

    let mut under = ChemicalFormula::new();
    under.add_wt_percent(ElementSymbol::H, whole_number(60)).unwrap();
    under.add_wt_percent(ElementSymbol::N, Rational::new(39999999, 1000000).unwrap()).unwrap();
    assert!(under.to_molecular_formula().is_ok());
}

#[test]
fn exact_hundred_percent_is_indeterminate() {
    let mut f = ChemicalFormula::new();
    f.add_wt_percent(ElementSymbol::H, whole_number(60)).unwrap();
    f.add_wt_percent(ElementSymbol::N, whole_number(40)).unwrap();
    assert_eq!(f.to_molecular_formula().unwrap_err(), FormulaError::IndeterminateScale);
    assert_eq!(f.molecular_weight().unwrap_err(), FormulaError::IndeterminateScale);
}

#[test]
fn unknown_element_mass_is_indeterminate() {
    let mut f = ChemicalFormula::new();
    f.add_wt_percent(ElementSymbol::Unknown, whole_number(10)).unwrap();
    assert_eq!(f.to_molecular_formula().unwrap_err(), FormulaError::IndeterminateScale);
}

#[test]
fn zero_molecular_weight_is_indeterminate() {
    let mut f = ChemicalFormula::new();
    f.add_element(ElementSymbol::O, whole_number(0)).unwrap();
    assert_eq!(f.to_wt().unwrap_err(), FormulaError::IndeterminateScale);
    let mut g = ChemicalFormula::new();
    assert_eq!(g.multiply_wt_percent(whole_number(50)).unwrap_err(), FormulaError::IndeterminateScale);
}

#[test]
fn molar_conversion_accumulates() {
    // O is both a molar entry and a mass fraction: the converted amount is
    // added to the molar one.
    let mut f = ChemicalFormula::new();
    f.add_element(ElementSymbol::O, whole_number(1)).unwrap();
    f.add_wt_percent(ElementSymbol::O, whole_number(50)).unwrap();
    let m = f.to_molecular_formula().unwrap();
    // anchor 15.999, residue 50: 1 + 15.999 * 50 / (15.999 * 50) = 2
    let o = m.stoichiometry_of(ElementSymbol::O).unwrap();
    assert_eq!((o.numer(), o.denom()), (2, 1));
    assert!(m.wt_percent_of(ElementSymbol::O).is_none());
}

#[test]
fn molar_conversion_without_anchor() {
    let mut f = ChemicalFormula::new();
    f.add_wt_percent(ElementSymbol::H, whole_number(10)).unwrap();
    f.add_wt_percent(ElementSymbol::N, whole_number(20)).unwrap();
    let m = f.to_molecular_formula().unwrap();
    // 100 * 10 / (1.008 * 70) and 100 * 20 / (14.007 * 70)
    assert!(close(as_f64(m.stoichiometry_of(ElementSymbol::H).unwrap()), 1000.0 / 70.56, 1e-9));
    assert!(close(as_f64(m.stoichiometry_of(ElementSymbol::N).unwrap()), 2000.0 / 980.49, 1e-9));
    let p = f.to_mol_percent().unwrap();
    let h = as_f64(p.stoichiometry_of(ElementSymbol::H).unwrap());
    let n = as_f64(p.stoichiometry_of(ElementSymbol::N).unwrap());
    assert!(close(h + n, 100.0, 1e-9));
    assert!(close(h / n, (10.0 / 1.008) / (20.0 / 14.007), 1e-9));
}

#[test]
fn mol_percent_of_empty_is_empty() {
    let f = ChemicalFormula::new();
    let p = f.to_mol_percent().unwrap();
    assert!(p.elements().is_empty());
    let w = f.to_wt_percent().unwrap();
    assert!(w.elements().is_empty());
}

#[test]
fn weight_percent_sums_to_hundred() {
    let mut f = ChemicalFormula::new();
    f.add_element(ElementSymbol::Fe, whole_number(2)).unwrap();
    f.add_element(ElementSymbol::O, whole_number(3)).unwrap();
    let w = f.to_wt_percent().unwrap();
    let total = w
        .wt_percent_of(ElementSymbol::Fe)
        .unwrap()
        .plus(&w.wt_percent_of(ElementSymbol::O).unwrap())
        .unwrap();
    assert_eq!((total.numer(), total.denom()), (100, 1));
    assert!(close(as_f64(w.wt_percent_of(ElementSymbol::Fe).unwrap()), 69.94, 0.01));
}

#[test]
fn weight_percent_round_trip_gives_molar_ratios() {
    let mut f = ChemicalFormula::new();
    f.add_element(ElementSymbol::Fe, whole_number(2)).unwrap();
    f.add_element(ElementSymbol::O, whole_number(3)).unwrap();
    let w = f.to_wt_percent().unwrap();
    let fe = w.wt_percent_of(ElementSymbol::Fe).unwrap().over(&ElementSymbol::Fe.atomic_weight()).unwrap();
    let o = w.wt_percent_of(ElementSymbol::O).unwrap().over(&ElementSymbol::O.atomic_weight()).unwrap();
    let ratio = o.over(&fe).unwrap();
    assert_eq!((ratio.numer(), ratio.denom()), (3, 2));
    assert!(close(as_f64(o) / as_f64(fe), 1.5, 1e-6));
}

#[test]
fn molecular_weight_of_water() {
    let mut f = ChemicalFormula::new();
    f.add_element(ElementSymbol::H, whole_number(2)).unwrap();
    f.add_element(ElementSymbol::O, whole_number(1)).unwrap();
    let mw = f.molecular_weight().unwrap();
    assert_eq!((mw.numer(), mw.denom()), (3603, 200));
}

#[test]
fn error_descriptions() {
    assert_eq!(FormulaError::WeightPercentOverflow.description(), "Weight percent overflow");
    assert_eq!(FormulaError::FileParseError.description(), "File parse error");
}

#[test]
fn sum_with_large_denominators_that_fits() {
    // Both terms have a denominator near 2^63; their cross products exceed
    // 128 bits, yet the sum is exactly 3.
    let p: u64 = 11_000_000_000_000_000_001;
    let x = Rational::new(16_500_000_000_000_000_001, p).unwrap();
    let y = Rational::new(16_500_000_000_000_000_002, p).unwrap();
    let s = x.plus(&y).unwrap();
    assert_eq!((s.numer(), s.denom()), (3, 1));
}

#[test]
fn results_are_in_lowest_terms() {
    let r = Rational::new(6, 4).unwrap();
    assert_eq!((r.numer(), r.denom()), (3, 2));
    let big = Rational::new(u64::MAX, 1).unwrap();
    assert!(big.plus(&Rational::from_integer(1)).is_none());
    let t = Rational::new(u64::MAX, 3).unwrap().times(&Rational::new(3, u64::MAX).unwrap()).unwrap();
    assert_eq!((t.numer(), t.denom()), (1, 1));
}

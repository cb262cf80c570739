use chemical_formula::element::{ElementSymbol, FormulaError};
use chemical_formula::parser::{build_formula, parse_formula, Body, ChemicalFormulaParser, Suffix};
use chemical_formula::rational::Rational;

fn as_f64(r: Rational) -> f64 {
    r.numer() as f64 / r.denom() as f64
}

fn close(a: f64, b: f64, eps: f64) -> bool {
    (a - b).abs() <= eps
}

const TOL: f64 = 1e-10;

#[test]
fn test_chmical_formula_parser() {
    let formula_str = "SiO2";

    let expected_mw = 60.083;
    let expected_si = 1.0;
    let expected_o = 2.0;

    let formula = parse_formula(formula_str).unwrap();

    assert!(close(as_f64(formula.stoichiometry_of(ElementSymbol::O).unwrap()), expected_o, f64::EPSILON));
    assert!(close(as_f64(formula.stoichiometry_of(ElementSymbol::Si).unwrap()), expected_si, f64::EPSILON));
    assert!(close(as_f64(formula.molecular_weight().unwrap()), expected_mw, f64::EPSILON));
}

#[test]
fn test_chmical_formula_parser_wt_percent() {
    let formula_str = "Pt5wt%/SiO2";

    let expected_si = 1.0;
    let expected_o = 2.0;
    let expected_pt_wt = 5.0;
    let expected_sio2_wt = 100.0 - expected_pt_wt;

    let formula = parse_formula(formula_str).unwrap();

    assert!(close(as_f64(formula.stoichiometry_of(ElementSymbol::O).unwrap()), expected_o, f64::EPSILON));
    assert!(close(as_f64(formula.stoichiometry_of(ElementSymbol::Si).unwrap()), expected_si, f64::EPSILON));

    let wt_percent = formula.to_wt_percent().unwrap();
    assert!(close(as_f64(wt_percent.wt_percent_of(ElementSymbol::Pt).unwrap()), expected_pt_wt, f64::EPSILON));

    let si_o = wt_percent
        .wt_percent_of(ElementSymbol::Si)
        .unwrap()
        .plus(&wt_percent.wt_percent_of(ElementSymbol::O).unwrap())
        .unwrap();
    assert!(close(as_f64(si_o), expected_sio2_wt, f64::EPSILON));
}

#[test]
fn test_chmical_formula_parser_nested() {
    let formula_str = "(Pt5wt%SiO2)50wt%(Au5wt%/SiO2)50wt%";

    let expected_pt_wt = 5.0 / 2.;
    let expected_au_wt = 5.0 / 2.;
    let expected_sio2_wt = 100.0 - expected_pt_wt - expected_au_wt;

    let formula = parse_formula(formula_str).unwrap();

    let wt_percent = formula.to_wt_percent().unwrap();
    assert!(close(as_f64(wt_percent.wt_percent_of(ElementSymbol::Pt).unwrap()), expected_pt_wt, TOL));

    let si_o = wt_percent
        .wt_percent_of(ElementSymbol::Si)
        .unwrap()
        .plus(&wt_percent.wt_percent_of(ElementSymbol::O).unwrap())
        .unwrap();
    assert!(close(as_f64(si_o), expected_sio2_wt, TOL));

    assert!(close(as_f64(wt_percent.wt_percent_of(ElementSymbol::Au).unwrap()), expected_au_wt, TOL));
}

#[test]
fn silica_scenario() {
    let f = parse_formula("SiO2").unwrap();
    assert_eq!(f.elements(), vec![ElementSymbol::O, ElementSymbol::Si]);
    assert!(f.wt_percent_of(ElementSymbol::Si).is_none());
    let mw = f.molecular_weight().unwrap();
    assert_eq!((mw.numer(), mw.denom()), (60083, 1000));
}

#[test]
fn supported_platinum_scenario() {
    let f = parse_formula("Pt5wt%/SiO2").unwrap();
    let pt = f.wt_percent_of(ElementSymbol::Pt).unwrap();
    assert_eq!((pt.numer(), pt.denom()), (5, 1));
    assert!(f.stoichiometry_of(ElementSymbol::Pt).is_none());
    let w = f.to_wt_percent().unwrap();
    assert!(close(as_f64(w.wt_percent_of(ElementSymbol::Pt).unwrap()), 5.0, 1e-12));
    assert!(close(as_f64(w.wt_percent_of(ElementSymbol::Si).unwrap()), 44.41, 0.01));
    assert!(close(as_f64(w.wt_percent_of(ElementSymbol::O).unwrap()), 50.59, 0.01));
    let m = f.to_molecular_formula().unwrap();
    assert!(close(as_f64(m.stoichiometry_of(ElementSymbol::Pt).unwrap()), 0.016209751480873558, 1e-12));
}

#[test]
fn composite_scenario() {
    let f = parse_formula("(Pt5wt%/SiO2)50wt%(CeO2)50wt%").unwrap();
    let w = f.to_wt_percent().unwrap();
    assert!(close(as_f64(w.wt_percent_of(ElementSymbol::Pt).unwrap()), 2.5, 1e-12));
    assert!(close(as_f64(w.wt_percent_of(ElementSymbol::Ce).unwrap()), 40.70, 0.01));
    assert!(close(as_f64(w.wt_percent_of(ElementSymbol::Si).unwrap()), 22.20, 0.01));
    assert!(close(as_f64(w.wt_percent_of(ElementSymbol::O).unwrap()), 34.59, 0.01));
    let mut total = Rational::from_integer(0);
    for e in w.elements() {
        total = total.plus(&w.wt_percent_of(e).unwrap()).unwrap();
    }
    assert_eq!((total.numer(), total.denom()), (100, 1));
}

#[test]
fn mass_only_formula_scenario() {
    let f = parse_formula("H10wt%N20wt%").unwrap();
    let w = f.to_wt_percent().unwrap();
    assert!(close(as_f64(w.wt_percent_of(ElementSymbol::H).unwrap()), 100.0 / 3.0, 1e-9));
    assert!(close(as_f64(w.wt_percent_of(ElementSymbol::N).unwrap()), 200.0 / 3.0, 1e-9));
    let p = f.to_mol_percent().unwrap();
    let h = as_f64(p.stoichiometry_of(ElementSymbol::H).unwrap());
    let n = as_f64(p.stoichiometry_of(ElementSymbol::N).unwrap());
    let h_moles = 10.0 / 1.008;
    let n_moles = 20.0 / 14.007;
    assert!(close(h, 100.0 * h_moles / (h_moles + n_moles), 1e-9));
    assert!(close(n, 100.0 * n_moles / (h_moles + n_moles), 1e-9));
}

#[test]
fn multipliers_and_decimals() {
    let f = parse_formula("(H2O)2.5").unwrap();
    let h = f.stoichiometry_of(ElementSymbol::H).unwrap();
    assert_eq!((h.numer(), h.denom()), (5, 1));
    let o = f.stoichiometry_of(ElementSymbol::O).unwrap();
    assert_eq!((o.numer(), o.denom()), (5, 2));
    let g = parse_formula("Fe0.5Fe1.5").unwrap();
    let fe = g.stoichiometry_of(ElementSymbol::Fe).unwrap();
    assert_eq!((fe.numer(), fe.denom()), (2, 1));
}

#[test]
fn parse_errors() {
    assert_eq!(parse_formula("").unwrap_err(), FormulaError::FileParseError);
    assert_eq!(parse_formula("(SiO2").unwrap_err(), FormulaError::FileParseError);
    assert_eq!(parse_formula("SiO2)").unwrap_err(), FormulaError::FileParseError);
    assert_eq!(parse_formula("/SiO2").unwrap_err(), FormulaError::FileParseError);
    assert_eq!(parse_formula("Pt5wt%/").unwrap_err(), FormulaError::FileParseError);
    assert_eq!(parse_formula("()").unwrap_err(), FormulaError::FileParseError);
    assert_eq!(parse_formula("2O").unwrap_err(), FormulaError::FileParseError);
    assert_eq!(parse_formula("Xx2").unwrap_err(), FormulaError::UnknownElement);
    assert_eq!(parse_formula("H99999999999999999999").unwrap_err(), FormulaError::ArithmeticOverflow);
}

#[test]
fn nested_overflow_is_reported() {
    assert_eq!(
        parse_formula("(H60wt%N50wt%)50wt%").unwrap_err(),
        FormulaError::WeightPercentOverflow
    );
    assert_eq!(
        parse_formula("(H50wt%N50wt%)50wt%").unwrap_err(),
        FormulaError::IndeterminateScale
    );
}

#[test]
fn parse_tree_keeps_the_text() {
    let t = ChemicalFormulaParser::parse("Pt5wt%/SiO2").unwrap();
    assert_eq!(t.len(), 3);
    assert!(!t[0].slash);
    assert!(matches!(t[0].body, Body::Element(ElementSymbol::Pt)));
    assert!(matches!(&t[0].suffix, Suffix::Percent(n) if n.whole == vec![b'5']));
    assert!(t[1].slash);
    assert!(matches!(t[2].suffix, Suffix::Count(_)));
    let nested = ChemicalFormulaParser::parse("(CeO2)50wt%").unwrap();
    assert!(matches!(&nested[0].body, Body::Nested(inner) if inner.len() == 2));
    let f = build_formula(&nested).unwrap();
    let ce = f.wt_percent_of(ElementSymbol::Ce).unwrap();
    assert!(close(as_f64(ce), 50.0 * 140.116 / 172.114, 1e-9));
}

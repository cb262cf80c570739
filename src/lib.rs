//! Parsing of chemical formulas, with weight percentages and nested
//! composites, and exact conversion between molar and mass composition.
//!
//! A formula such as `SiO2`, `Pt5wt%/SiO2` or `(Pt5wt%/SiO2)50wt%(CeO2)50wt%`
//! is read by [`parser::ChemicalFormulaParser`] into a parse tree, which
//! [`parser::build_formula`] folds into a [`formula::ChemicalFormula`]: per
//! element a molar amount and a mass fraction in percent. The composition
//! converts to molar form, to mass fractions, to percentages by mole or by
//! mass, and gives its molecular weight.
//!
//! Every amount is an exact fraction ([`rational::Rational`]), and atomic
//! weights are the exact decimals of the table, so the conversions are exact
//! and their contracts state the results exactly. An operation whose exact
//! result does not fit 64-bit numerators and denominators fails with
//! [`element::FormulaError::ArithmeticOverflow`]; every contract says when
//! that cannot happen. Where each value an operation computes fits
//! ([`rational::fits`], and predicates such as [`formula::conversion_fits`]
//! built on it), the operation succeeds, or fails with an error of the
//! formula's own.
//!
//! Choices where the arithmetic alone leaves a case open:
//! - an element code that names no element is a parse error
//!   ([`element::FormulaError::UnknownElement`]), not a silent
//!   [`element::ElementSymbol::Unknown`];
//! - a conversion that would divide by zero fails with
//!   [`element::FormulaError::IndeterminateScale`]: mass fractions that add
//!   up to exactly 100, a mass fraction on the sentinel element, a molecular
//!   weight or a total of zero;
//! - where a composition has no molar part, converting its mass fractions
//!   to molar amounts takes the molar part to weigh
//!   [`formula::DEFAULT_ANCHOR_WEIGHT`] (100) mass units.
pub mod rational;
pub mod element;
pub mod formula;
pub mod parser;
pub mod prelude;

//! The types and functions most uses of the library need.
pub use crate::element::{ElementSymbol, FormulaError};
pub use crate::formula::ChemicalFormula;
pub use crate::parser::{parse_formula, ChemicalFormulaParser};
pub use crate::rational::Rational;

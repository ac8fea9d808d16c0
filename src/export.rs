//! How density readings are written in exported tables.
use vstd::prelude::*;

verus! {

/// Decimal separator used for numbers in an export.
#[derive(Clone, Copy, Debug, PartialEq, Eq, Structural)]
pub enum ExportDecimalFormat {
    Dot,
    Comma,
}

impl Default for ExportDecimalFormat {
    fn default() -> (r: ExportDecimalFormat)
        ensures
            r == ExportDecimalFormat::Dot,
    {
        ExportDecimalFormat::Dot
    }
}

impl ExportDecimalFormat {
    /// The character written between the integer and the fractional digits.
    pub fn separator(&self) -> (r: char)
        ensures
            *self == ExportDecimalFormat::Dot ==> r == '.',
            *self == ExportDecimalFormat::Comma ==> r == ',',
    {
        match self {
            ExportDecimalFormat::Dot => '.',
            ExportDecimalFormat::Comma => ',',
        }
    }

    /// The name shown for the format: `Dot (.)` or `Comma (,)`.
    pub fn to_string(&self) -> (r: String)
        ensures
            *self == ExportDecimalFormat::Dot ==> r@ == "Dot (.)"@,
            *self == ExportDecimalFormat::Comma ==> r@ == "Comma (,)"@,
    {
        match self {
            ExportDecimalFormat::Dot => "Dot (.)".to_owned(),
            ExportDecimalFormat::Comma => "Comma (,)".to_owned(),
        }
    }
}

} // verus!

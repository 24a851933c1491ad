//! What can go wrong while reading a theme.
use vstd::prelude::*;

verus! {

/// A problem found in a theme document.
#[derive(Clone, Debug, PartialEq, Eq)]
pub enum ThemeError {
    /// A color token that is neither a palette name nor `#RRGGBB`.
    MalformedColor(String),
    /// A value that should be a string is something else.
    UnrecognizedValue,
    /// A style table holds a key other than `fg`, `bg`, `underline`, `modifiers`.
    InvalidAttribute(String),
    /// The `underline` attribute is not a table.
    UnderlineNotTable,
    /// The `underline` table holds a key other than `color` and `style`.
    InvalidUnderlineAttribute(String),
    /// An underline style name that is not known.
    InvalidUnderlineStyle(String),
    /// The `modifiers` attribute is not an array.
    ModifiersNotArray,
    /// A modifier name that is not known.
    InvalidModifier(String),
    /// The top level of a theme document is not a table.
    DocumentNotATable,
    /// No document could be found for the named theme.
    ThemeNotFound(String),
    /// The `inherits` entry of a document is not a string.
    InheritsNotString,
}

/// The mathematical form of a `ThemeError`.
pub enum Fault {
    MalformedColor(Seq<char>),
    UnrecognizedValue,
    InvalidAttribute(Seq<char>),
    UnderlineNotTable,
    InvalidUnderlineAttribute(Seq<char>),
    InvalidUnderlineStyle(Seq<char>),
    ModifiersNotArray,
    InvalidModifier(Seq<char>),
    DocumentNotATable,
    ThemeNotFound(Seq<char>),
    InheritsNotString,
}

impl View for ThemeError {
    type V = Fault;

    open spec fn view(&self) -> Fault {
        match self {
            ThemeError::MalformedColor(s) => Fault::MalformedColor(s@),
            ThemeError::UnrecognizedValue => Fault::UnrecognizedValue,
            ThemeError::InvalidAttribute(s) => Fault::InvalidAttribute(s@),
            ThemeError::UnderlineNotTable => Fault::UnderlineNotTable,
            ThemeError::InvalidUnderlineAttribute(s) => Fault::InvalidUnderlineAttribute(s@),
            ThemeError::InvalidUnderlineStyle(s) => Fault::InvalidUnderlineStyle(s@),
            ThemeError::ModifiersNotArray => Fault::ModifiersNotArray,
            ThemeError::InvalidModifier(s) => Fault::InvalidModifier(s@),
            ThemeError::DocumentNotATable => Fault::DocumentNotATable,
            ThemeError::ThemeNotFound(s) => Fault::ThemeNotFound(s@),
            ThemeError::InheritsNotString => Fault::InheritsNotString,
        }
    }
}

/// A result with its error in mathematical form.
pub open spec fn faulted<T>(r: Result<T, ThemeError>) -> Result<T, Fault> {
    match r {
        Ok(t) => Ok(t),
        Err(e) => Err(e@),
    }
}

impl ThemeError {
    /// A one-line description of the problem.
    pub fn message(&self) -> String {
        match self {
            ThemeError::MalformedColor(_) => "Theme: malformed color".to_owned(),
            ThemeError::UnrecognizedValue => "Theme: unrecognized value".to_owned(),
            ThemeError::InvalidAttribute(_) => "Theme: invalid style attribute".to_owned(),
            ThemeError::UnderlineNotTable => "Theme: underline must be table".to_owned(),
            ThemeError::InvalidUnderlineAttribute(_) => "Theme: invalid underline attribute".to_owned(),
            ThemeError::InvalidUnderlineStyle(_) => "Theme: invalid underline style".to_owned(),
            ThemeError::ModifiersNotArray => "Theme: modifiers should be an array".to_owned(),
            ThemeError::InvalidModifier(_) => "Theme: invalid modifier".to_owned(),
            ThemeError::DocumentNotATable => "Theme: expected the document to be a table".to_owned(),
            ThemeError::ThemeNotFound(_) => "Theme: not found".to_owned(),
            ThemeError::InheritsNotString => "Theme: expected 'inherits' to be a string".to_owned(),
        }
    }
}

} // verus!

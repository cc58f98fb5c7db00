//! What can go wrong while a sheet is built or the data files are read.

use vstd::prelude::*;

verus! {

/// The colour classes of anchor pixels in an offsets image.
#[derive(Clone, Copy, Debug, PartialEq, Eq, Structural)]
pub enum AnchorColor {
    Black,
    Red,
    Green,
    Blue,
    White,
}

/// Why a sheet could not be built.
#[derive(Clone, Debug, PartialEq, Eq)]
pub enum SheetError {
    /// An animation has its own frames but lacks a usable frame width or
    /// frame height. Holds the animation's name.
    InvalidAnim(String),
    /// A frame cell of the grid does not lie inside both images of an
    /// animation. Holds the position of that animation in the input.
    CellOutOfBounds(usize),
    /// A frame cell of an offsets image holds two pixels of one anchor colour.
    MultiplePixels(AnchorColor),
    /// The sheet would be larger than an image can be.
    TooLarge,
    /// An image does not fit into the sheet at its place. Holds the name of
    /// the image.
    DimensionMismatch(String),
    /// The palette has more colours than the sheet is wide.
    PaletteTooWide,
    /// The image could not be encoded.
    Encode,
}

/// Why tab-separated text could not be read.
#[derive(Clone, Debug, PartialEq, Eq)]
pub enum CsvError {
    /// The text itself is broken: bytes that are no text, or records of
    /// different lengths. Holds the reader's message.
    Read(String),
    /// The record at this place, counted from 0, lacks a column or holds a
    /// value that cannot be read.
    Deserialize(usize),
}

/// Why the data files could not be read.
#[derive(Clone, Debug, PartialEq, Eq)]
pub enum DataReadError {
    /// A JSON file could not be read.
    SerdeJson(String),
    /// A tab-separated file could not be read.
    SerdeCsv(CsvError),
    /// A file could not be opened or read.
    Io(String),
    /// A credit id occurs twice in the list of credit names.
    CreditsDuplicateCreditId(String),
    /// The animation data of some forms cannot be used: for each, the
    /// monster, the form path and the reason.
    AnimDataXmlErrors(Vec<(i32, Vec<i32>, String)>),
}

} // verus!

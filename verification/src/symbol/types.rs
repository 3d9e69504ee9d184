//! The typed data model for symbol-library files.

use crate::num::Decimal;
use vstd::prelude::*;

verus! {

/// A point in 2D space.
#[derive(Debug, Clone, PartialEq)]
pub struct Point {
    pub x: Decimal,
    pub y: Decimal,
}

/// One symbol of a library: its base name (the format's variant suffix
/// stripped) and its description, empty when the library gives none.
#[derive(Debug, Clone, PartialEq)]
pub struct Symbol {
    pub name: String,
    pub description: String,
}

pub ghost struct SymbolV {
    pub name: Seq<char>,
    pub description: Seq<char>,
}

impl View for Symbol {
    type V = SymbolV;

    open spec fn view(&self) -> SymbolV {
        SymbolV { name: self.name@, description: self.description@ }
    }
}

impl DeepView for Symbol {
    type V = SymbolV;

    open spec fn deep_view(&self) -> SymbolV {
        self.view()
    }
}

/// Font properties for text elements.
#[derive(Debug, Clone, PartialEq)]
pub struct Font {
    pub size: Point,
    pub thickness: Option<Decimal>,
    pub bold: bool,
    pub italic: bool,
}

/// Text effects including font and styling.
#[derive(Debug, Clone, PartialEq)]
pub struct Effects {
    pub font: Font,
    pub justify: Option<String>,
    pub hidden: bool,
}

/// Color representation.
#[derive(Debug, Clone, PartialEq)]
pub struct Color {
    pub r: u8,
    pub g: u8,
    pub b: u8,
    pub a: u8,
}

/// Stroke properties for drawing elements.
#[derive(Debug, Clone, PartialEq)]
pub struct Stroke {
    pub width: Decimal,
    pub stroke_type: String,
    pub color: Option<Color>,
}

/// Fill properties for drawing elements.
#[derive(Debug, Clone, PartialEq)]
pub struct Fill {
    pub fill_type: String,
    pub color: Option<Color>,
}

} // verus!

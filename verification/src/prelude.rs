//! Convenient re-exports of the most commonly used items.

pub use crate::error::KicadError;
pub use crate::num::Decimal;
pub use crate::pcb::parse_layers_only;
pub use crate::pcb::types::{
    Arc, Footprint, Graphic, Layer, Pad, PcbFile, Point, Rect, Text, Track, Via, Zone,
};
pub use crate::symbol::symbol_parser::parse_symbol_lib;
pub use crate::symbol::types::Symbol;

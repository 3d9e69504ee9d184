//! Parsers for KiCad's parenthesized board-layout (`.kicad_pcb`) and
//! symbol-library (`.kicad_sym`) text formats, producing a typed in-memory
//! model: layers, footprints with pads, tracks, vias, zones, texts and
//! graphics for boards; name and description entries for symbol libraries.
//!
//! Unrecognized record kinds are skipped, never rejected, so files written by
//! newer format revisions still parse their known parts.

pub mod engine;
pub mod error;
pub mod num;
pub mod pcb;
pub mod prelude;
pub mod stats;
pub mod symbol;
pub mod text;
pub mod token;

pub use error::KicadError;
pub use num::Decimal;
pub use pcb::detail_parser::DetailParser;
pub use pcb::parse_layers_only;
pub use pcb::pcb_parser::PcbParser;
pub use pcb::types::{
    Arc, Footprint, Graphic, Layer, Pad, PcbFile, Point, Rect, Text, Track, Via, Zone,
};
pub use symbol::symbol_parser::parse_symbol_lib;
pub use symbol::types::Symbol;

use vstd::prelude::*;

verus! {

/// Returns the library's version string.
pub fn version() -> (r: &'static str)
    ensures
        r@ =~= "0.1.0"@,
{
    "0.1.0"
}

} // verus!

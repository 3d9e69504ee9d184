//! Board-layout file parsing: the full structural grammar, the fast
//! layer-only pass, and raw-text detail extraction.

pub mod detail_parser;
pub mod pcb_parser;
pub mod simple_parser;
pub mod types;

pub use detail_parser::DetailParser;
pub use pcb_parser::PcbParser;
pub use simple_parser::parse_layers_only;
pub use types::{
    Arc, Footprint, Graphic, Layer, Pad, PcbFile, Point, Rect, Text, Track, Via, Zone,
};

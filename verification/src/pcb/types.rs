//! The typed data model for board-layout files.
//!
//! Every entity is built once per parse call and returned as an immutable
//! snapshot. Coordinates, sizes and angles are exact [`Decimal`] values.
//! Each type has a mathematical view (`...V`) that the parsing contracts
//! speak of: text as `Seq<char>`, decimals as their millionths value,
//! vectors as `Seq`, and the layer table as a `Map` keyed by layer ID.

use crate::num::Decimal;
use std::collections::HashMap;
use vstd::prelude::*;

verus! {

/// A point in 2D space.
#[derive(Debug, Clone, PartialEq)]
pub struct Point {
    pub x: Decimal,
    pub y: Decimal,
}

pub ghost struct PointV {
    pub x: int,
    pub y: int,
}

impl View for Point {
    type V = PointV;

    open spec fn view(&self) -> PointV {
        PointV { x: self.x@, y: self.y@ }
    }
}

impl DeepView for Point {
    type V = PointV;

    open spec fn deep_view(&self) -> PointV {
        self.view()
    }
}

/// An axis-aligned rectangle given by two corners.
#[derive(Debug, Clone, PartialEq)]
pub struct Rect {
    pub start: Point,
    pub end: Point,
}

pub ghost struct RectV {
    pub start: PointV,
    pub end: PointV,
}

impl View for Rect {
    type V = RectV;

    open spec fn view(&self) -> RectV {
        RectV { start: self.start@, end: self.end@ }
    }
}

impl DeepView for Rect {
    type V = RectV;

    open spec fn deep_view(&self) -> RectV {
        self.view()
    }
}

/// A circular arc given by center, angles and radius.
#[derive(Debug, Clone, PartialEq)]
pub struct Arc {
    pub center: Point,
    pub start_angle: Decimal,
    pub end_angle: Decimal,
    pub radius: Decimal,
}

pub ghost struct ArcV {
    pub center: PointV,
    pub start_angle: int,
    pub end_angle: int,
    pub radius: int,
}

impl View for Arc {
    type V = ArcV;

    open spec fn view(&self) -> ArcV {
        ArcV {
            center: self.center@,
            start_angle: self.start_angle@,
            end_angle: self.end_angle@,
            radius: self.radius@,
        }
    }
}

impl DeepView for Arc {
    type V = ArcV;

    open spec fn deep_view(&self) -> ArcV {
        self.view()
    }
}

/// One drawing layer of the board: ID, name, category and optional
/// user-facing display name.
#[derive(Debug, Clone, PartialEq)]
pub struct Layer {
    pub id: i32,
    pub name: String,
    pub layer_type: String,
    pub user_name: Option<String>,
}

pub ghost struct LayerV {
    pub id: i32,
    pub name: Seq<char>,
    pub layer_type: Seq<char>,
    pub user_name: Option<Seq<char>>,
}

impl View for Layer {
    type V = LayerV;

    open spec fn view(&self) -> LayerV {
        LayerV {
            id: self.id,
            name: self.name@,
            layer_type: self.layer_type@,
            user_name: match &self.user_name {
                Some(u) => Some(u@),
                None => None,
            },
        }
    }
}

impl DeepView for Layer {
    type V = LayerV;

    open spec fn deep_view(&self) -> LayerV {
        self.view()
    }
}

/// One connective contact area of a footprint.
#[derive(Debug, Clone, PartialEq)]
pub struct Pad {
    pub number: String,
    pub pad_type: String,
    pub shape: String,
    pub position: Point,
    pub size: Point,
    pub drill: Option<Decimal>,
    pub layers: Vec<String>,
    pub net: Option<String>,
    pub roundrect_ratio: Option<Decimal>,
}

pub ghost struct PadV {
    pub number: Seq<char>,
    pub pad_type: Seq<char>,
    pub shape: Seq<char>,
    pub position: PointV,
    pub size: PointV,
    pub drill: Option<int>,
    pub layers: Seq<Seq<char>>,
    pub net: Option<Seq<char>>,
    pub roundrect_ratio: Option<int>,
}

impl View for Pad {
    type V = PadV;

    open spec fn view(&self) -> PadV {
        PadV {
            number: self.number@,
            pad_type: self.pad_type@,
            shape: self.shape@,
            position: self.position@,
            size: self.size@,
            drill: match self.drill {
                Some(d) => Some(d@),
                None => None,
            },
            layers: self.layers.deep_view(),
            net: match &self.net {
                Some(n) => Some(n@),
                None => None,
            },
            roundrect_ratio: match self.roundrect_ratio {
                Some(d) => Some(d@),
                None => None,
            },
        }
    }
}

impl DeepView for Pad {
    type V = PadV;

    open spec fn deep_view(&self) -> PadV {
        self.view()
    }
}

/// Styling of a text annotation.
#[derive(Debug, Clone, PartialEq)]
pub struct TextEffects {
    pub font_size: Point,
    pub thickness: Decimal,
    pub bold: bool,
    pub italic: bool,
    pub justify: Option<String>,
}

pub ghost struct TextEffectsV {
    pub font_size: PointV,
    pub thickness: int,
    pub bold: bool,
    pub italic: bool,
    pub justify: Option<Seq<char>>,
}

impl View for TextEffects {
    type V = TextEffectsV;

    open spec fn view(&self) -> TextEffectsV {
        TextEffectsV {
            font_size: self.font_size@,
            thickness: self.thickness@,
            bold: self.bold,
            italic: self.italic,
            justify: match &self.justify {
                Some(j) => Some(j@),
                None => None,
            },
        }
    }
}

impl DeepView for TextEffects {
    type V = TextEffectsV;

    open spec fn deep_view(&self) -> TextEffectsV {
        self.view()
    }
}

/// A positioned text annotation.
#[derive(Debug, Clone, PartialEq)]
pub struct Text {
    pub text: String,
    pub position: Point,
    pub layer: String,
    pub effects: TextEffects,
}

pub ghost struct TextV {
    pub text: Seq<char>,
    pub position: PointV,
    pub layer: Seq<char>,
    pub effects: TextEffectsV,
}

impl View for Text {
    type V = TextV;

    open spec fn view(&self) -> TextV {
        TextV {
            text: self.text@,
            position: self.position@,
            layer: self.layer@,
            effects: self.effects@,
        }
    }
}

impl DeepView for Text {
    type V = TextV;

    open spec fn deep_view(&self) -> TextV {
        self.view()
    }
}

/// A drawn graphic primitive.
#[derive(Debug, Clone, PartialEq)]
pub enum Graphic {
    Line { start: Point, end: Point, layer: String, width: Decimal },
    Circle { center: Point, radius: Decimal, layer: String, width: Decimal, filled: bool },
    Arc { arc: Arc, layer: String, width: Decimal },
    Rectangle { rect: Rect, layer: String, width: Decimal, filled: bool },
    Polygon { points: Vec<Point>, layer: String, width: Decimal, filled: bool },
}

pub ghost enum GraphicV {
    Line { start: PointV, end: PointV, layer: Seq<char>, width: int },
    Circle { center: PointV, radius: int, layer: Seq<char>, width: int, filled: bool },
    Arc { arc: ArcV, layer: Seq<char>, width: int },
    Rectangle { rect: RectV, layer: Seq<char>, width: int, filled: bool },
    Polygon { points: Seq<PointV>, layer: Seq<char>, width: int, filled: bool },
}

impl View for Graphic {
    type V = GraphicV;

    open spec fn view(&self) -> GraphicV {
        match self {
            Graphic::Line { start, end, layer, width } => GraphicV::Line {
                start: start@,
                end: end@,
                layer: layer@,
                width: width@,
            },
            Graphic::Circle { center, radius, layer, width, filled } => GraphicV::Circle {
                center: center@,
                radius: radius@,
                layer: layer@,
                width: width@,
                filled: *filled,
            },
            Graphic::Arc { arc, layer, width } => GraphicV::Arc {
                arc: arc@,
                layer: layer@,
                width: width@,
            },
            Graphic::Rectangle { rect, layer, width, filled } => GraphicV::Rectangle {
                rect: rect@,
                layer: layer@,
                width: width@,
                filled: *filled,
            },
            Graphic::Polygon { points, layer, width, filled } => GraphicV::Polygon {
                points: points.deep_view(),
                layer: layer@,
                width: width@,
                filled: *filled,
            },
        }
    }
}

impl DeepView for Graphic {
    type V = GraphicV;

    open spec fn deep_view(&self) -> GraphicV {
        self.view()
    }
}

/// A physical, placed component instance with its pads and child drawings.
#[derive(Debug, Clone, PartialEq)]
pub struct Footprint {
    pub name: String,
    pub uuid: String,
    pub position: Point,
    pub rotation: Decimal,
    pub layer: String,
    pub locked: bool,
    pub placed: bool,
    pub properties: HashMap<String, String>,
    pub pads: Vec<Pad>,
    pub graphics: Vec<Graphic>,
    pub texts: Vec<Text>,
}

pub ghost struct FootprintV {
    pub name: Seq<char>,
    pub uuid: Seq<char>,
    pub position: PointV,
    pub rotation: int,
    pub layer: Seq<char>,
    pub locked: bool,
    pub placed: bool,
    pub properties: Map<Seq<char>, Seq<char>>,
    pub pads: Seq<PadV>,
    pub graphics: Seq<GraphicV>,
    pub texts: Seq<TextV>,
}

impl View for Footprint {
    type V = FootprintV;

    open spec fn view(&self) -> FootprintV {
        FootprintV {
            name: self.name@,
            uuid: self.uuid@,
            position: self.position@,
            rotation: self.rotation@,
            layer: self.layer@,
            locked: self.locked,
            placed: self.placed,
            properties: self.properties.deep_view(),
            pads: self.pads.deep_view(),
            graphics: self.graphics.deep_view(),
            texts: self.texts.deep_view(),
        }
    }
}

impl DeepView for Footprint {
    type V = FootprintV;

    open spec fn deep_view(&self) -> FootprintV {
        self.view()
    }
}

/// One routed copper segment.
#[derive(Debug, Clone, PartialEq)]
pub struct Track {
    pub start: Point,
    pub end: Point,
    pub width: Decimal,
    pub layer: String,
    pub net: Option<String>,
}

pub ghost struct TrackV {
    pub start: PointV,
    pub end: PointV,
    pub width: int,
    pub layer: Seq<char>,
    pub net: Option<Seq<char>>,
}

impl View for Track {
    type V = TrackV;

    open spec fn view(&self) -> TrackV {
        TrackV {
            start: self.start@,
            end: self.end@,
            width: self.width@,
            layer: self.layer@,
            net: match &self.net {
                Some(n) => Some(n@),
                None => None,
            },
        }
    }
}

impl DeepView for Track {
    type V = TrackV;

    open spec fn deep_view(&self) -> TrackV {
        self.view()
    }
}

/// A plated via connecting two layers.
#[derive(Debug, Clone, PartialEq)]
pub struct Via {
    pub position: Point,
    pub size: Decimal,
    pub drill: Decimal,
    pub layers: Vec<String>,
    pub net: Option<String>,
}

pub ghost struct ViaV {
    pub position: PointV,
    pub size: int,
    pub drill: int,
    pub layers: Seq<Seq<char>>,
    pub net: Option<Seq<char>>,
}

impl View for Via {
    type V = ViaV;

    open spec fn view(&self) -> ViaV {
        ViaV {
            position: self.position@,
            size: self.size@,
            drill: self.drill@,
            layers: self.layers.deep_view(),
            net: match &self.net {
                Some(n) => Some(n@),
                None => None,
            },
        }
    }
}

impl DeepView for Via {
    type V = ViaV;

    open spec fn deep_view(&self) -> ViaV {
        self.view()
    }
}

/// A filled copper region bounded by a polygon.
#[derive(Debug, Clone, PartialEq)]
pub struct Zone {
    pub net: Option<String>,
    pub layer: String,
    pub priority: i32,
    pub connect_pads: bool,
    pub polygon: Vec<Point>,
}

pub ghost struct ZoneV {
    pub net: Option<Seq<char>>,
    pub layer: Seq<char>,
    pub priority: i32,
    pub connect_pads: bool,
    pub polygon: Seq<PointV>,
}

impl View for Zone {
    type V = ZoneV;

    open spec fn view(&self) -> ZoneV {
        ZoneV {
            net: match &self.net {
                Some(n) => Some(n@),
                None => None,
            },
            layer: self.layer@,
            priority: self.priority,
            connect_pads: self.connect_pads,
            polygon: self.polygon.deep_view(),
        }
    }
}

impl DeepView for Zone {
    type V = ZoneV;

    open spec fn deep_view(&self) -> ZoneV {
        self.view()
    }
}

/// The root of a parsed board-layout document.
#[derive(Debug, Clone, PartialEq)]
pub struct PcbFile {
    pub version: String,
    pub generator: String,
    pub board_thickness: Option<Decimal>,
    pub paper_size: Option<String>,
    pub layers: HashMap<i32, Layer>,
    pub footprints: Vec<Footprint>,
    pub tracks: Vec<Track>,
    pub vias: Vec<Via>,
    pub zones: Vec<Zone>,
    pub texts: Vec<Text>,
    pub graphics: Vec<Graphic>,
}

pub ghost struct PcbFileV {
    pub version: Seq<char>,
    pub generator: Seq<char>,
    pub board_thickness: Option<int>,
    pub paper_size: Option<Seq<char>>,
    pub layers: Map<i32, LayerV>,
    pub footprints: Seq<FootprintV>,
    pub tracks: Seq<TrackV>,
    pub vias: Seq<ViaV>,
    pub zones: Seq<ZoneV>,
    pub texts: Seq<TextV>,
    pub graphics: Seq<GraphicV>,
}

impl View for PcbFile {
    type V = PcbFileV;

    open spec fn view(&self) -> PcbFileV {
        PcbFileV {
            version: self.version@,
            generator: self.generator@,
            board_thickness: match self.board_thickness {
                Some(d) => Some(d@),
                None => None,
            },
            paper_size: match &self.paper_size {
                Some(p) => Some(p@),
                None => None,
            },
            layers: self.layers@.map_values(|l: Layer| l@),
            footprints: self.footprints.deep_view(),
            tracks: self.tracks.deep_view(),
            vias: self.vias.deep_view(),
            zones: self.zones.deep_view(),
            texts: self.texts.deep_view(),
            graphics: self.graphics.deep_view(),
        }
    }
}

impl PcbFileV {
    /// The document with nothing parsed into it yet.
    pub open spec fn empty() -> PcbFileV {
        PcbFileV {
            version: Seq::empty(),
            generator: Seq::empty(),
            board_thickness: None,
            paper_size: None,
            layers: Map::empty(),
            footprints: Seq::empty(),
            tracks: Seq::empty(),
            vias: Seq::empty(),
            zones: Seq::empty(),
            texts: Seq::empty(),
            graphics: Seq::empty(),
        }
    }
}

/// A schematic symbol with its full drawing primitives.
#[derive(Debug, Clone, PartialEq)]
pub struct Symbol {
    pub name: String,
    pub pin_names_offset: Decimal,
    pub in_bom: bool,
    pub on_board: bool,
    pub properties: Vec<Property>,
    pub pins: Vec<Pin>,
    pub rectangles: Vec<Rectangle>,
    pub circles: Vec<Circle>,
    pub arcs: Vec<SymbolArc>,
    pub polylines: Vec<Polyline>,
}

/// A named text property of a symbol.
#[derive(Debug, Clone, PartialEq)]
pub struct Property {
    pub name: String,
    pub value: String,
    pub id: i32,
    pub at: Point,
    pub effects: Option<Effects>,
}

/// Text effects including font and styling.
#[derive(Debug, Clone, PartialEq)]
pub struct Effects {
    pub font: Font,
    pub justify: Option<String>,
    pub hidden: bool,
}

/// Font properties for text elements.
#[derive(Debug, Clone, PartialEq)]
pub struct Font {
    pub size: Point,
    pub thickness: Option<Decimal>,
    pub bold: bool,
    pub italic: bool,
}

/// One pin of a symbol.
#[derive(Debug, Clone, PartialEq)]
pub struct Pin {
    pub number: String,
    pub name: String,
    pub pin_type: String,
    pub at: Point,
    pub length: Decimal,
    pub rotation: Decimal,
    pub name_effects: Option<Effects>,
    pub number_effects: Option<Effects>,
}

/// A drawn rectangle of a symbol.
#[derive(Debug, Clone, PartialEq)]
pub struct Rectangle {
    pub start: Point,
    pub end: Point,
    pub stroke: Stroke,
    pub fill: Fill,
}

/// A drawn circle of a symbol.
#[derive(Debug, Clone, PartialEq)]
pub struct Circle {
    pub center: Point,
    pub radius: Decimal,
    pub stroke: Stroke,
    pub fill: Fill,
}

/// A drawn arc of a symbol, given by three points.
#[derive(Debug, Clone, PartialEq)]
pub struct SymbolArc {
    pub start: Point,
    pub mid: Point,
    pub end: Point,
    pub stroke: Stroke,
    pub fill: Fill,
}

/// A drawn open polygon of a symbol.
#[derive(Debug, Clone, PartialEq)]
pub struct Polyline {
    pub points: Vec<Point>,
    pub stroke: Stroke,
    pub fill: Fill,
}

/// Stroke properties for drawing elements.
#[derive(Debug, Clone, PartialEq)]
pub struct Stroke {
    pub width: Decimal,
    pub stroke_type: String,
    pub color: Option<Color>,
}

/// Fill properties for drawing elements.
#[derive(Debug, Clone, PartialEq)]
pub struct Fill {
    pub fill_type: String,
    pub color: Option<Color>,
}

/// Color representation.
#[derive(Debug, Clone, PartialEq)]
pub struct Color {
    pub r: u8,
    pub g: u8,
    pub b: u8,
    pub a: u8,
}

/// The footprints among `fps` lying on the named layer, in order.
pub open spec fn footprints_on(fps: Seq<FootprintV>, layer: Seq<char>) -> Seq<FootprintV>
    decreases fps.len(),
{
    if fps.len() == 0 {
        Seq::empty()
    } else {
        let r = footprints_on(fps.drop_last(), layer);
        if fps.last().layer == layer {
            r.push(fps.last())
        } else {
            r
        }
    }
}

/// The tracks among `ts` lying on the named layer, in order.
pub open spec fn tracks_on(ts: Seq<TrackV>, layer: Seq<char>) -> Seq<TrackV>
    decreases ts.len(),
{
    if ts.len() == 0 {
        Seq::empty()
    } else {
        let r = tracks_on(ts.drop_last(), layer);
        if ts.last().layer == layer {
            r.push(ts.last())
        } else {
            r
        }
    }
}

impl PcbFile {
    /// The footprints placed on the named layer, in document order.
    pub fn get_footprints_on_layer(&self, layer_name: &str) -> (r: Vec<&Footprint>)
        ensures
            r.deep_view() == footprints_on(self.footprints.deep_view(), layer_name@),
    {
        let mut out: Vec<&Footprint> = Vec::new();
        let ghost fps = self.footprints.deep_view();
        proof {
            assert(fps.take(0) =~= Seq::<FootprintV>::empty());
            assert(out.deep_view() =~= footprints_on(fps.take(0), layer_name@));
        }
        let mut i: usize = 0;
        while i < self.footprints.len()
            invariant
                i <= self.footprints@.len(),
                fps == self.footprints.deep_view(),
                out.deep_view() == footprints_on(fps.take(i as int), layer_name@),
            decreases self.footprints@.len() - i,
        {
            let ghost out0 = out.deep_view();
            let fp = &self.footprints[i];
            proof {
                assert(fps[i as int] == self.footprints@[i as int].deep_view());
                assert(fps.take(i + 1).drop_last() =~= fps.take(i as int));
                assert(fps.take(i + 1).last() == fps[i as int]);
            }
            if crate::text::string_eq_str(&fp.layer, layer_name) {
                out.push(fp);
                proof {
                    assert(out.deep_view() =~= out0.push(fps[i as int]));
                }
            }
            i = i + 1;
        }
        proof {
            assert(fps.take(self.footprints@.len() as int) =~= fps);
        }
        out
    }

    /// The tracks routed on the named layer, in document order.
    pub fn get_tracks_on_layer(&self, layer_name: &str) -> (r: Vec<&Track>)
        ensures
            r.deep_view() == tracks_on(self.tracks.deep_view(), layer_name@),
    {
        let mut out: Vec<&Track> = Vec::new();
        let ghost ts = self.tracks.deep_view();
        proof {
            assert(ts.take(0) =~= Seq::<TrackV>::empty());
            assert(out.deep_view() =~= tracks_on(ts.take(0), layer_name@));
        }
        let mut i: usize = 0;
        while i < self.tracks.len()
            invariant
                i <= self.tracks@.len(),
                ts == self.tracks.deep_view(),
                out.deep_view() == tracks_on(ts.take(i as int), layer_name@),
            decreases self.tracks@.len() - i,
        {
            let ghost out0 = out.deep_view();
            let t = &self.tracks[i];
            proof {
                assert(ts[i as int] == self.tracks@[i as int].deep_view());
                assert(ts.take(i + 1).drop_last() =~= ts.take(i as int));
                assert(ts.take(i + 1).last() == ts[i as int]);
            }
            if crate::text::string_eq_str(&t.layer, layer_name) {
                out.push(t);
                proof {
                    assert(out.deep_view() =~= out0.push(ts[i as int]));
                }
            }
            i = i + 1;
        }
        proof {
            assert(ts.take(self.tracks@.len() as int) =~= ts);
        }
        out
    }

    /// A document with empty header fields and no entities.
    pub fn new() -> (r: PcbFile)
        ensures
            r@ == PcbFileV::empty(),
    {
        let r = PcbFile {
            version: String::new(),
            generator: String::new(),
            board_thickness: None,
            paper_size: None,
            layers: HashMap::new(),
            footprints: Vec::new(),
            tracks: Vec::new(),
            vias: Vec::new(),
            zones: Vec::new(),
            texts: Vec::new(),
            graphics: Vec::new(),
        };
        proof {
            assert(r@.layers =~= Map::<i32, LayerV>::empty());
            assert(r@.footprints =~= Seq::<FootprintV>::empty());
            assert(r@.tracks =~= Seq::<TrackV>::empty());
            assert(r@.vias =~= Seq::<ViaV>::empty());
            assert(r@.zones =~= Seq::<ZoneV>::empty());
            assert(r@.texts =~= Seq::<TextV>::empty());
            assert(r@.graphics =~= Seq::<GraphicV>::empty());
        }
        r
    }
}

} // verus!

//! Best-effort extraction of board statistics from raw text.
//!
//! [`DetailParser`] answers a few common questions — component positions,
//! 3-D model coverage, tracks, vias, a board outline — by pattern-matching
//! the raw text instead of building the structured model. Pattern matching
//! is delegated to the `regex` crate behind trusted wrappers whose results
//! are named, opaque capture sequences; everything computed from those
//! captures is verified. These raw-text heuristics are not equivalent in
//! accuracy to the structured result of the full grammar.

use crate::error::KicadError;
use crate::num;
use crate::num::Decimal;
use crate::pcb::simple_parser;
use crate::text;
use vstd::prelude::*;
use vstd::string::StrSliceExecFns;
use vstd::string::StringExecFns;

verus! {

/// Component information extracted from footprint records.
#[derive(Debug, PartialEq)]
pub struct ComponentInfo {
    pub reference: String,
    pub footprint: String,
    pub position: (Decimal, Decimal),
    pub rotation: Decimal,
    pub layer: String,
    pub value: Option<String>,
}

pub ghost struct ComponentInfoV {
    pub reference: Seq<char>,
    pub footprint: Seq<char>,
    pub position: (int, int),
    pub rotation: int,
    pub layer: Seq<char>,
    pub value: Option<Seq<char>>,
}

impl View for ComponentInfo {
    type V = ComponentInfoV;

    open spec fn view(&self) -> ComponentInfoV {
        ComponentInfoV {
            reference: self.reference@,
            footprint: self.footprint@,
            position: (self.position.0@, self.position.1@),
            rotation: self.rotation@,
            layer: self.layer@,
            value: match &self.value {
                Some(v) => Some(v@),
                None => None,
            },
        }
    }
}

impl DeepView for ComponentInfo {
    type V = ComponentInfoV;

    open spec fn deep_view(&self) -> ComponentInfoV {
        self.view()
    }
}

/// The kind of a 3-D model file, judged by its path suffix.
#[derive(Debug, Clone, PartialEq, Eq, Structural)]
pub enum ModelType {
    Wrl,
    Step,
    Iges,
    Other,
}

/// 3-D model information extracted from footprint records.
#[derive(Debug, Clone, PartialEq)]
pub struct Model3DInfo {
    pub reference: String,
    pub footprint: String,
    pub model_path: String,
    pub model_type: ModelType,
}

pub ghost struct Model3DInfoV {
    pub reference: Seq<char>,
    pub footprint: Seq<char>,
    pub model_path: Seq<char>,
    pub model_type: ModelType,
}

impl View for Model3DInfo {
    type V = Model3DInfoV;

    open spec fn view(&self) -> Model3DInfoV {
        Model3DInfoV {
            reference: self.reference@,
            footprint: self.footprint@,
            model_path: self.model_path@,
            model_type: self.model_type,
        }
    }
}

impl DeepView for Model3DInfo {
    type V = Model3DInfoV;

    open spec fn deep_view(&self) -> Model3DInfoV {
        self.view()
    }
}

/// Track information extracted from segment records.
#[derive(Debug, PartialEq)]
pub struct TrackInfo {
    pub start: (Decimal, Decimal),
    pub end: (Decimal, Decimal),
    pub width: Decimal,
    pub layer: String,
    pub net: Option<i32>,
}

pub ghost struct TrackInfoV {
    pub start: (int, int),
    pub end: (int, int),
    pub width: int,
    pub layer: Seq<char>,
    pub net: Option<i32>,
}

impl View for TrackInfo {
    type V = TrackInfoV;

    open spec fn view(&self) -> TrackInfoV {
        TrackInfoV {
            start: (self.start.0@, self.start.1@),
            end: (self.end.0@, self.end.1@),
            width: self.width@,
            layer: self.layer@,
            net: self.net,
        }
    }
}

impl DeepView for TrackInfo {
    type V = TrackInfoV;

    open spec fn deep_view(&self) -> TrackInfoV {
        self.view()
    }
}

/// Via information extracted from via records.
#[derive(Debug, PartialEq)]
pub struct ViaInfo {
    pub position: (Decimal, Decimal),
    pub size: Decimal,
    pub drill: Decimal,
    pub layers: (String, String),
    pub net: Option<i32>,
}

pub ghost struct ViaInfoV {
    pub position: (int, int),
    pub size: int,
    pub drill: int,
    pub layers: (Seq<char>, Seq<char>),
    pub net: Option<i32>,
}

impl View for ViaInfo {
    type V = ViaInfoV;

    open spec fn view(&self) -> ViaInfoV {
        ViaInfoV {
            position: (self.position.0@, self.position.1@),
            size: self.size@,
            drill: self.drill@,
            layers: (self.layers.0@, self.layers.1@),
            net: self.net,
        }
    }
}

impl DeepView for ViaInfo {
    type V = ViaInfoV;

    open spec fn deep_view(&self) -> ViaInfoV {
        self.view()
    }
}

/// Bounding box of the board outline drawn on the edge-cuts layer.
#[derive(Debug, Clone, PartialEq)]
pub struct BoardOutline {
    pub min_x: Decimal,
    pub min_y: Decimal,
    pub max_x: Decimal,
    pub max_y: Decimal,
    pub width_mm: Decimal,
    pub height_mm: Decimal,
}

pub ghost struct BoardOutlineV {
    pub min_x: int,
    pub min_y: int,
    pub max_x: int,
    pub max_y: int,
    pub width_mm: int,
    pub height_mm: int,
}

impl View for BoardOutline {
    type V = BoardOutlineV;

    open spec fn view(&self) -> BoardOutlineV {
        BoardOutlineV {
            min_x: self.min_x@,
            min_y: self.min_y@,
            max_x: self.max_x@,
            max_y: self.max_y@,
            width_mm: self.width_mm@,
            height_mm: self.height_mm@,
        }
    }
}

/// The footprint captures carrying an explicit value property:
/// (footprint, x, y, optional rotation, reference, value) for each match
/// of the component-with-value pattern, in text order.
pub uninterp spec fn component_value_captures(s: Seq<char>) -> Seq<
    (Seq<char>, Seq<char>, Seq<char>, Option<Seq<char>>, Seq<char>, Seq<char>),
>;

/// The footprint captures without a value requirement:
/// (footprint, x, y, optional rotation, reference), in text order.
pub uninterp spec fn component_captures(s: Seq<char>) -> Seq<
    (Seq<char>, Seq<char>, Seq<char>, Option<Seq<char>>, Seq<char>),
>;

/// The 3-D model captures: (footprint, reference, model path), in order.
pub uninterp spec fn model_captures(s: Seq<char>) -> Seq<(Seq<char>, Seq<char>, Seq<char>)>;

/// The segment captures: (start x, start y, end x, end y, width, layer,
/// optional net number), in text order.
pub uninterp spec fn track_captures(s: Seq<char>) -> Seq<
    (Seq<char>, Seq<char>, Seq<char>, Seq<char>, Seq<char>, Seq<char>, Option<Seq<char>>),
>;

/// The via captures: (x, y, size, drill, first layer, second layer,
/// optional net number), in text order.
pub uninterp spec fn via_captures(s: Seq<char>) -> Seq<
    (Seq<char>, Seq<char>, Seq<char>, Seq<char>, Seq<char>, Seq<char>, Option<Seq<char>>),
>;

/// The edge-cuts line captures: (start x, start y, end x, end y), in order.
pub uninterp spec fn edge_captures(s: Seq<char>) -> Seq<
    (Seq<char>, Seq<char>, Seq<char>, Seq<char>),
>;

/// Relies on `regex::Regex::captures_iter` with the component-with-value
/// pattern: one capture tuple per footprint record that carries an `at`
/// position and `Reference` and `Value` properties.
#[verifier::external_body]
fn scan_component_value_captures(s: &str) -> (r: Vec<
    (String, String, String, Option<String>, String, String),
>)
    ensures
        r.deep_view() == component_value_captures(s@),
{
    let re = regex::Regex::new(
        r#"(?s)\(footprint\s+"([^"]+)".*?\(at\s+([\d.-]+)\s+([\d.-]+)(?:\s+([\d.-]+))?\).*?\(property\s+"Reference"\s+"([^"]+)".*?\(property\s+"Value"\s+"([^"]+)""#,
    ).unwrap();
    re.captures_iter(s).map(
        |c|
            (
                c[1].to_string(),
                c[2].to_string(),
                c[3].to_string(),
                c.get(4).map(|m| m.as_str().to_string()),
                c[5].to_string(),
                c[6].to_string(),
            ),
    ).collect()
}

/// Relies on `regex::Regex::captures_iter` with the component pattern:
/// one capture tuple per footprint record that carries an `at` position
/// and a `Reference` property.
#[verifier::external_body]
fn scan_component_captures(s: &str) -> (r: Vec<
    (String, String, String, Option<String>, String),
>)
    ensures
        r.deep_view() == component_captures(s@),
{
    let re = regex::Regex::new(
        r#"(?s)\(footprint\s+"([^"]+)".*?\(at\s+([\d.-]+)\s+([\d.-]+)(?:\s+([\d.-]+))?\).*?\(property\s+"Reference"\s+"([^"]+)""#,
    ).unwrap();
    re.captures_iter(s).map(
        |c|
            (
                c[1].to_string(),
                c[2].to_string(),
                c[3].to_string(),
                c.get(4).map(|m| m.as_str().to_string()),
                c[5].to_string(),
            ),
    ).collect()
}

/// Relies on `regex::Regex::captures_iter` with the 3-D model pattern:
/// one capture tuple per footprint record that names a model file.
#[verifier::external_body]
fn scan_model_captures(s: &str) -> (r: Vec<(String, String, String)>)
    ensures
        r.deep_view() == model_captures(s@),
{
    let re = regex::Regex::new(
        r#"(?s)\(footprint\s+"([^"]+)".*?\(property\s+"Reference"\s+"([^"]+)".*?\(model\s+"([^"]+)""#,
    ).unwrap();
    re.captures_iter(s).map(
        |c| (c[1].to_string(), c[2].to_string(), c[3].to_string()),
    ).collect()
}

/// Relies on `regex::Regex::captures_iter` with the segment pattern: one
/// capture tuple per segment record written in the single-line layout.
#[verifier::external_body]
fn scan_track_captures(s: &str) -> (r: Vec<
    (String, String, String, String, String, String, Option<String>),
>)
    ensures
        r.deep_view() == track_captures(s@),
{
    let re = regex::Regex::new(
        r#"\(segment\s*\(start\s+([\d.-]+)\s+([\d.-]+)\)\s*\(end\s+([\d.-]+)\s+([\d.-]+)\)\s*\(width\s+([\d.-]+)\)\s*\(layer\s+"([^"]+)"\)(?:\s*\(net\s+(\d+)\))?"#,
    ).unwrap();
    re.captures_iter(s).map(
        |c|
            (
                c[1].to_string(),
                c[2].to_string(),
                c[3].to_string(),
                c[4].to_string(),
                c[5].to_string(),
                c[6].to_string(),
                c.get(7).map(|m| m.as_str().to_string()),
            ),
    ).collect()
}

/// Relies on `regex::Regex::captures_iter` with the via pattern: one
/// capture tuple per via record written in the single-line layout.
#[verifier::external_body]
fn scan_via_captures(s: &str) -> (r: Vec<
    (String, String, String, String, String, String, Option<String>),
>)
    ensures
        r.deep_view() == via_captures(s@),
{
    let re = regex::Regex::new(
        r#"\(via\s*\(at\s+([\d.-]+)\s+([\d.-]+)\)\s*\(size\s+([\d.-]+)\)\s*\(drill\s+([\d.-]+)\)\s*\(layers\s+"([^"]+)"\s+"([^"]+)"\)(?:\s*\(net\s+(\d+)\))?"#,
    ).unwrap();
    re.captures_iter(s).map(
        |c|
            (
                c[1].to_string(),
                c[2].to_string(),
                c[3].to_string(),
                c[4].to_string(),
                c[5].to_string(),
                c[6].to_string(),
                c.get(7).map(|m| m.as_str().to_string()),
            ),
    ).collect()
}

/// Relies on `regex::Regex::captures_iter` with the edge-cuts pattern:
/// one capture tuple per graphic line drawn on the edge-cuts layer.
#[verifier::external_body]
fn scan_edge_captures(s: &str) -> (r: Vec<(String, String, String, String)>)
    ensures
        r.deep_view() == edge_captures(s@),
{
    let re = regex::Regex::new(
        r#"(?s)\(gr_line\s*\(start\s+([\d.-]+)\s+([\d.-]+)\)\s*\(end\s+([\d.-]+)\s+([\d.-]+)\).*?\(layer\s+"Edge\.Cuts"\)"#,
    ).unwrap();
    re.captures_iter(s).map(
        |c| (c[1].to_string(), c[2].to_string(), c[3].to_string(), c[4].to_string()),
    ).collect()
}

/// The millionths value a numeric capture denotes, zero when it does not
/// decode as a number.
pub open spec fn capture_num(w: Seq<char>) -> int {
    if num::is_number_text(w) {
        num::spec_decimal_of(w)
    } else {
        0
    }
}

/// Decode a numeric capture, zero when it does not decode.
fn capture_num_exec(w: &String) -> (r: Decimal)
    ensures
        r@ == capture_num(w@),
{
    let cs = text::chars_of(w.as_str());
    let n = cs.len();
    proof {
        assert(cs@.subrange(0, n as int) =~= cs@);
    }
    match num::decimal_from_chars(&cs, 0, n) {
        Some(d) => d,
        None => Decimal::zero(),
    }
}

/// The millionths value of an optional rotation capture, zero if absent
/// or undecodable.
pub open spec fn opt_capture_num(o: Option<Seq<char>>) -> int {
    match o {
        Some(w) => capture_num(w),
        None => 0,
    }
}

fn opt_capture_num_exec(o: &Option<String>) -> (r: Decimal)
    ensures
        r@ == opt_capture_num(o.deep_view()),
{
    match o {
        Some(w) => capture_num_exec(w),
        None => Decimal::zero(),
    }
}

/// The net number of an optional net capture.
pub open spec fn opt_capture_net(o: Option<Seq<char>>) -> Option<i32> {
    match o {
        Some(w) => simple_parser::spec_parse_i32(w),
        None => None,
    }
}

fn opt_capture_net_exec(o: &Option<String>) -> (r: Option<i32>)
    ensures
        r == opt_capture_net(o.deep_view()),
{
    match o {
        Some(w) => {
            let cs = text::chars_of(w.as_str());
            simple_parser::parse_i32_chars(&cs)
        },
        None => None,
    }
}

/// The component a with-value capture denotes; the layer falls back to
/// the front copper layer, which the text heuristic cannot determine.
pub open spec fn comp_of_value_cap(
    c: (Seq<char>, Seq<char>, Seq<char>, Option<Seq<char>>, Seq<char>, Seq<char>),
) -> ComponentInfoV {
    ComponentInfoV {
        reference: c.4,
        footprint: c.0,
        position: (capture_num(c.1), capture_num(c.2)),
        rotation: opt_capture_num(c.3),
        layer: "F.Cu"@,
        value: Some(c.5),
    }
}

/// The component a plain capture denotes.
pub open spec fn comp_of_cap(
    c: (Seq<char>, Seq<char>, Seq<char>, Option<Seq<char>>, Seq<char>),
) -> ComponentInfoV {
    ComponentInfoV {
        reference: c.4,
        footprint: c.0,
        position: (capture_num(c.1), capture_num(c.2)),
        rotation: opt_capture_num(c.3),
        layer: "F.Cu"@,
        value: None,
    }
}

/// Is a component with this reference already listed.
pub open spec fn spec_has_ref(acc: Seq<ComponentInfoV>, r: Seq<char>) -> bool {
    exists|i: int| 0 <= i < acc.len() && acc[i].reference == r
}

/// Components from the with-value captures, appended in text order.
pub open spec fn build_value_comps(
    caps: Seq<(Seq<char>, Seq<char>, Seq<char>, Option<Seq<char>>, Seq<char>, Seq<char>)>,
    acc: Seq<ComponentInfoV>,
) -> Seq<ComponentInfoV>
    decreases caps.len(),
{
    if caps.len() == 0 {
        acc
    } else {
        build_value_comps(caps.skip(1), acc.push(comp_of_value_cap(caps[0])))
    }
}

/// Components from the plain captures, appended in text order, skipping
/// any reference already listed.
pub open spec fn add_plain_comps(
    caps: Seq<(Seq<char>, Seq<char>, Seq<char>, Option<Seq<char>>, Seq<char>)>,
    acc: Seq<ComponentInfoV>,
) -> Seq<ComponentInfoV>
    decreases caps.len(),
{
    if caps.len() == 0 {
        acc
    } else if spec_has_ref(acc, caps[0].4) {
        add_plain_comps(caps.skip(1), acc)
    } else {
        add_plain_comps(caps.skip(1), acc.push(comp_of_cap(caps[0])))
    }
}

/// All components the text heuristics find: first every footprint with an
/// explicit value, then any further footprint whose reference is new.
pub open spec fn spec_components(s: Seq<char>) -> Seq<ComponentInfoV> {
    add_plain_comps(
        component_captures(s),
        build_value_comps(component_value_captures(s), Seq::empty()),
    )
}

/// Does `pat` occur at the end of `s`.
pub open spec fn is_suffix(pat: Seq<char>, s: Seq<char>) -> bool {
    pat.len() <= s.len() && s.skip(s.len() - pat.len()) == pat
}

fn ends_with_str(s: &String, pat: &str) -> (r: bool)
    ensures
        r == is_suffix(pat@, s@),
{
    let cs = text::chars_of(s.as_str());
    let n = cs.len();
    let m = pat.unicode_len();
    if m > n {
        return false;
    }
    let r = simple_parser::is_prefix_at(&cs, n - m, pat);
    proof {
        let tail = cs@.skip((n - m) as int);
        assert(tail.take(m as int) =~= tail);
    }
    r
}

/// The kind a model path's suffix gives it.
pub open spec fn spec_model_type(path: Seq<char>) -> ModelType {
    if is_suffix(".wrl"@, path) {
        ModelType::Wrl
    } else if is_suffix(".step"@, path) || is_suffix(".stp"@, path) {
        ModelType::Step
    } else if is_suffix(".igs"@, path) || is_suffix(".iges"@, path) {
        ModelType::Iges
    } else {
        ModelType::Other
    }
}

/// Model entries from the captures, appended in text order.
pub open spec fn build_models(
    caps: Seq<(Seq<char>, Seq<char>, Seq<char>)>,
    acc: Seq<Model3DInfoV>,
) -> Seq<Model3DInfoV>
    decreases caps.len(),
{
    if caps.len() == 0 {
        acc
    } else {
        build_models(caps.skip(1), acc.push(model_of_cap(caps[0])))
    }
}

/// All model entries the text yields, in text order.
pub open spec fn spec_models(s: Seq<char>) -> Seq<Model3DInfoV> {
    build_models(model_captures(s), Seq::empty())
}

/// The model entry a capture denotes.
pub open spec fn model_of_cap(c: (Seq<char>, Seq<char>, Seq<char>)) -> Model3DInfoV {
    Model3DInfoV {
        reference: c.1,
        footprint: c.0,
        model_path: c.2,
        model_type: spec_model_type(c.2),
    }
}

/// Tracks from the captures, appended in text order.
pub open spec fn build_tracks(
    caps: Seq<(Seq<char>, Seq<char>, Seq<char>, Seq<char>, Seq<char>, Seq<char>, Option<Seq<char>>)>,
    acc: Seq<TrackInfoV>,
) -> Seq<TrackInfoV>
    decreases caps.len(),
{
    if caps.len() == 0 {
        acc
    } else {
        build_tracks(caps.skip(1), acc.push(track_of_cap(caps[0])))
    }
}

/// All tracks the text yields, in text order.
pub open spec fn spec_tracks(s: Seq<char>) -> Seq<TrackInfoV> {
    build_tracks(track_captures(s), Seq::empty())
}

/// The track a capture denotes.
pub open spec fn track_of_cap(
    c: (Seq<char>, Seq<char>, Seq<char>, Seq<char>, Seq<char>, Seq<char>, Option<Seq<char>>),
) -> TrackInfoV {
    TrackInfoV {
        start: (capture_num(c.0), capture_num(c.1)),
        end: (capture_num(c.2), capture_num(c.3)),
        width: capture_num(c.4),
        layer: c.5,
        net: opt_capture_net(c.6),
    }
}

/// Vias from the captures, appended in text order.
pub open spec fn build_vias(
    caps: Seq<(Seq<char>, Seq<char>, Seq<char>, Seq<char>, Seq<char>, Seq<char>, Option<Seq<char>>)>,
    acc: Seq<ViaInfoV>,
) -> Seq<ViaInfoV>
    decreases caps.len(),
{
    if caps.len() == 0 {
        acc
    } else {
        build_vias(caps.skip(1), acc.push(via_of_cap(caps[0])))
    }
}

/// All vias the text yields, in text order.
pub open spec fn spec_vias(s: Seq<char>) -> Seq<ViaInfoV> {
    build_vias(via_captures(s), Seq::empty())
}

/// The via a capture denotes.
pub open spec fn via_of_cap(
    c: (Seq<char>, Seq<char>, Seq<char>, Seq<char>, Seq<char>, Seq<char>, Option<Seq<char>>),
) -> ViaInfoV {
    ViaInfoV {
        position: (capture_num(c.0), capture_num(c.1)),
        size: capture_num(c.2),
        drill: capture_num(c.3),
        layers: (c.4, c.5),
        net: opt_capture_net(c.6),
    }
}

/// Running bounding box over the edge-cuts captures.
pub open spec fn outline_fold(
    caps: Seq<(Seq<char>, Seq<char>, Seq<char>, Seq<char>)>,
    cur: (int, int, int, int),
) -> (int, int, int, int)
    decreases caps.len(),
{
    if caps.len() == 0 {
        cur
    } else {
        let c = caps[0];
        let x1 = capture_num(c.0);
        let y1 = capture_num(c.1);
        let x2 = capture_num(c.2);
        let y2 = capture_num(c.3);
        outline_fold(
            caps.skip(1),
            (
                spec_min3(cur.0, x1, x2),
                spec_min3(cur.1, y1, y2),
                spec_max3(cur.2, x1, x2),
                spec_max3(cur.3, y1, y2),
            ),
        )
    }
}

pub open spec fn spec_min3(a: int, b: int, c: int) -> int {
    if a <= b && a <= c {
        a
    } else if b <= c {
        b
    } else {
        c
    }
}

pub open spec fn spec_max3(a: int, b: int, c: int) -> int {
    if a >= b && a >= c {
        a
    } else if b >= c {
        b
    } else {
        c
    }
}

/// The board outline the edge-cuts lines span, `None` when there are none.
pub open spec fn spec_outline(s: Seq<char>) -> Option<BoardOutlineV> {
    let caps = edge_captures(s);
    if caps.len() == 0 {
        None
    } else {
        let b = outline_fold(caps, (i64::MAX as int, i64::MAX as int, i64::MIN as int, i64::MIN as int));
        Some(
            BoardOutlineV {
                min_x: b.0,
                min_y: b.1,
                max_x: b.2,
                max_y: b.3,
                width_mm: num::clamp_i64(b.2 - b.0),
                height_mm: num::clamp_i64(b.3 - b.1),
            },
        )
    }
}

/// Is `c` an ASCII letter. Reference prefixes are classified by ASCII
/// letters alone; a letter outside ASCII ends the prefix.
pub open spec fn is_ascii_alpha(c: char) -> bool {
    ('a' <= c && c <= 'z') || ('A' <= c && c <= 'Z')
}

/// End of the run of ASCII letters starting at `i`.
pub open spec fn alpha_end(s: Seq<char>, i: int) -> int
    decreases s.len() - i,
{
    if i < 0 || i >= s.len() || !is_ascii_alpha(s[i]) {
        i
    } else {
        alpha_end(s, i + 1)
    }
}

/// The leading run of ASCII letters of a component reference
/// (`R`, `C`, `U`, ...). A character outside ASCII ends the prefix.
pub open spec fn spec_prefix_of(s: Seq<char>) -> Seq<char> {
    s.take(alpha_end(s, 0))
}

proof fn lemma_alpha_end_bounds(s: Seq<char>, i: int)
    requires
        0 <= i <= s.len(),
    ensures
        i <= alpha_end(s, i) <= s.len(),
    decreases s.len() - i,
{
    if i < s.len() && is_ascii_alpha(s[i]) {
        lemma_alpha_end_bounds(s, i + 1);
    }
}

/// Extract the letter prefix of a component reference: its leading run
/// of ASCII letters.
pub fn extract_component_prefix(reference: &str) -> (r: String)
    ensures
        r@ == spec_prefix_of(reference@),
{
    let cs = text::chars_of(reference);
    let n = cs.len();
    let mut j: usize = 0;
    while j < n
        invariant_except_break
            j <= n,
            n == cs@.len(),
            alpha_end(cs@, 0) == alpha_end(cs@, j as int),
        ensures
            j <= n,
            alpha_end(cs@, 0) == j as int,
        decreases n - j,
    {
        let c = cs[j];
        if !(('a' <= c && c <= 'z') || ('A' <= c && c <= 'Z')) {
            proof {
                assert(alpha_end(cs@, j as int) == j as int);
            }
            break;
        }
        j = j + 1;
    }
    text::string_from_range(&cs, 0, j)
}

/// Index of the entry for key `k` in a count list, or -1 if absent.
pub open spec fn find_entry(acc: Seq<(Seq<char>, usize)>, k: Seq<char>) -> int
    decreases acc.len(),
{
    if acc.len() == 0 {
        -1
    } else if acc[0].0 == k {
        0
    } else {
        let r = find_entry(acc.skip(1), k);
        if r < 0 {
            -1
        } else {
            r + 1
        }
    }
}

proof fn lemma_find_entry_bounds(acc: Seq<(Seq<char>, usize)>, k: Seq<char>)
    ensures
        find_entry(acc, k) >= 0 ==> find_entry(acc, k) < acc.len() && acc[find_entry(
            acc,
            k,
        )].0 == k,
        find_entry(acc, k) >= -1,
    decreases acc.len(),
{
    if acc.len() > 0 && acc[0].0 != k {
        lemma_find_entry_bounds(acc.skip(1), k);
        if find_entry(acc.skip(1), k) >= 0 {
            assert(acc.skip(1)[find_entry(acc.skip(1), k)] == acc[find_entry(acc, k)]);
        }
    }
}

proof fn lemma_find_entry_skip(acc: Seq<(Seq<char>, usize)>, k: Seq<char>, j: int)
    requires
        0 <= j <= acc.len(),
        forall|i: int| 0 <= i < j ==> (#[trigger] acc[i]).0 != k,
    ensures
        find_entry(acc, k) == if find_entry(acc.skip(j), k) < 0 {
            -1int
        } else {
            j + find_entry(acc.skip(j), k)
        },
    decreases j,
{
    if j == 0 {
        assert(acc.skip(0) =~= acc);
    } else {
        lemma_find_entry_skip(acc.skip(1), k, j - 1);
        assert(acc.skip(1).skip(j - 1) =~= acc.skip(j));
        assert forall|i: int| 0 <= i < j - 1 implies (#[trigger] acc.skip(1)[i]).0 != k by {
            assert(acc.skip(1)[i] == acc[i + 1]);
        }
    }
}

/// One reference counted into the summary: a present prefix is bumped,
/// a new one appended with count one.
pub open spec fn bump_count(acc: Seq<(Seq<char>, usize)>, k: Seq<char>) -> Seq<
    (Seq<char>, usize),
> {
    let i = find_entry(acc, k);
    if i < 0 {
        acc.push((k, 1usize))
    } else {
        acc.update(
            i,
            (
                k,
                if acc[i].1 < usize::MAX {
                    (acc[i].1 + 1) as usize
                } else {
                    acc[i].1
                },
            ),
        )
    }
}

/// Counts of component reference prefixes, in first-appearance order.
pub open spec fn summary_fold(comps: Seq<ComponentInfoV>, acc: Seq<(Seq<char>, usize)>) -> Seq<
    (Seq<char>, usize),
>
    decreases comps.len(),
{
    if comps.len() == 0 {
        acc
    } else {
        summary_fold(comps.skip(1), bump_count(acc, spec_prefix_of(comps[0].reference)))
    }
}

/// Raw-text extraction of board details; `@` is the text scanned.
pub struct DetailParser<'a> {
    content: &'a str,
}

impl<'a> View for DetailParser<'a> {
    type V = Seq<char>;

    closed spec fn view(&self) -> Seq<char> {
        self.content@
    }
}

impl<'a> DetailParser<'a> {
    /// A detail parser over the given board text.
    pub fn new(content: &'a str) -> (r: DetailParser<'a>)
        ensures
            r@ == content@,
    {
        DetailParser { content }
    }

    /// All component information the text heuristics find: every
    /// footprint with an explicit value first, then any further footprint
    /// whose reference is new. The call always succeeds.
    pub fn extract_components(&self) -> (r: Result<Vec<ComponentInfo>, KicadError>)
        ensures
            r is Ok,
            r->Ok_0.deep_view() == spec_components(self@),
    {
        let vcaps = scan_component_value_captures(self.content);
        let mut out: Vec<ComponentInfo> = Vec::new();
        let ghost vcv = vcaps.deep_view();
        proof {
            assert(out.deep_view() =~= Seq::<ComponentInfoV>::empty());
            assert(vcv.skip(0) =~= vcv);
        }
        let mut i: usize = 0;
        while i < vcaps.len()
            invariant
                i <= vcaps@.len(),
                vcv == vcaps.deep_view(),
                build_value_comps(vcv, Seq::empty()) == build_value_comps(
                    vcv.skip(i as int),
                    out.deep_view(),
                ),
            decreases vcaps@.len() - i,
        {
            let ghost out0 = out.deep_view();
            let c = &vcaps[i];
            let rot = opt_capture_num_exec(&c.3);
            let comp = ComponentInfo {
                reference: c.4.clone(),
                footprint: c.0.clone(),
                position: (capture_num_exec(&c.1), capture_num_exec(&c.2)),
                rotation: rot,
                layer: String::from_str("F.Cu"),
                value: Some(c.5.clone()),
            };
            proof {
                assert(vcaps.deep_view()[i as int] == vcaps@[i as int].deep_view());
                assert(comp@ == comp_of_value_cap(vcv.skip(i as int)[0]));
            }
            out.push(comp);
            i = i + 1;
            proof {
                assert(out.deep_view() =~= out0.push(comp_of_value_cap(vcv[i - 1])));
                assert(vcv.skip(i as int) =~= vcv.skip(i - 1).skip(1));
            }
        }
        proof {
            assert(vcv.skip(vcaps@.len() as int) =~= Seq::<
                (Seq<char>, Seq<char>, Seq<char>, Option<Seq<char>>, Seq<char>, Seq<char>),
            >::empty());
        }
        let pcaps = scan_component_captures(self.content);
        let ghost pcv = pcaps.deep_view();
        proof {
            assert(pcv.skip(0) =~= pcv);
        }
        let mut j: usize = 0;
        while j < pcaps.len()
            invariant
                j <= pcaps@.len(),
                pcv == pcaps.deep_view(),
                spec_components(self@) == add_plain_comps(
                    pcv.skip(j as int),
                    out.deep_view(),
                ),
            decreases pcaps@.len() - j,
        {
            let ghost out0 = out.deep_view();
            let c = &pcaps[j];
            proof {
                assert(pcaps.deep_view()[j as int] == pcaps@[j as int].deep_view());
            }
            let mut present = false;
            let mut k: usize = 0;
            while k < out.len()
                invariant_except_break
                    k <= out@.len(),
                    !present,
                    out.deep_view() == out0,
                    forall|m: int| 0 <= m < k ==> (#[trigger] out0[m]).reference != c.4@,
                ensures
                    out.deep_view() == out0,
                    present == spec_has_ref(out0, c.4@),
                decreases out@.len() - k,
            {
                if text::string_eq_str(&out[k].reference, c.4.as_str()) {
                    present = true;
                    proof {
                        assert(out0[k as int].reference == c.4@);
                    }
                    break;
                }
                k = k + 1;
            }
            if !present {
                let rot = opt_capture_num_exec(&c.3);
                let comp = ComponentInfo {
                    reference: c.4.clone(),
                    footprint: c.0.clone(),
                    position: (capture_num_exec(&c.1), capture_num_exec(&c.2)),
                    rotation: rot,
                    layer: String::from_str("F.Cu"),
                    value: None,
                };
                proof {
                    assert(comp@ == comp_of_cap(pcv.skip(j as int)[0]));
                }
                out.push(comp);
                proof {
                    assert(out.deep_view() =~= out0.push(comp_of_cap(pcv[j as int])));
                }
            }
            j = j + 1;
            proof {
                assert(pcv.skip(j as int) =~= pcv.skip(j - 1).skip(1));
            }
        }
        proof {
            assert(pcv.skip(pcaps@.len() as int) =~= Seq::<
                (Seq<char>, Seq<char>, Seq<char>, Option<Seq<char>>, Seq<char>),
            >::empty());
        }
        Ok(out)
    }

    /// All 3-D model references the text heuristics find, with each
    /// model's kind judged from its path suffix. The call always succeeds.
    pub fn extract_3d_models(&self) -> (r: Result<Vec<Model3DInfo>, KicadError>)
        ensures
            r is Ok,
            r->Ok_0.deep_view() == spec_models(self@),
    {
        let caps = scan_model_captures(self.content);
        let ghost cv = caps.deep_view();
        let mut out: Vec<Model3DInfo> = Vec::new();
        proof {
            assert(out.deep_view() =~= Seq::<Model3DInfoV>::empty());
            assert(cv.skip(0) =~= cv);
        }
        let mut i: usize = 0;
        while i < caps.len()
            invariant
                i <= caps@.len(),
                cv == caps.deep_view(),
                cv == model_captures(self@),
                build_models(cv, Seq::empty()) == build_models(
                    cv.skip(i as int),
                    out.deep_view(),
                ),
            decreases caps@.len() - i,
        {
            let ghost out0 = out.deep_view();
            let c = &caps[i];
            let model_type = if ends_with_str(&c.2, ".wrl") {
                ModelType::Wrl
            } else if ends_with_str(&c.2, ".step") || ends_with_str(&c.2, ".stp") {
                ModelType::Step
            } else if ends_with_str(&c.2, ".igs") || ends_with_str(&c.2, ".iges") {
                ModelType::Iges
            } else {
                ModelType::Other
            };
            let m = Model3DInfo {
                reference: c.1.clone(),
                footprint: c.0.clone(),
                model_path: c.2.clone(),
                model_type,
            };
            proof {
                assert(caps.deep_view()[i as int] == caps@[i as int].deep_view());
                assert(cv[i as int] == (caps@[i as int].0@, caps@[i as int].1@, caps@[
                    i as int].2@));
                assert(m@.reference == model_of_cap(cv[i as int]).reference);
                assert(m@.footprint == model_of_cap(cv[i as int]).footprint);
                assert(m@.model_path == model_of_cap(cv[i as int]).model_path);
                assert(m@.model_type == model_of_cap(cv[i as int]).model_type);
                assert(m@ == model_of_cap(cv[i as int]));
            }
            out.push(m);
            i = i + 1;
            proof {
                assert(out.deep_view() =~= out0.push(model_of_cap(cv[i - 1])));
                assert(cv.skip(i as int) =~= cv.skip(i - 1).skip(1));
            }
        }
        proof {
            assert(cv.skip(caps@.len() as int) =~= Seq::<
                (Seq<char>, Seq<char>, Seq<char>),
            >::empty());
        }
        Ok(out)
    }

    /// All tracks the single-line segment heuristic finds. The call
    /// always succeeds.
    pub fn extract_tracks(&self) -> (r: Result<Vec<TrackInfo>, KicadError>)
        ensures
            r is Ok,
            r->Ok_0.deep_view() == spec_tracks(self@),
    {
        let caps = scan_track_captures(self.content);
        let ghost cv = caps.deep_view();
        let mut out: Vec<TrackInfo> = Vec::new();
        proof {
            assert(out.deep_view() =~= Seq::<TrackInfoV>::empty());
            assert(cv.skip(0) =~= cv);
        }
        let mut i: usize = 0;
        while i < caps.len()
            invariant
                i <= caps@.len(),
                cv == caps.deep_view(),
                cv == track_captures(self@),
                build_tracks(cv, Seq::empty()) == build_tracks(
                    cv.skip(i as int),
                    out.deep_view(),
                ),
            decreases caps@.len() - i,
        {
            let ghost out0 = out.deep_view();
            let c = &caps[i];
            let t = TrackInfo {
                start: (capture_num_exec(&c.0), capture_num_exec(&c.1)),
                end: (capture_num_exec(&c.2), capture_num_exec(&c.3)),
                width: capture_num_exec(&c.4),
                layer: c.5.clone(),
                net: opt_capture_net_exec(&c.6),
            };
            proof {
                assert(caps.deep_view()[i as int] == caps@[i as int].deep_view());
                assert(t@ == track_of_cap(cv[i as int]));
            }
            out.push(t);
            i = i + 1;
            proof {
                assert(out.deep_view() =~= out0.push(track_of_cap(cv[i - 1])));
                assert(cv.skip(i as int) =~= cv.skip(i - 1).skip(1));
            }
        }
        proof {
            assert(cv.skip(caps@.len() as int) =~= Seq::<
                (Seq<char>, Seq<char>, Seq<char>, Seq<char>, Seq<char>, Seq<char>, Option<
                    Seq<char>,
                >),
            >::empty());
        }
        Ok(out)
    }

    /// All vias the single-line via heuristic finds. The call always
    /// succeeds.
    pub fn extract_vias(&self) -> (r: Result<Vec<ViaInfo>, KicadError>)
        ensures
            r is Ok,
            r->Ok_0.deep_view() == spec_vias(self@),
    {
        let caps = scan_via_captures(self.content);
        let ghost cv = caps.deep_view();
        let mut out: Vec<ViaInfo> = Vec::new();
        proof {
            assert(out.deep_view() =~= Seq::<ViaInfoV>::empty());
            assert(cv.skip(0) =~= cv);
        }
        let mut i: usize = 0;
        while i < caps.len()
            invariant
                i <= caps@.len(),
                cv == caps.deep_view(),
                cv == via_captures(self@),
                build_vias(cv, Seq::empty()) == build_vias(
                    cv.skip(i as int),
                    out.deep_view(),
                ),
            decreases caps@.len() - i,
        {
            let ghost out0 = out.deep_view();
            let c = &caps[i];
            let v = ViaInfo {
                position: (capture_num_exec(&c.0), capture_num_exec(&c.1)),
                size: capture_num_exec(&c.2),
                drill: capture_num_exec(&c.3),
                layers: (c.4.clone(), c.5.clone()),
                net: opt_capture_net_exec(&c.6),
            };
            proof {
                assert(caps.deep_view()[i as int] == caps@[i as int].deep_view());
                assert(v@ == via_of_cap(cv[i as int]));
            }
            out.push(v);
            i = i + 1;
            proof {
                assert(out.deep_view() =~= out0.push(via_of_cap(cv[i - 1])));
                assert(cv.skip(i as int) =~= cv.skip(i - 1).skip(1));
            }
        }
        proof {
            assert(cv.skip(caps@.len() as int) =~= Seq::<
                (Seq<char>, Seq<char>, Seq<char>, Seq<char>, Seq<char>, Seq<char>, Option<
                    Seq<char>,
                >),
            >::empty());
        }
        Ok(out)
    }

    /// The bounding box of the edge-cuts lines the heuristic finds, or
    /// `None` when the text draws none. The call always succeeds.
    pub fn extract_board_outline(&self) -> (r: Result<Option<BoardOutline>, KicadError>)
        ensures
            r is Ok,
            match r->Ok_0 {
                Some(b) => spec_outline(self@) == Some(b@),
                None => spec_outline(self@) is None,
            },
    {
        let caps = scan_edge_captures(self.content);
        let ghost cv = caps.deep_view();
        if caps.len() == 0 {
            return Ok(None);
        }
        let mut min_x = Decimal::from_micros(i64::MAX);
        let mut min_y = Decimal::from_micros(i64::MAX);
        let mut max_x = Decimal::from_micros(i64::MIN);
        let mut max_y = Decimal::from_micros(i64::MIN);
        proof {
            assert(cv.skip(0) =~= cv);
        }
        let mut i: usize = 0;
        while i < caps.len()
            invariant
                i <= caps@.len(),
                cv == caps.deep_view(),
                outline_fold(cv, (i64::MAX as int, i64::MAX as int, i64::MIN as int, i64::MIN as int))
                    == outline_fold(cv.skip(i as int), (min_x@, min_y@, max_x@, max_y@)),
            decreases caps@.len() - i,
        {
            let c = &caps[i];
            let x1 = capture_num_exec(&c.0);
            let y1 = capture_num_exec(&c.1);
            let x2 = capture_num_exec(&c.2);
            let y2 = capture_num_exec(&c.3);
            proof {
                assert(caps.deep_view()[i as int] == caps@[i as int].deep_view());
            }
            min_x = Decimal::min_of(Decimal::min_of(min_x, x1), x2);
            min_y = Decimal::min_of(Decimal::min_of(min_y, y1), y2);
            max_x = Decimal::max_of(Decimal::max_of(max_x, x1), x2);
            max_y = Decimal::max_of(Decimal::max_of(max_y, y1), y2);
            i = i + 1;
            proof {
                assert(cv.skip(i as int) =~= cv.skip(i - 1).skip(1));
            }
        }
        proof {
            assert(cv.skip(caps@.len() as int) =~= Seq::<
                (Seq<char>, Seq<char>, Seq<char>, Seq<char>),
            >::empty());
        }
        let width_mm = max_x.sub_sat(&min_x);
        let height_mm = max_y.sub_sat(&min_y);
        Ok(Some(BoardOutline { min_x, min_y, max_x, max_y, width_mm, height_mm }))
    }

    /// Counts of components by reference letter prefix, in the order each
    /// prefix first appears. The call always succeeds.
    pub fn extract_component_summary(&self) -> (r: Result<Vec<(String, usize)>, KicadError>)
        ensures
            r is Ok,
            r->Ok_0.deep_view() == summary_fold(spec_components(self@), Seq::empty()),
    {
        let comps = match self.extract_components() {
            Ok(v) => v,
            Err(e) => {
                return Err(e);
            },
        };
        let ghost compv = comps.deep_view();
        let mut out: Vec<(String, usize)> = Vec::new();
        proof {
            assert(out.deep_view() =~= Seq::<(Seq<char>, usize)>::empty());
            assert(compv.skip(0) =~= compv);
        }
        let mut i: usize = 0;
        while i < comps.len()
            invariant
                i <= comps@.len(),
                compv == comps.deep_view(),
                summary_fold(compv, Seq::empty()) == summary_fold(
                    compv.skip(i as int),
                    out.deep_view(),
                ),
            decreases comps@.len() - i,
        {
            let ghost out0 = out.deep_view();
            let prefix = extract_component_prefix(comps[i].reference.as_str());
            proof {
                assert(comps.deep_view()[i as int] == comps@[i as int].deep_view());
                assert(prefix@ == spec_prefix_of(compv.skip(i as int)[0].reference));
            }
            let mut found: Option<usize> = None;
            let mut k: usize = 0;
            while k < out.len()
                invariant_except_break
                    k <= out@.len(),
                    found is None,
                    out.deep_view() == out0,
                    forall|m: int| 0 <= m < k ==> (#[trigger] out0[m]).0 != prefix@,
                ensures
                    out.deep_view() == out0,
                    match found {
                        Some(f) => f < out0.len() && out0[f as int].0 == prefix@ && forall|
                            m: int,
                        |
                            0 <= m < f ==> (#[trigger] out0[m]).0 != prefix@,
                        None => forall|m: int|
                            0 <= m < out0.len() ==> (#[trigger] out0[m]).0 != prefix@,
                    },
                decreases out@.len() - k,
            {
                if text::string_eq_str(&out[k].0, prefix.as_str()) {
                    found = Some(k);
                    proof {
                        assert(out0[k as int].0 == prefix@);
                    }
                    break;
                }
                k = k + 1;
            }
            proof {
                match found {
                    Some(f) => {
                        lemma_find_entry_skip(out0, prefix@, f as int);
                        assert(out0.skip(f as int)[0] == out0[f as int]);
                        assert(find_entry(out0, prefix@) == f);
                    },
                    None => {
                        lemma_find_entry_skip(out0, prefix@, out0.len() as int);
                        assert(out0.skip(out0.len() as int) =~= Seq::<
                            (Seq<char>, usize),
                        >::empty());
                        assert(find_entry(out0, prefix@) == -1);
                    },
                }
            }
            match found {
                Some(f) => {
                    let cnt = out[f].1;
                    let newcnt: usize = if cnt < usize::MAX {
                        cnt + 1
                    } else {
                        cnt
                    };
                    let key = out[f].0.clone();
                    out[f] = (key, newcnt);
                    proof {
                        assert(out.deep_view() =~= bump_count(out0, prefix@));
                    }
                },
                None => {
                    out.push((prefix, 1));
                    proof {
                        assert(out.deep_view() =~= bump_count(out0, prefix@));
                    }
                },
            }
            i = i + 1;
            proof {
                assert(compv.skip(i as int) =~= compv.skip(i - 1).skip(1));
            }
        }
        proof {
            assert(compv.skip(comps@.len() as int) =~= Seq::<ComponentInfoV>::empty());
        }
        Ok(out)
    }
}

} // verus!

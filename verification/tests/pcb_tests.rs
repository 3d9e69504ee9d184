//! Tests for the board-layout parsers and the typed data model.

use kiparse::num::Decimal;
use kiparse::pcb::parse_layers_only;
use kiparse::pcb::types::{Graphic, Layer, PcbFile, Point};
use kiparse::pcb::PcbParser;
use kiparse::KicadError;

const MINIMAL_PCB: &str = r#"(kicad_pcb
  (version "20240108")
  (generator "pcbnew")
  (layers
    (0 "F.Cu" signal)
    (31 "B.Cu" signal)
    (32 "B.Adhes" user "B.Adhesive")
  )
)"#;

#[test]
fn test_version() {
    assert!(!kiparse::version().is_empty());
}

#[test]
fn test_simple_parser_minimal_pcb() {
    let result = parse_layers_only(MINIMAL_PCB);
    assert!(result.is_ok());

    let pcb = result.unwrap();
    assert_eq!(pcb.version, "unknown");
    assert_eq!(pcb.generator, "simple_parser");
    assert_eq!(pcb.layers.len(), 3);

    assert!(pcb.layers.contains_key(&0));
    assert!(pcb.layers.contains_key(&31));
    assert!(pcb.layers.contains_key(&32));

    let f_cu = pcb.layers.get(&0).unwrap();
    assert_eq!(f_cu.name, "F.Cu");
    assert_eq!(f_cu.layer_type, "signal");
    assert_eq!(f_cu.user_name, None);

    let b_adhes = pcb.layers.get(&32).unwrap();
    assert_eq!(b_adhes.name, "B.Adhes");
    assert_eq!(b_adhes.layer_type, "user");
    assert_eq!(b_adhes.user_name, Some("B.Adhesive".to_string()));
}

#[test]
fn test_pcb_file_new() {
    let pcb = PcbFile::new();

    assert_eq!(pcb.version, "");
    assert_eq!(pcb.generator, "");
    assert_eq!(pcb.board_thickness, None);
    assert_eq!(pcb.paper_size, None);
    assert_eq!(pcb.layers.len(), 0);
    assert_eq!(pcb.footprints.len(), 0);
    assert_eq!(pcb.tracks.len(), 0);
    assert_eq!(pcb.vias.len(), 0);
    assert_eq!(pcb.zones.len(), 0);
    assert_eq!(pcb.texts.len(), 0);
    assert_eq!(pcb.graphics.len(), 0);
}

#[test]
fn test_point_creation() {
    let point = Point {
        x: Decimal::from_micros(10_500_000),
        y: Decimal::from_micros(-20_300_000),
    };
    assert_eq!(point.x, Decimal::from_micros(10_500_000));
    assert_eq!(point.y, Decimal::from_micros(-20_300_000));
}

#[test]
fn test_layer_creation() {
    let layer = Layer {
        id: 0,
        name: "F.Cu".to_string(),
        layer_type: "signal".to_string(),
        user_name: None,
    };

    assert_eq!(layer.id, 0);
    assert_eq!(layer.name, "F.Cu");
    assert_eq!(layer.layer_type, "signal");
    assert_eq!(layer.user_name, None);
}

#[test]
fn test_full_parse_header_and_layers() {
    let pcb = PcbParser::parse_from_str(MINIMAL_PCB).unwrap();
    assert_eq!(pcb.version, "20240108");
    assert_eq!(pcb.generator, "pcbnew");
    assert_eq!(pcb.layers.len(), 3);
    assert_eq!(pcb.layers.get(&31).unwrap().name, "B.Cu");
    assert_eq!(
        pcb.layers.get(&32).unwrap().user_name,
        Some("B.Adhesive".to_string())
    );
}

#[test]
fn test_unquoted_version_number() {
    let pcb = PcbParser::parse_from_str("(kicad_pcb (version 20240108) (generator x))").unwrap();
    assert_eq!(pcb.version, "20240108");
    let pcb2 = PcbParser::parse_from_str("(kicad_pcb (version 7.5))").unwrap();
    assert_eq!(pcb2.version, "7.5");
}

#[test]
fn test_subset_consistency_single_line_table() {
    // The layer mapping from the full parse equals the fast pass when no
    // table entry spans multiple lines.
    let full = PcbParser::parse_from_str(MINIMAL_PCB).unwrap();
    let fast = parse_layers_only(MINIMAL_PCB).unwrap();
    assert_eq!(full.layers, fast.layers);
}

#[test]
fn test_duplicate_layer_ids_last_wins() {
    let content = r#"(kicad_pcb
      (layers
        (0 "F.Cu" signal)
        (0 "Renamed" user)
      )
    )"#;
    let pcb = PcbParser::parse_from_str(content).unwrap();
    assert_eq!(pcb.layers.len(), 1);
    assert_eq!(pcb.layers.get(&0).unwrap().name, "Renamed");

    let fast = parse_layers_only(content).unwrap();
    assert_eq!(fast.layers.get(&0).unwrap().name, "Renamed");
}

#[test]
fn test_footprint_with_pad() {
    let content = r#"(kicad_pcb
      (footprint "Resistor_SMD:R_0603"
        (at 100.5 50.25 90)
        (layer "F.Cu")
        uuid-free-form
        (uuid "abc-123")
        (pad "1" smd rect (at -0.8 0) (size 0.8 0.95)
          (layers "F.Cu" "F.Mask")
          (net 1 "GND")
          (roundrect_rratio 0.25)
          (drill 0.3)
        )
      )
    )"#;
    let pcb = PcbParser::parse_from_str(content).unwrap();
    assert_eq!(pcb.footprints.len(), 1);
    let fp = &pcb.footprints[0];
    assert_eq!(fp.name, "Resistor_SMD:R_0603");
    assert_eq!(fp.uuid, "abc-123");
    assert_eq!(fp.position.x, Decimal::from_micros(100_500_000));
    assert_eq!(fp.position.y, Decimal::from_micros(50_250_000));
    assert_eq!(fp.rotation, Decimal::from_micros(90_000_000));
    assert_eq!(fp.layer, "F.Cu");
    assert_eq!(fp.pads.len(), 1);
    let pad = &fp.pads[0];
    assert_eq!(pad.number, "1");
    assert_eq!(pad.pad_type, "smd");
    assert_eq!(pad.shape, "rect");
    assert_eq!(pad.position.x, Decimal::from_micros(-800_000));
    assert_eq!(pad.size.y, Decimal::from_micros(950_000));
    assert_eq!(pad.layers, vec!["F.Cu".to_string(), "F.Mask".to_string()]);
    assert_eq!(pad.net, Some("GND".to_string()));
    assert_eq!(pad.roundrect_ratio, Some(Decimal::from_micros(250_000)));
    assert_eq!(pad.drill, Some(Decimal::from_micros(300_000)));
}

#[test]
fn test_optional_rotation_defaults_to_zero() {
    let without = PcbParser::parse_from_str(
        r#"(kicad_pcb (footprint "F" (at 12.0 5.5)))"#,
    )
    .unwrap();
    assert_eq!(without.footprints[0].position.x, Decimal::from_micros(12_000_000));
    assert_eq!(without.footprints[0].position.y, Decimal::from_micros(5_500_000));
    assert_eq!(without.footprints[0].rotation, Decimal::from_micros(0));

    let with = PcbParser::parse_from_str(
        r#"(kicad_pcb (footprint "F" (at 12.0 5.5 90)))"#,
    )
    .unwrap();
    assert_eq!(with.footprints[0].rotation, Decimal::from_micros(90_000_000));
}

#[test]
fn test_pad_missing_shape_fails_whole_parse() {
    let content = r#"(kicad_pcb
      (footprint "F"
        (pad "1" thru_hole (at 0 0) (size 1 1))
      )
    )"#;
    let result = PcbParser::parse_from_str(content);
    assert!(result.is_err());
    assert!(matches!(result, Err(KicadError::MissingField(_))));
}

#[test]
fn test_pad_missing_kind_fails_whole_parse() {
    let content = r#"(kicad_pcb
      (footprint "F"
        (pad "1" rect (at 0 0) (size 1 1))
      )
    )"#;
    let result = PcbParser::parse_from_str(content);
    assert!(matches!(result, Err(KicadError::MissingField(_))));
}

#[test]
fn test_wrong_root_keyword_is_unexpected_token() {
    let result = PcbParser::parse_from_str("(some_other_file)");
    match result {
        Err(KicadError::UnexpectedToken(msg)) => {
            assert_eq!(msg, "expected keyword kicad_pcb, found an identifier");
        }
        other => panic!("expected an unexpected-token error, got {:?}", other),
    }
}

#[test]
fn test_expect_failure_names_expected_and_actual() {
    let result = PcbParser::parse_from_str(r#"(kicad_pcb (version "1" extra))"#);
    match result {
        Err(KicadError::UnexpectedToken(msg)) => {
            assert_eq!(msg, "expected ')', found an identifier");
        }
        other => panic!("expected an unexpected-token error, got {:?}", other),
    }

    let truncated = PcbParser::parse_from_str(r#"(kicad_pcb (version "1""#);
    match truncated {
        Err(KicadError::UnexpectedToken(msg)) => {
            assert_eq!(msg, "expected ')', found end of input");
        }
        other => panic!("expected an unexpected-token error, got {:?}", other),
    }
}

#[test]
fn test_truncated_document_fails() {
    let result = PcbParser::parse_from_str(r#"(kicad_pcb (version "1")"#);
    assert!(result.is_err());
}

#[test]
fn test_forward_compatibility_unknown_form_between_records() {
    let plain = r#"(kicad_pcb
      (segment (start 0 0) (end 1 1) (width 0.2) (layer "F.Cu"))
      (segment (start 2 2) (end 3 3) (width 0.2) (layer "B.Cu"))
    )"#;
    let with_unknown = r#"(kicad_pcb
      (segment (start 0 0) (end 1 1) (width 0.2) (layer "F.Cu"))
      (future_record_kind "x" 1 2 (nested (deeper yes)))
      (segment (start 2 2) (end 3 3) (width 0.2) (layer "B.Cu"))
    )"#;
    let a = PcbParser::parse_from_str(plain).unwrap();
    let b = PcbParser::parse_from_str(with_unknown).unwrap();
    assert_eq!(a, b);
}

#[test]
fn test_track_via_zone_records() {
    let content = r#"(kicad_pcb
      (segment (start 1.5 2.5) (end 3 4) (width 0.25) (layer "F.Cu") (net 2 "VCC"))
      (via (at 5 6) (size 0.8) (drill 0.4) (layers "F.Cu" "B.Cu") (net 2 "VCC"))
      (zone (net_name "GND") (layer "B.Cu") (priority 2) (connect_pads yes)
        (polygon (pts (xy 0 0) (xy 10 0) (xy 10 10)))
      )
    )"#;
    let pcb = PcbParser::parse_from_str(content).unwrap();
    assert_eq!(pcb.tracks.len(), 1);
    let t = &pcb.tracks[0];
    assert_eq!(t.start.x, Decimal::from_micros(1_500_000));
    assert_eq!(t.width, Decimal::from_micros(250_000));
    assert_eq!(t.layer, "F.Cu");
    assert_eq!(t.net, Some("VCC".to_string()));

    assert_eq!(pcb.vias.len(), 1);
    let v = &pcb.vias[0];
    assert_eq!(v.size, Decimal::from_micros(800_000));
    assert_eq!(v.drill, Decimal::from_micros(400_000));
    assert_eq!(v.layers, vec!["F.Cu".to_string(), "B.Cu".to_string()]);
    assert_eq!(v.net, Some("VCC".to_string()));

    assert_eq!(pcb.zones.len(), 1);
    let z = &pcb.zones[0];
    assert_eq!(z.net, Some("GND".to_string()));
    assert_eq!(z.priority, 2);
    assert!(z.connect_pads);
    assert_eq!(z.polygon.len(), 3);
    assert_eq!(z.polygon[1].x, Decimal::from_micros(10_000_000));
}

#[test]
fn test_geometry_bounding_box_from_structured_model() {
    // Four graphic lines forming a closed 100 by 50 rectangle on the
    // edge-cuts layer, measured on the structured model.
    let content = r#"(kicad_pcb
      (gr_line (start 0 0) (end 100 0) (width 0.1) (layer "Edge.Cuts"))
      (gr_line (start 100 0) (end 100 50) (width 0.1) (layer "Edge.Cuts"))
      (gr_line (start 100 50) (end 0 50) (width 0.1) (layer "Edge.Cuts"))
      (gr_line (start 0 50) (end 0 0) (width 0.1) (layer "Edge.Cuts"))
    )"#;
    let pcb = PcbParser::parse_from_str(content).unwrap();
    assert_eq!(pcb.graphics.len(), 4);
    let mut min_x = i64::MAX;
    let mut min_y = i64::MAX;
    let mut max_x = i64::MIN;
    let mut max_y = i64::MIN;
    for g in &pcb.graphics {
        match g {
            Graphic::Line { start, end, layer, .. } => {
                assert_eq!(layer, "Edge.Cuts");
                for p in [start, end] {
                    min_x = min_x.min(p.x.micros);
                    min_y = min_y.min(p.y.micros);
                    max_x = max_x.max(p.x.micros);
                    max_y = max_y.max(p.y.micros);
                }
            }
            _ => panic!("expected only lines"),
        }
    }
    assert_eq!(max_x - min_x, 100_000_000);
    assert_eq!(max_y - min_y, 50_000_000);
}

#[test]
fn test_parse_is_deterministic() {
    let a = PcbParser::parse_from_str(MINIMAL_PCB).unwrap();
    let b = PcbParser::parse_from_str(MINIMAL_PCB).unwrap();
    assert_eq!(a, b);
}

#[test]
fn test_getters_filter_by_layer() {
    let content = r#"(kicad_pcb
      (footprint "A" (layer "F.Cu"))
      (footprint "B" (layer "B.Cu"))
      (segment (start 0 0) (end 1 1) (width 0.2) (layer "F.Cu"))
    )"#;
    let pcb = PcbParser::parse_from_str(content).unwrap();
    let front = pcb.get_footprints_on_layer("F.Cu");
    assert_eq!(front.len(), 1);
    assert_eq!(front[0].name, "A");
    assert_eq!(pcb.get_tracks_on_layer("F.Cu").len(), 1);
    assert_eq!(pcb.get_tracks_on_layer("B.Cu").len(), 0);
}

#[test]
fn test_error_message_rendering() {
    let e = KicadError::MissingField("pad shape keyword".to_string());
    assert_eq!(e.to_message(), "Missing field: pad shape keyword");
}

#[test]
fn test_decimal_text_rendering() {
    assert_eq!(Decimal::from_micros(20_240_108_000_000).to_text(), "20240108");
    assert_eq!(Decimal::from_micros(7_500_000).to_text(), "7.5");
    assert_eq!(Decimal::from_micros(-250_000).to_text(), "-0.25");
    assert_eq!(Decimal::from_micros(0).to_text(), "0");
}

//! Tests for the raw-text detail extraction and statistics helpers.

use core::cmp::Ordering;
use kiparse::num::Decimal;
use kiparse::pcb::detail_parser::{DetailParser, ModelType};
use kiparse::stats::{estimate_complexity, natural_sort, split_reference};

#[test]
fn test_component_extraction() {
    let content = r#"
    (footprint "Resistor_SMD:R_0603_1608Metric"
        (at 100.5 50.25 90)
        (property "Reference" "R1"
            (at 0 0 90)
        )
        (property "Value" "10k"
            (at 0 0 90)
        )
    )
    "#;

    let parser = DetailParser::new(content);
    let components = parser.extract_components().unwrap();

    assert_eq!(components.len(), 1);
    assert_eq!(components[0].reference, "R1");
    assert_eq!(
        components[0].position,
        (
            Decimal::from_micros(100_500_000),
            Decimal::from_micros(50_250_000)
        )
    );
    assert_eq!(components[0].rotation, Decimal::from_micros(90_000_000));
    assert_eq!(components[0].value, Some("10k".to_string()));
}

#[test]
fn test_3d_model_extraction() {
    let content = r#"
    (footprint "Capacitor_SMD:C_0805_2012Metric"
        (property "Reference" "C1")
        (model "${KICAD8_3DMODEL_DIR}/Capacitor_SMD.3dshapes/C_0805_2012Metric.wrl"
            (offset (xyz 0 0 0))
        )
    )
    "#;

    let parser = DetailParser::new(content);
    let models = parser.extract_3d_models().unwrap();

    assert_eq!(models.len(), 1);
    assert_eq!(models[0].reference, "C1");
    assert_eq!(models[0].model_type, ModelType::Wrl);
}

#[test]
fn test_board_outline() {
    let content = r#"
    (gr_line (start 0 0) (end 100 0) (layer "Edge.Cuts"))
    (gr_line (start 100 0) (end 100 50) (layer "Edge.Cuts"))
    (gr_line (start 100 50) (end 0 50) (layer "Edge.Cuts"))
    (gr_line (start 0 50) (end 0 0) (layer "Edge.Cuts"))
    "#;

    let parser = DetailParser::new(content);
    let outline = parser.extract_board_outline().unwrap().unwrap();

    assert_eq!(outline.width_mm, Decimal::from_micros(100_000_000));
    assert_eq!(outline.height_mm, Decimal::from_micros(50_000_000));
}

#[test]
fn test_board_outline_absent() {
    let parser = DetailParser::new("(kicad_pcb)");
    assert_eq!(parser.extract_board_outline().unwrap(), None);
}

#[test]
fn test_track_and_via_extraction() {
    let content = r#"
    (segment (start 1.5 2.5) (end 3 4) (width 0.25) (layer "F.Cu") (net 2))
    (via (at 5 6) (size 0.8) (drill 0.4) (layers "F.Cu" "B.Cu") (net 7))
    "#;
    let parser = DetailParser::new(content);
    let tracks = parser.extract_tracks().unwrap();
    assert_eq!(tracks.len(), 1);
    assert_eq!(
        tracks[0].start,
        (Decimal::from_micros(1_500_000), Decimal::from_micros(2_500_000))
    );
    assert_eq!(tracks[0].layer, "F.Cu");
    assert_eq!(tracks[0].net, Some(2));

    let vias = parser.extract_vias().unwrap();
    assert_eq!(vias.len(), 1);
    assert_eq!(vias[0].drill, Decimal::from_micros(400_000));
    assert_eq!(vias[0].layers, ("F.Cu".to_string(), "B.Cu".to_string()));
    assert_eq!(vias[0].net, Some(7));
}

#[test]
fn test_component_summary_counts_prefixes() {
    let content = r#"
    (footprint "a" (at 0 0) (property "Reference" "R1"))
    (footprint "b" (at 0 0) (property "Reference" "R2"))
    (footprint "c" (at 0 0) (property "Reference" "C1"))
    "#;
    let parser = DetailParser::new(content);
    let summary = parser.extract_component_summary().unwrap();
    assert_eq!(summary.len(), 2);
    assert_eq!(summary[0], ("R".to_string(), 2));
    assert_eq!(summary[1], ("C".to_string(), 1));
}

#[test]
fn test_estimate_complexity() {
    assert_eq!(estimate_complexity("(kicad_pcb)"), "Simple");
    let mut moderate = String::new();
    for _ in 0..20 {
        moderate.push_str("(footprint ");
    }
    for _ in 0..60 {
        moderate.push_str("(segment ");
    }
    assert_eq!(estimate_complexity(&moderate), "Moderate");
    let mut lopsided = String::new();
    for _ in 0..5 {
        lopsided.push_str("(footprint ");
    }
    for _ in 0..600 {
        lopsided.push_str("(segment ");
    }
    assert_eq!(estimate_complexity(&lopsided), "Very Complex");
}

#[test]
fn test_split_reference() {
    assert_eq!(split_reference("R10"), ("R".to_string(), 10));
    assert_eq!(split_reference("C2"), ("C".to_string(), 2));
    assert_eq!(split_reference("XYZ"), ("XYZ".to_string(), 0));
    assert_eq!(split_reference("10"), ("10".to_string(), 0));
}

#[test]
fn test_natural_sort() {
    assert_eq!(natural_sort("R2", "R10"), Ordering::Less);
    assert_eq!(natural_sort("R10", "R2"), Ordering::Greater);
    assert_eq!(natural_sort("C5", "R1"), Ordering::Less);
    assert_eq!(natural_sort("R7", "R7"), Ordering::Equal);
}

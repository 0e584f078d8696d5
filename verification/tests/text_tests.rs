use diagramme_core::document;
use diagramme_core::scene::{
    append_split_instance_to_lines, cad_halign, cad_valign, is_patch_panel_node_type, sanitize_text, to_cad_halign,
    to_cad_valign, to_halign, to_valign, with_split_suffix, AntennaRole, CadHAlign, CadVAlign,
    HAlign, TextHAlign, TextVAlign, VAlign,
};

#[test]
fn sanitize_text_uppercases_and_strips_non_printable() {
    assert_eq!(sanitize_text("Device block", 48), "DEVICE BLOCK");
    assert_eq!(sanitize_text("In", 32), "IN");
    assert_eq!(sanitize_text("loudspeaker patch", 48), "LOUDSPEAKER PATCH");
}

#[test]
fn sanitize_text_preserves_space_placeholder() {
    assert_eq!(sanitize_text(" ", 48), " ");
}

#[test]
fn sanitize_text_joins_lines_and_truncates() {
    assert_eq!(sanitize_text("a\r\nb\nc\rd", 48), "A B C D");
    assert_eq!(sanitize_text("\r\r\n", 48), "  ");
    assert_eq!(sanitize_text("caf\u{e9}\tx", 48), "CAFX");
    assert_eq!(sanitize_text("abcdef", 3), "ABC");
    assert_eq!(sanitize_text("abc", 0), "");
}

#[test]
fn split_suffix_is_appended_to_trimmed_label() {
    assert_eq!(with_split_suffix("  Mixer ", Some(2)), "Mixer (2)");
    assert_eq!(with_split_suffix("  Mixer ", None), "Mixer");
    let lines = vec!["A".to_string(), " B ".to_string()];
    assert_eq!(append_split_instance_to_lines(&lines, Some(3)), vec!["A".to_string(), "B (3)".to_string()]);
    assert_eq!(append_split_instance_to_lines(&lines, None), lines);
    assert_eq!(append_split_instance_to_lines(&Vec::new(), Some(1)), Vec::<String>::new());
}

#[test]
fn alignments_map_one_to_one() {
    assert_eq!(to_halign(TextHAlign::Center), HAlign::Center);
    assert_eq!(to_valign(TextVAlign::Bottom), VAlign::Bottom);
    assert_eq!(to_cad_halign(HAlign::Right), CadHAlign::Right);
    assert_eq!(to_cad_valign(VAlign::Top), CadVAlign::Top);
    assert_eq!(cad_halign(CadHAlign::Right).dxf_code(), 2);
    assert_eq!(cad_halign(CadHAlign::Left).dxf_code(), 0);
    assert_eq!(cad_valign(CadVAlign::Top).dxf_code(), 3);
    assert_eq!(cad_valign(CadVAlign::Bottom).dxf_code(), 1);
    assert!(matches!(cad_valign(CadVAlign::Middle), document::TextVAlign::Middle));
    assert!(matches!(cad_halign(CadHAlign::Center), document::TextHAlign::Center));
}

#[test]
fn node_kinds_by_type() {
    assert_eq!(AntennaRole::from_node_type("antennaTransmitterSymbol"), Some(AntennaRole::Transmitter));
    assert_eq!(AntennaRole::from_node_type("antennaReceiverSymbol"), Some(AntennaRole::Receiver));
    assert_eq!(AntennaRole::from_node_type("micBlock"), None);
    assert!(is_patch_panel_node_type("dppPatchPanel"));
    assert!(!is_patch_panel_node_type("deviceV2"));
}

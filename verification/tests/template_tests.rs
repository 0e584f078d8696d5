use diagramme_core::template::{
    max_handle, merge_entities_into_shell, parse_model_space_owner, parse_shell_info,
    shell_template, splice_entities, write_dxf_from_template, SHELL_TEMPLATE,
};

#[test]
fn template_parses_model_space_owner() {
    let info = parse_shell_info(SHELL_TEMPLATE);
    assert_eq!(info.model_space_owner, "1D");
    assert!(info.next_entity_handle > 0x10);
}

#[test]
fn merge_preserves_shell_sections() {
    let merged = merge_entities_into_shell(SHELL_TEMPLATE, "");
    for section in ["HEADER", "CLASSES", "TABLES", "BLOCKS", "OBJECTS"] {
        assert!(merged.contains(section), "missing {section}");
    }
    assert!(merged.contains("EOF"));
}

#[test]
fn merge_inserts_entities_between_section_markers() {
    let body = "  0\nLINE\n  5\n331\n";
    let merged = merge_entities_into_shell(SHELL_TEMPLATE, body);
    assert!(merged.contains("  0\nLINE\n"));
    let entities = merged.split("ENTITIES").nth(1).unwrap().split("ENDSEC").next().unwrap();
    assert!(entities.contains("LINE"));
}

#[test]
fn handseed_updated_after_merge() {
    let body = "  0\nLINE\n  5\n999\n";
    let merged = merge_entities_into_shell(SHELL_TEMPLATE, body);
    let seed_line = merged
        .lines()
        .skip_while(|l| l.trim() != "$HANDSEED")
        .nth(2)
        .unwrap()
        .trim();
    assert_eq!(seed_line, "99A");
}

#[test]
fn shell_template_is_the_shell() {
    assert_eq!(shell_template(), SHELL_TEMPLATE);
    assert!(shell_template().contains("  0\nSECTION\n  2\nENTITIES\n  0\nENDSEC\n"));
}

#[test]
fn model_space_owner_is_read_from_block_records() {
    let text = "  0\nBLOCK_RECORD\n  5\n1F\n  2\n*Paper_Space\n  0\nBLOCK_RECORD\n  5\n2A\n  2\n*Model_Space\n  0\nENDTAB\n";
    assert_eq!(parse_model_space_owner(text), Some("2A".to_string()));
    assert_eq!(parse_model_space_owner("  0\nLINE\n"), None);
}

#[test]
fn shell_info_defaults_without_owner_or_handles() {
    let info = parse_shell_info("  0\nSECTION\n  2\nHEADER\n");
    assert_eq!(info.model_space_owner, "1D");
    assert_eq!(info.next_entity_handle, 0x331);
}

#[test]
fn max_handle_reads_handle_and_dimstyle_codes() {
    assert_eq!(max_handle("  5\n1A\n105\n2B\n  5\nzz\n"), Some(0x2B));
    assert_eq!(max_handle("  5\n+ff\n"), Some(0xFF));
    assert_eq!(max_handle("  8\n0\n"), None);
}

#[test]
fn merge_without_empty_entities_section_keeps_shell() {
    let shell = "  0\nSECTION\n  2\nHEADER\n  0\nENDSEC\n  0\nEOF\n";
    assert_eq!(merge_entities_into_shell(shell, "  0\nLINE\n"), shell);
    assert_eq!(splice_entities(shell, "x"), None);
}

#[test]
fn merge_adds_newline_after_unterminated_body() {
    let merged = merge_entities_into_shell(SHELL_TEMPLATE, "  0\nLINE\n  5\n400");
    assert!(merged.contains("  5\n400\n  0\nENDSEC\n"));
    let seed = merged.lines().skip_while(|l| l.trim() != "$HANDSEED").nth(2).unwrap();
    assert_eq!(seed, "401");
}

#[test]
fn template_merge_uses_the_shell() {
    assert_eq!(
        write_dxf_from_template("  0\nLINE\n"),
        merge_entities_into_shell(SHELL_TEMPLATE, "  0\nLINE\n")
    );
}

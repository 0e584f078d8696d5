use diagramme_core::audit::{
    audit_dangling_handles, audit_dxf, audit_entity_layers, count_region_polylines,
    entities_in_section, parse_entities, undeclared_layers, DxfAuditIssue, DxfAuditReport,
};
use diagramme_core::debug_split::{
    debug_split_bundle, debug_split_specs, entity_summary, manifest_to_text,
    serialize_revit_dxf_with_filter, split_manifest_entry, DebugSplitManifest, EntityFilter, EntityTypeFilter,
};
use diagramme_core::document::{
    add_line, add_lwpolyline, add_solid, add_text, create_revit_cad_document, inject_header_extents,
    is_serializable, serialize_revit_dxf, write_dxf, write_entities_body, CadDocument, CadExtentText,
    EntityKind, HandleGen, TextHAlign, TextVAlign,
};
use diagramme_core::sanitize::{ensure_unique_handles, reorder_solids_first, sanitize_dxf_string};

fn ext(a: &str, b: &str, c: &str, d: &str) -> CadExtentText {
    CadExtentText { min_x: a.to_string(), min_y: b.to_string(), max_x: c.to_string(), max_y: d.to_string() }
}

fn doc() -> CadDocument {
    create_revit_cad_document(ext("-1.15", "-1.15", "11.15", "11.15"), ext("-1.15", "-1.15", "11.15", "11.15"))
}

fn pts(v: &[(&str, &str)]) -> Vec<(String, String)> {
    v.iter().map(|(x, y)| (x.to_string(), y.to_string())).collect()
}

#[test]
fn dxf_codes_of_text_alignments() {
    assert_eq!(TextHAlign::Left.dxf_code(), 0);
    assert_eq!(TextHAlign::Center.dxf_code(), 1);
    assert_eq!(TextHAlign::Right.dxf_code(), 2);
    assert_eq!(TextVAlign::Baseline.dxf_code(), 0);
    assert_eq!(TextVAlign::Bottom.dxf_code(), 1);
    assert_eq!(TextVAlign::Middle.dxf_code(), 2);
    assert_eq!(TextVAlign::Top.dxf_code(), 3);
}

#[test]
fn handle_gen_counts_in_hex_from_ten() {
    let mut h = HandleGen::new();
    assert_eq!(h.next(), vec!['1', '0']);
    assert_eq!(h.next(), vec!['1', '1']);
    let mut late = HandleGen { next: 0xFF };
    assert_eq!(late.next().iter().collect::<String>(), "FF");
    assert_eq!(late.next().iter().collect::<String>(), "100");
}

#[test]
fn solids_split_polygons_into_fans() {
    let mut d = doc();
    add_solid(&mut d, "FILLS", &pts(&[("0", "0"), ("1", "0")]));
    assert_eq!(d.entities.len(), 0);
    add_solid(&mut d, "FILLS", &pts(&[("0", "0"), ("1", "0"), ("1", "1")]));
    add_solid(&mut d, "FILLS", &pts(&[("0", "0"), ("1", "0"), ("1", "1"), ("0", "1")]));
    add_solid(&mut d, "FILLS", &pts(&[("a", "a"), ("b", "b"), ("c", "c"), ("d", "d"), ("e", "e")]));
    assert_eq!(d.entities.len(), 1 + 1 + 3);
    match &d.entities[1] {
        EntityKind::Solid { corners, .. } => {
            assert_eq!(corners[2], ("0".to_string(), "1".to_string()));
            assert_eq!(corners[3], ("1".to_string(), "1".to_string()));
        }
        _ => panic!("expected a SOLID"),
    }
    match &d.entities[4] {
        EntityKind::Solid { corners, .. } => {
            assert_eq!(corners[0].0, "a");
            assert_eq!(corners[1].0, "d");
            assert_eq!(corners[3].0, "e");
        }
        _ => panic!("expected a SOLID"),
    }
}

#[test]
fn polyline_needs_two_points() {
    let mut d = doc();
    add_lwpolyline(&mut d, "WIRES", &pts(&[("0", "0")]), false);
    assert_eq!(d.entities.len(), 0);
    add_lwpolyline(&mut d, "WIRES", &pts(&[("0", "0"), ("1", "1")]), true);
    assert_eq!(d.entities.len(), 1);
}

#[test]
fn writer_emits_header_tables_and_entities() {
    let mut d = doc();
    add_line(&mut d, "WIRES", "0.0", "0.0", "5.0", "5.0");
    let dxf = write_dxf(&d);
    assert!(dxf.starts_with("  0\nSECTION\n  2\nHEADER\n  9\n$ACADVER\n  1\nAC1015\n"));
    assert!(dxf.contains("  9\n$EXTMIN\n  10\n-1.15\n  20\n-1.15\n"));
    assert!(dxf.contains("  2\n*Model_Space\n"));
    assert!(dxf.contains("  0\nLINE\n  5\n25\n  330\n10\n  100\nAcDbEntity\n  8\nWIRES\n  370\n-3\n  100\nAcDbLine\n  10\n0.0\n"));
    assert!(dxf.ends_with("  0\nENDSEC\n  0\nEOF\n"));
}

#[test]
fn entity_body_numbers_handles_from_the_first() {
    let mut d = doc();
    add_text(&mut d, "0", "1", "2", "0.12", "Hi", TextHAlign::Right, TextVAlign::Top);
    add_line(&mut d, "0", "0", "0", "1", "1");
    let body = write_entities_body(&d.entities, "1D", 0x331);
    assert!(body.starts_with("  0\nTEXT\n  5\n331\n  330\n1D\n"));
    assert!(body.contains("  72\n2\n"));
    assert!(body.contains("  73\n3\n"));
    assert!(body.contains("  0\nLINE\n  5\n332\n"));
}

#[test]
fn header_extents_are_inserted_once() {
    let dxf = "  0\nSECTION\n  2\nHEADER\n  9\n$ACADVER\n  1\nAC1015\n  0\nENDSEC\n  0\nEOF\n";
    let e = ext("-1", "-2", "3", "4");
    let once = inject_header_extents(dxf, &e);
    assert_eq!(
        once,
        "  0\nSECTION\n  2\nHEADER\n  9\n$ACADVER\n  1\nAC1015\n  9\n$EXTMIN\n 10\n-1\n 20\n-2\n 30\n0.0\n9\n$EXTMAX\n 10\n3\n 20\n4\n 30\n0.0\n9\n$LIMMIN\n 10\n-1\n 20\n-2\n9\n$LIMMAX\n 10\n3\n 20\n4\n  0\nENDSEC\n  0\nEOF\n"
    );
    assert_eq!(inject_header_extents(&once, &e), once);
    assert_eq!(inject_header_extents(&once, &ext("9", "9", "9", "9")), once);
    let empty_header = "  2\nHEADER\n  0\nENDSEC\n";
    let first = inject_header_extents(empty_header, &e);
    assert!(first.starts_with("  2\nHEADER\n  9\n$EXTMIN"));
    assert_eq!(inject_header_extents(&first, &e), first);
    assert_eq!(inject_header_extents("no header", &e), "no header");
}

#[test]
fn repeated_handles_are_renamed() {
    let dxf = "  0\nLINE\n  5\nA1\n  0\nLINE\n  5\nA1\n  0\nLINE\n  5\n1000\n  0\nLINE\n  5\nA1";
    let out = ensure_unique_handles(dxf);
    assert_eq!(out, "  0\nLINE\n  5\nA1\n  0\nLINE\n  5\n1000\n  0\nLINE\n  5\n1001\n  0\nLINE\n  5\n1002");
    let unique = "  5\nA\n  5\nB";
    assert_eq!(ensure_unique_handles(unique), unique);
}

#[test]
fn solids_are_moved_first() {
    let dxf = "  0\nSECTION\n  2\nENTITIES\n  0\nLINE\n  8\n0\n  0\nSOLID\n  8\nFILLS\n  0\nENDSEC\n  0\nEOF\n";
    let out = reorder_solids_first(dxf);
    assert_eq!(out, "  0\nSECTION\n  2\nENTITIES\n  0\nSOLID\n  8\nFILLS\n  0\nLINE\n  8\n0\n  0\nENDSEC\n  0\nEOF\n");
    assert_eq!(out.len(), dxf.len());
    assert_eq!(reorder_solids_first("no entities"), "no entities");
    let two = "  2\nENTITIES\n  0\nLINE\n  5\nA\n  0\nSOLID\n  5\nB\n  0\nENDSEC\n";
    assert_eq!(reorder_solids_first(two), "  2\nENTITIES\n  0\nSOLID\n  5\nB\n  0\nLINE\n  5\nA\n  0\nENDSEC\n");
    let three = "  2\nENTITIES\n  0\nSOLID\n  8\nA\n  0\nTEXT\n  1\nx\n  0\nSOLID\n  8\nB\n  0\nLINE\n  8\nC\n  0\nENDSEC\n";
    assert_eq!(
        reorder_solids_first(three),
        "  2\nENTITIES\n  0\nSOLID\n  8\nA\n  0\nSOLID\n  8\nB\n  0\nTEXT\n  1\nx\n  0\nLINE\n  8\nC\n  0\nENDSEC\n"
    );
    let unchanged = "  2\nENTITIES\n  0\nSOLID\n  8\nA\n  0\nLINE\n  8\nC\n  0\nENDSEC\n";
    assert_eq!(reorder_solids_first(unchanged), unchanged);
}

#[test]
fn sanitize_drops_rejected_groups_and_fixes_version() {
    let dxf = "  9\n$ACADVER\n  1\nAC1018\n  62\n0\n 420\n255\n  5\n420\n  8\nWIRES";
    let out = sanitize_dxf_string(dxf);
    assert_eq!(out, "  9\n$ACADVER\n  1\nAC1015\n  5\n420\n  8\nWIRES\n  0\nEOF");
}

#[test]
fn serialized_drawing_holds_each_entity_once() {
    let mut d = doc();
    add_line(&mut d, "WIRES", "0.0", "0.0", "1.0", "0.0");
    add_text(&mut d, "0", "1.0", "1.0", "0.12", "Label", TextHAlign::Center, TextVAlign::Middle);
    assert!(is_serializable(&d));
    let dxf = serialize_revit_dxf(&d);
    assert_eq!(dxf.matches("  0\nLINE\n").count(), 1);
    assert_eq!(dxf.matches("  0\nTEXT\n").count(), 1);
    assert!(dxf.contains("$EXTMIN"));
    assert!(dxf.contains("  5\n331\n"));
    assert!(dxf.contains("  5\n332\n"));
}

#[test]
fn audit_reports_known_problems() {
    let dxf = "  0\nSECTION\n  2\nHEADER\n  9\n$ACADVER\n  1\nAC1014\n  0\nENDSEC\n  0\nSECTION\n  2\nENTITIES\n  0\nHATCH\n  5\n2A\n  330\n1f\n  8\nMYSTERY\n  62\n0\n 420\n16711680\n  0\nENDSEC\n  0\nEOF\n";
    let report = audit_dxf(dxf);
    let codes: Vec<&str> = report.issues.iter().map(|i| i.code.as_str()).collect();
    assert_eq!(
        codes,
        vec![
            "byblock-62-0",
            "true-color-420",
            "acadver",
            "header-extents",
            "missing-section",
            "missing-section",
            "missing-section",
            "missing-section",
            "missing-section",
            "hatch-entity",
            "dangling-handle",
            "undeclared-layer"
        ]
    );
    assert_eq!(report.issues[0].line, Some(23));
    assert_eq!(report.issues[1].message, "true-color group 420 = 16711680");
    assert_eq!(report.issues[4].message, "missing CLASSES");
    assert_eq!(report.issues[10].message, "group 330 references missing handle 1F");
    assert_eq!(report.issues[11].message, "entity references undeclared layer \"MYSTERY\"");
    assert!(!report.is_clean());
    assert!(report.to_text().starts_with("12 issue(s):\n- [byblock-62-0] line 23: BYBLOCK color 62/0\n"));
    assert_eq!(audit_dangling_handles(dxf).len(), 1);
    assert_eq!(audit_entity_layers(dxf).len(), 1);
    assert_eq!(undeclared_layers(dxf), vec!["MYSTERY".to_string()]);
}

#[test]
fn empty_report_text() {
    let report = DxfAuditReport { issues: Vec::new() };
    assert!(report.is_clean());
    assert_eq!(report.to_text(), "No issues found.\n");
    let one = DxfAuditReport {
        issues: vec![DxfAuditIssue { code: "x".into(), message: "y".into(), line: None }],
    };
    assert_eq!(one.to_text(), "1 issue(s):\n- [x]: y\n");
}

#[test]
fn entities_section_is_parsed_into_groups() {
    let dxf = "HEADER\n  2\nENTITIES\n  0\nLWPOLYLINE\n  8\nWIRES\n  10\n1.0\n  20\n2.0\nJUNK\n  70\n  0\nLWPOLYLINE\n  10\n5.0\n  0\nENDSEC\n";
    let section = entities_in_section(dxf);
    assert_eq!(section, "\n  0\nLWPOLYLINE\n  8\nWIRES\n  10\n1.0\n  20\n2.0\nJUNK\n  70\n  0\nLWPOLYLINE\n  10\n5.0\n  0\n");
    let parsed = parse_entities(&section);
    assert_eq!(parsed.len(), 2);
    assert_eq!(parsed[0].0, "LWPOLYLINE");
    assert_eq!(
        parsed[0].1,
        vec![(8, "WIRES".to_string()), (10, "1.0".to_string()), (20, "2.0".to_string()), (70, String::new())]
    );
    assert_eq!(entities_in_section("nothing here"), "");
    let counts = count_region_polylines(&parsed, &vec![true, true]);
    assert_eq!(counts.wire_layer_polylines, 1);
    assert_eq!(counts.layer0_polylines, 1);
    let none = count_region_polylines(&parsed, &vec![false, false]);
    assert_eq!(none.wire_layer_polylines + none.layer0_polylines, 0);
}

#[test]
fn split_presets_and_filters() {
    let specs = debug_split_specs();
    assert_eq!(specs.len(), 11);
    assert_eq!(specs[0].filename, "00-shell-no-entities.dxf");
    assert_eq!(specs[10].filename, "10-full.dxf");
    let mut d = doc();
    add_line(&mut d, "WIRES", "0", "0", "1", "1");
    add_solid(&mut d, "FILLS", &pts(&[("0", "0"), ("1", "0"), ("1", "1")]));
    add_text(&mut d, "0", "1", "1", "1", "T", TextHAlign::Left, TextVAlign::Baseline);
    assert_eq!(specs[0].filter.apply(&d.entities).len(), 0);
    assert_eq!(specs[10].filter.apply(&d.entities).len(), 3);
    assert_eq!(specs[1].filter.apply(&d.entities).len(), 1);
    assert_eq!(EntityFilter::kinds(&[EntityTypeFilter::Text]).apply(&d.entities).len(), 1);
    assert_eq!(EntityFilter::layers(&["0", "WIRES"]).apply(&d.entities).len(), 2);
    let (n, layers, kinds) = entity_summary(&d);
    assert_eq!(n, 3);
    assert_eq!(layers, vec!["0".to_string(), "FILLS".to_string(), "WIRES".to_string()]);
    assert_eq!(kinds, vec!["LINE".to_string(), "SOLID".to_string(), "TEXT".to_string()]);
    let filtered = serialize_revit_dxf_with_filter(&d, &specs[2].filter).unwrap();
    assert!(filtered.contains("\n  0\nLINE\n"));
    assert!(!filtered.contains("\n  0\nSOLID\n"));
}

#[test]
fn manifest_lists_each_split() {
    let m = vec![DebugSplitManifest {
        filename: "a.dxf".into(),
        description: "A".into(),
        entity_count: 2,
        layers: vec!["0".into()],
        kinds: vec!["LINE".into()],
        audit: DxfAuditReport { issues: Vec::new() },
    }];
    assert_eq!(
        manifest_to_text(&m),
        "Diagramme DXF layer bisection manifest\nImport each file into Revit in order. Note the first file that fails.\n\n## a.dxf\nA\nentities: 2 | layers: [\"0\"] | kinds: [\"LINE\"]\nNo issues found.\n\n"
    );
}

#[test]
fn manifest_lists_use_debug_form() {
    let m = vec![DebugSplitManifest {
        filename: "b.dxf".into(),
        description: "B".into(),
        entity_count: 0,
        layers: vec!["0".into(), "WI\"RES".into()],
        kinds: vec![],
        audit: DxfAuditReport { issues: Vec::new() },
    }];
    assert!(manifest_to_text(&m).contains("entities: 0 | layers: [\"0\", \"WI\\\"RES\"] | kinds: []\n"));
}

#[test]
fn split_bundle_writes_every_preset() {
    let mut d = doc();
    add_line(&mut d, "WIRES", "0", "0", "1", "1");
    add_solid(&mut d, "FILLS", &pts(&[("0", "0"), ("1", "0"), ("1", "1")]));
    add_text(&mut d, "0", "1", "1", "1", "T", TextHAlign::Left, TextVAlign::Baseline);
    let specs = debug_split_specs();
    let (texts, ms) = debug_split_bundle(&d).expect("bundle");
    assert_eq!(texts.len(), specs.len());
    assert_eq!(ms.len(), specs.len());
    for ((spec, text), m) in specs.iter().zip(texts.iter()).zip(ms.iter()) {
        assert_eq!(m.filename, spec.filename);
        assert_eq!(m.description, spec.description);
        assert_eq!(text, &serialize_revit_dxf_with_filter(&d, &spec.filter).unwrap());
        assert_eq!(m.audit.issues.len(), audit_dxf(text).issues.len());
    }
    assert_eq!(ms[0].entity_count, 0);
    assert!(ms[0].layers.is_empty());
    assert_eq!(ms[10].entity_count, 3);
    assert_eq!(ms[10].layers, vec!["0".to_string(), "FILLS".to_string(), "WIRES".to_string()]);
    assert_eq!(ms[10].kinds, vec!["LINE".to_string(), "SOLID".to_string(), "TEXT".to_string()]);
    let m = split_manifest_entry(&d.entities, &specs[2], "  0\nEOF\n");
    assert_eq!(m.filename, specs[2].filename);
    assert_eq!(m.entity_count, specs[2].filter.apply(&d.entities).len());
    assert_eq!(m.audit.issues.len(), audit_dxf("  0\nEOF\n").issues.len());
}

#[test]
fn sanitized_stream_has_no_colour_findings() {
    let s = "  0\nSECTION\n  2\nENTITIES\n  0\nLINE\n  5\nA1\n 62\n0\n420\nFF00\n  8\nWIRES\n  0\nENDSEC\n  0\nEOF\n";
    let before = audit_dxf(s);
    assert!(before.issues.iter().any(|i| i.code == "byblock-62-0"));
    assert!(before.issues.iter().any(|i| i.code == "true-color-420"));
    let out = sanitize_dxf_string(s);
    let after = audit_dxf(&out);
    assert!(!after.issues.iter().any(|i| i.code == "true-color-420" || i.code == "byblock-62-0"));
    let kept = "  0\nSECTION\n  2\nENTITIES\n  0\nLINE\n  5\n420\n  62\n7\n  0\nENDSEC\n  0\nEOF\n";
    let after = audit_dxf(&sanitize_dxf_string(kept));
    assert!(!after.issues.iter().any(|i| i.code == "true-color-420" || i.code == "byblock-62-0"));
}

#[test]
fn version_fix_can_expose_a_handle_420() {
    let s = "  9\n$ACADVER\n  5\n5\n420\nFF\n  0\nEOF";
    assert!(!audit_dxf(s).issues.iter().any(|i| i.code == "true-color-420"));
    let out = sanitize_dxf_string(s);
    assert_eq!(out, "  9\n$ACADVER\n  5\nAC1015\n420\nFF\n  0\nEOF");
    assert!(audit_dxf(&out).issues.iter().any(|i| i.code == "true-color-420"));
}

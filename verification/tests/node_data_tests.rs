use diagramme_core::json::JsonValue;
use diagramme_core::layout::{DeviceV2BodySlot, Side};
use diagramme_core::node_data::{
    description_lines_from_data, gutter_row_runs, parse_bundled_row_ids, patch_panel_row_count, read_end_a,
};

fn s(t: &str) -> JsonValue {
    JsonValue::Str(t.to_string())
}

fn arr(v: Vec<JsonValue>) -> JsonValue {
    JsonValue::Array(v)
}

fn obj(v: Vec<(&str, JsonValue)>) -> JsonValue {
    JsonValue::Object(v.into_iter().map(|(k, x)| (k.to_string(), x)).collect())
}

#[test]
fn bundled_row_ids_keep_arrays_and_their_texts() {
    let d = obj(vec![(
        "bundledRowIds",
        arr(vec![arr(vec![s("a"), JsonValue::Null, s("b")]), s("loose"), arr(vec![])]),
    )]);
    let b = parse_bundled_row_ids(&d, "bundledRowIds").expect("bundles");
    assert_eq!(b, vec![vec!["a".to_string(), "b".to_string()], vec![]]);
    assert_eq!(parse_bundled_row_ids(&d, "other"), None);
    assert_eq!(parse_bundled_row_ids(&obj(vec![("k", s("x"))]), "k"), None);
}

#[test]
fn patch_panel_rows_and_description() {
    let d = obj(vec![
        ("rows", arr(vec![obj(vec![]), obj(vec![]), obj(vec![])])),
        ("descriptionLines", arr(vec![s("  Line A "), s("   "), JsonValue::Bool(true), s("B")])),
    ]);
    assert_eq!(patch_panel_row_count(&d), 3);
    assert_eq!(patch_panel_row_count(&obj(vec![])), 0);
    assert_eq!(patch_panel_row_count(&obj(vec![("rows", s("x"))])), 0);
    assert_eq!(description_lines_from_data(&d, &["DEF"]), vec!["Line A".to_string(), "B".to_string()]);
    let blank = obj(vec![("descriptionLines", arr(vec![s(" "), s("")]))]);
    assert_eq!(description_lines_from_data(&blank, &["PATCH", "PANEL"]), vec!["PATCH".to_string(), "PANEL".to_string()]);
    assert_eq!(description_lines_from_data(&obj(vec![]), &[]), Vec::<String>::new());
}

#[test]
fn wiretag_end_defaults_to_a() {
    assert!(read_end_a(&obj(vec![])));
    assert!(read_end_a(&obj(vec![("end", s("a"))])));
    assert!(!read_end_a(&obj(vec![("end", s("b"))])));
    assert!(!read_end_a(&obj(vec![("end", s("A"))])));
    assert!(read_end_a(&obj(vec![("end", JsonValue::Bool(false))])));
}

#[test]
fn gutter_runs_skip_gaps() {
    let h = |t: &str| DeviceV2BodySlot::Header { label: t.to_string() };
    let b = DeviceV2BodySlot::Bundled { group_index: 0, count: 2, side: Side::Left };
    let rows = vec![h("A"), b.clone(), DeviceV2BodySlot::Gap, DeviceV2BodySlot::Gap, h("B"), DeviceV2BodySlot::Gap, h("C"), b];
    assert_eq!(gutter_row_runs(&rows), vec![(0, 1, 2), (4, 4, 1), (6, 7, 2)]);
    assert!(gutter_row_runs(&vec![DeviceV2BodySlot::Gap]).is_empty());
    assert!(gutter_row_runs(&vec![]).is_empty());
}

use diagramme_core::bundles::{
    bundled_bracket_rows, collect_av_bundle_run, collect_patch_bundle_run, flat_av_plate_bundle_runs,
    flat_patch_bundle_runs,
};
use diagramme_core::json::{get_array, get_str, JsonValue};
use diagramme_core::layout::{
    av_plate_body_grid_row_count, av_plate_groups_from_data, cell_label, device_v2_body_grid_row_count,
    device_v2_normalized_columns, flatten_av_plate_body_rows, flatten_device_v2_body_rows,
    normalize_bundles, normalize_device_side_groups, parse_column_group, row_has_condensed_flag,
    AvPlateBodyRow, ColumnGroup, DeviceV2BodySlot, PortRow, Side,
};
use diagramme_core::ports::{
    av_plate_handle_row, av_plate_port_handles, device_v2_handle_parts, device_v2_port_handle, is_conn_handle, regex_av_bundle, regex_av_port,
    regex_device_bundle, regex_device_port,
};

fn s(t: &str) -> JsonValue {
    JsonValue::Str(t.to_string())
}

fn arr(v: Vec<JsonValue>) -> JsonValue {
    JsonValue::Array(v)
}

fn obj(v: Vec<(&str, JsonValue)>) -> JsonValue {
    JsonValue::Object(v.into_iter().map(|(k, x)| (k.to_string(), x)).collect())
}

fn row(id: &str, label: &str) -> JsonValue {
    obj(vec![("id", s(id)), ("label", s(label))])
}

fn texts(v: &[&str]) -> Vec<String> {
    v.iter().map(|t| t.to_string()).collect()
}

#[test]
fn json_lookups() {
    let v = obj(vec![("a", s("x")), ("b", arr(vec![s("y"), JsonValue::Bool(true)])), ("a", s("second"))]);
    assert_eq!(get_str(&v, "a"), Some("x"));
    assert_eq!(get_str(&v, "b"), None);
    assert_eq!(get_array(&v, "b").map(|a| a.len()), Some(2));
    let b = v.get("b").unwrap();
    assert_eq!(b.at(1).and_then(|x| x.as_bool()), Some(true));
    assert!(b.at(2).is_none());
    assert!(b.at(0).unwrap().is_string());
    assert!(v.get("zz").is_none());
    assert!(s("q").get("a").is_none());
}

#[test]
fn column_group_reads_header_rows_and_bundles() {
    let g = parse_column_group(&obj(vec![
        ("title", s("Inputs")),
        ("rows", arr(vec![row("r1", "Mic 1"), obj(vec![("direction", s("in"))])])),
        ("bundledRowIds", arr(vec![s("r1"), JsonValue::Null, s("r2")])),
    ]));
    assert_eq!(g.header.as_deref(), Some("Inputs"));
    assert_eq!(g.rows.len(), 2);
    assert_eq!(g.rows[0].id, "r1");
    assert_eq!(g.rows[1].id, "");
    assert_eq!(g.rows[1].direction.as_deref(), Some("in"));
    assert_eq!(g.bundled_row_ids, vec![texts(&["r1", "r2"])]);
    let h = parse_column_group(&obj(vec![("header", JsonValue::Null), ("title", s("T"))]));
    assert_eq!(h.header, None);
}

#[test]
fn bundles_are_normalized() {
    assert!(normalize_bundles(None).is_empty());
    assert!(normalize_bundles(Some(&arr(vec![]))).is_empty());
    let nested = arr(vec![arr(vec![s("a"), s("b")]), s("skipped"), arr(vec![s("c")])]);
    assert_eq!(normalize_bundles(Some(&nested)), vec![texts(&["a", "b"]), texts(&["c"])]);
}

#[test]
fn legacy_groups_get_generated_ids() {
    let legacy = vec![obj(vec![("name", s("Out")), ("ports", arr(vec![s("A"), JsonValue::Null]))])];
    let groups = normalize_device_side_groups(None, Some(&legacy), Side::Right);
    assert_eq!(groups.len(), 1);
    assert_eq!(groups[0].header.as_deref(), Some("Out"));
    assert_eq!(groups[0].rows[0].id, "right-0-0");
    assert_eq!(groups[0].rows[1].id, "right-0-1");
    assert_eq!(groups[0].rows[1].label, "");
    let current = vec![obj(vec![("rows", arr(vec![row("x", "X")]))])];
    let chosen = normalize_device_side_groups(Some(&current), Some(&legacy), Side::Left);
    assert_eq!(chosen[0].rows[0].id, "x");
    let empty_current: Vec<JsonValue> = Vec::new();
    let fallback = normalize_device_side_groups(Some(&empty_current), Some(&legacy), Side::Left);
    assert_eq!(fallback[0].rows[0].id, "left-0-0");
    assert!(normalize_device_side_groups(None, None, Side::Left).is_empty());
}

fn group(header: Option<&str>, rows: &[(&str, &str)]) -> ColumnGroup {
    ColumnGroup {
        header: header.map(|h| h.to_string()),
        rows: rows
            .iter()
            .map(|(id, label)| PortRow { id: id.to_string(), label: label.to_string(), direction: None })
            .collect(),
        bundled_row_ids: Vec::new(),
    }
}

#[test]
fn device_rows_are_flattened() {
    let groups = vec![group(Some("  In "), &[("a", "A"), ("b", "B")]), group(Some("  "), &[("c", "C")])];
    let slots = flatten_device_v2_body_rows(&groups);
    assert_eq!(slots.len(), 1 + (1 + 2 + 1) + (1 + 1));
    assert!(matches!(slots[0], DeviceV2BodySlot::Gap));
    assert!(matches!(&slots[1], DeviceV2BodySlot::Header { label } if label == "In"));
    assert!(matches!(&slots[2], DeviceV2BodySlot::Port { group_index: 0, row } if row.id == "a"));
    assert!(matches!(slots[4], DeviceV2BodySlot::Gap));
    assert!(matches!(&slots[5], DeviceV2BodySlot::Port { group_index: 1, row } if row.id == "c"));
    assert!(flatten_device_v2_body_rows(&Vec::new()).is_empty());
    assert!(!row_has_condensed_flag(&groups[0].rows[0]));
    assert_eq!(cell_label(Some(&slots[1])), "In");
    assert_eq!(cell_label(Some(&slots[2])), "A");
    assert_eq!(cell_label(Some(&slots[0])), "");
    assert_eq!(cell_label(None), "");
    let condensed = DeviceV2BodySlot::Condensed { group_index: 0, start_label: "1".into(), end_label: "9".into() };
    assert_eq!(cell_label(Some(&condensed)), "...");
}

#[test]
fn plate_rows_follow_device_rows() {
    let groups = vec![group(Some("Wall"), &[("p", "P")]), group(None, &[])];
    let rows = flatten_av_plate_body_rows(&groups);
    let slots = flatten_device_v2_body_rows(&groups);
    assert_eq!(rows.len(), slots.len());
    assert_eq!(av_plate_body_grid_row_count(&groups), 5);
    assert!(matches!(&rows[2], AvPlateBodyRow::Port { group_index: 0, row_id, .. } if row_id == "p"));
}

#[test]
fn grid_row_count_is_the_longer_column() {
    let data = obj(vec![
        ("leftColumn", arr(vec![obj(vec![("rows", arr(vec![row("a", "A"), row("b", "B")]))])])),
        ("rightGroups", arr(vec![obj(vec![("ports", arr(vec![s("x")]))])])),
    ]);
    let (left, right) = device_v2_normalized_columns(&data);
    assert_eq!(left.len(), 1);
    assert_eq!(right[0].rows[0].id, "right-0-0");
    assert_eq!(device_v2_body_grid_row_count(&data), 4);
    let plate = obj(vec![("groups", arr(vec![obj(vec![("header", s("H"))])]))]);
    assert_eq!(av_plate_groups_from_data(&plate)[0].header.as_deref(), Some("H"));
}

#[test]
fn bundle_runs_are_maximal() {
    let ids = texts(&["a", "b", "c", "d", "e"]);
    let bundle = texts(&["a", "b", "d"]);
    assert_eq!(collect_patch_bundle_run(&ids, &bundle), vec![(0, 1, 2), (3, 3, 1)]);
    let left = vec![texts(&["e"])];
    let right = vec![texts(&["b", "c"])];
    assert_eq!(
        flat_patch_bundle_runs(&ids, Some(&left), Some(&right)),
        vec![(Side::Left, 4, 4, 1), (Side::Right, 1, 2, 2)]
    );
    assert!(flat_patch_bundle_runs(&ids, None, None).is_empty());
    let rows = flatten_av_plate_body_rows(&vec![group(None, &[("a", "A"), ("b", "B")])]);
    assert_eq!(collect_av_bundle_run(&rows, &texts(&["a", "b"])), vec![(1, 2, 2)]);
    assert_eq!(flat_av_plate_bundle_runs(&rows, None, Some(&vec![texts(&["b"])])), vec![(Side::Right, 2, 2, 1)]);
}

#[test]
fn bracket_rows_start_at_first_bundled_row() {
    let mut g = group(Some("In"), &[("a", "A"), ("b", "B"), ("c", "C")]);
    g.bundled_row_ids = vec![texts(&["c", "b"]), Vec::new(), texts(&["zz"])];
    let groups = vec![g];
    let slots = flatten_device_v2_body_rows(&groups);
    assert_eq!(bundled_bracket_rows(&slots, &groups), vec![(3, 0, 0)]);
}

#[test]
fn handle_ids_are_split() {
    assert_eq!(regex_av_port("T-0-row-1"), Some(('T', "0".to_string(), "row-1".to_string())));
    assert_eq!(regex_av_port("X-0-r"), None);
    assert_eq!(regex_av_port("T-0"), None);
    assert_eq!(regex_device_port("R-12-p"), Some(('R', "12".to_string(), "p".to_string())));
    assert_eq!(regex_av_bundle("L-av-left-3-bundle-1"), Some(('L', "3".to_string())));
    assert_eq!(regex_av_bundle("L-av-left-3-bundle"), None);
    assert_eq!(regex_device_bundle("R-2-bundle-0"), Some(('R', "2".to_string(), "0".to_string())));
    assert_eq!(regex_device_bundle("R-2-port-0"), None);
    assert_eq!(device_v2_handle_parts("L-3-in-1"), Some(("L".to_string(), 3, "in-1".to_string())));
    assert_eq!(device_v2_handle_parts("L-x-in"), None);
    assert_eq!(device_v2_handle_parts("T-3-in"), None);
    assert_eq!(av_plate_handle_row("S-1-row-7"), Some("row-7".to_string()));
    assert_eq!(av_plate_handle_row("L-1-row"), None);
    assert!(is_conn_handle(Some("conn-src")));
    assert!(is_conn_handle(Some("conn-tgt")));
    assert!(!is_conn_handle(Some("conn")));
    assert!(!is_conn_handle(None));
}

#[test]
fn built_handles_read_back() {
    let h = device_v2_port_handle(Side::Left, 3, "in-1");
    assert_eq!(h, "L-3-in-1");
    assert_eq!(device_v2_handle_parts(&h), Some(("L".to_string(), 3, "in-1".to_string())));
    assert_eq!(regex_device_port(&h), Some(('L', "3".to_string(), "in-1".to_string())));
    let r = device_v2_port_handle(Side::Right, 120, "");
    assert_eq!(r, "R-120-");
    assert_eq!(device_v2_handle_parts(&r), Some(("R".to_string(), 120, String::new())));
    let (t, s) = av_plate_port_handles(12, "p-2");
    assert_eq!((t.as_str(), s.as_str()), ("T-12-p-2", "S-12-p-2"));
    assert_eq!(av_plate_handle_row(&t).as_deref(), Some("p-2"));
    assert_eq!(av_plate_handle_row(&s).as_deref(), Some("p-2"));
    assert_eq!(regex_av_port(&s), Some(('S', "12".to_string(), "p-2".to_string())));
}

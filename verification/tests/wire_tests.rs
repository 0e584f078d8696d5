use diagramme_core::connect::{build_schematic_edge, connected_edge_ids};
use diagramme_core::diagram::{find_node, Edge, Node};
use diagramme_core::json::JsonValue;
use diagramme_core::labels::{
    find_wiretag_attached_node_id, find_wiretag_partner_node, get_device_tag_label,
    resolve_pair_main_display_text, resolve_remote_tag_for_wiretag,
};
use diagramme_core::wires::{
    av_plate_row_category, av_plate_row_comparable, comparable_category_from_stored,
    device_v2_bundle_category, device_v2_row_category, device_v2_row_comparable,
    parse_wire_category, resolve_port_category, resolve_port_category_for_connect,
    resolve_port_comparable, resolve_port_comparable_for_connect, wire_style_for_edge, WireCategory,
};

fn s(t: &str) -> JsonValue {
    JsonValue::Str(t.to_string())
}

fn arr(v: Vec<JsonValue>) -> JsonValue {
    JsonValue::Array(v)
}

fn obj(v: Vec<(&str, JsonValue)>) -> JsonValue {
    JsonValue::Object(v.into_iter().map(|(k, x)| (k.to_string(), x)).collect())
}

fn node(id: &str, node_type: &str, data: JsonValue) -> Node {
    Node { id: id.to_string(), node_type: node_type.to_string(), data }
}

fn edge(id: &str, source: &str, target: &str, sh: Option<&str>, th: Option<&str>, data: JsonValue) -> Edge {
    Edge {
        id: id.to_string(),
        source: source.to_string(),
        target: target.to_string(),
        source_handle: sh.map(|x| x.to_string()),
        target_handle: th.map(|x| x.to_string()),
        edge_type: None,
        data,
    }
}

fn cat_row(id: &str, cat: Option<&str>) -> JsonValue {
    match cat {
        Some(c) => obj(vec![("id", s(id)), ("wireCategory", s(c))]),
        None => obj(vec![("id", s(id))]),
    }
}

/// A device with one left group (rows `in1` video, `in2` without category,
/// `in3` video; one bundle of `in1` and `in3`, one of `in1` and `in2`) and one
/// right group (row `out1` audio).
fn device() -> Node {
    node(
        "dev",
        "deviceV2",
        obj(vec![
            (
                "leftColumn",
                arr(vec![obj(vec![
                    (
                        "rows",
                        arr(vec![cat_row("in1", Some("video")), cat_row("in2", None), cat_row("in3", Some(" VIDEO "))]),
                    ),
                    (
                        "bundledRowIds",
                        arr(vec![arr(vec![s("in1"), s("in3")]), arr(vec![s("in1"), s("in2")])]),
                    ),
                ])]),
            ),
            ("rightColumn", arr(vec![obj(vec![("rows", arr(vec![cat_row("out1", Some("audio"))]))])])),
        ]),
    )
}

fn plate() -> Node {
    node(
        "plate",
        "avPlate",
        obj(vec![(
            "groups",
            arr(vec![
                obj(vec![("rows", arr(vec![cat_row("p1", Some("network"))]))]),
                obj(vec![("rows", arr(vec![cat_row("p2", Some("-")), cat_row("p3", None)]))]),
            ]),
        )]),
    )
}

#[test]
fn category_names_and_colors() {
    let all = [
        (WireCategory::Audio, "audio", 0xAE3700),
        (WireCategory::Video, "video", 0x0057C0),
        (WireCategory::Control, "control", 0x006F00),
        (WireCategory::Network, "network", 0x6F20BD),
        (WireCategory::Rf, "rf", 0xB30300),
        (WireCategory::Power, "power", 0x9B0096),
        (WireCategory::Default, "default", 0x494F4B),
        (WireCategory::Mismatch, "mismatch", 0xBA0000),
    ];
    for (c, name, rgb) in all {
        assert_eq!(c.as_str(), name);
        assert_eq!(c.color_rgb(), rgb);
    }
}

#[test]
fn stored_categories_are_trimmed_and_case_folded() {
    assert_eq!(parse_wire_category(&s(" Audio ")), Some(WireCategory::Audio));
    assert_eq!(parse_wire_category(&s("POWER")), Some(WireCategory::Power));
    assert_eq!(parse_wire_category(&s("rf")), Some(WireCategory::Rf));
    assert_eq!(parse_wire_category(&s("control")), Some(WireCategory::Control));
    assert_eq!(parse_wire_category(&s("")), Some(WireCategory::Default));
    assert_eq!(parse_wire_category(&s("   ")), Some(WireCategory::Default));
    assert_eq!(parse_wire_category(&s("default")), Some(WireCategory::Default));
    assert_eq!(parse_wire_category(&s("mismatch")), None);
    assert_eq!(parse_wire_category(&s("speaker")), None);
    assert_eq!(parse_wire_category(&JsonValue::Bool(true)), None);
    assert_eq!(parse_wire_category(&JsonValue::Null), None);
}

#[test]
fn comparable_keeps_the_dash_marker() {
    assert_eq!(comparable_category_from_stored(&s(" - ")).as_deref(), Some("-"));
    assert_eq!(comparable_category_from_stored(&s("Video")).as_deref(), Some("video"));
    assert_eq!(comparable_category_from_stored(&s("")).as_deref(), Some("default"));
    assert_eq!(comparable_category_from_stored(&s("x")), None);
    assert_eq!(comparable_category_from_stored(&JsonValue::Null), None);
}

#[test]
fn device_rows_resolve_their_category() {
    let d = device();
    assert_eq!(device_v2_row_category(&d, "L-0-in1"), Some(WireCategory::Video));
    assert_eq!(device_v2_row_category(&d, "L-0-in2"), Some(WireCategory::Default));
    assert_eq!(device_v2_row_category(&d, "R-0-out1"), Some(WireCategory::Audio));
    assert_eq!(device_v2_row_category(&d, "R-0-in1"), None);
    assert_eq!(device_v2_row_category(&d, "L-1-in1"), None);
    assert_eq!(device_v2_row_category(&d, "L-0-bundle"), None);
    assert_eq!(device_v2_row_category(&d, "X-0-in1"), None);
    assert_eq!(device_v2_row_category(&d, "L0-in1"), None);
    assert_eq!(device_v2_row_comparable(&d, "L-0-in3").as_deref(), Some("video"));
    assert_eq!(device_v2_row_comparable(&d, "L-0-in2"), None);
    assert_eq!(device_v2_row_comparable(&d, "R-0-out1").as_deref(), Some("audio"));
}

#[test]
fn device_bundles_resolve_only_one_shared_category() {
    let d = device();
    assert_eq!(device_v2_bundle_category(&d, "L-0-bundle"), Some(WireCategory::Video));
    assert_eq!(device_v2_bundle_category(&d, "L-0-bundle-0"), Some(WireCategory::Video));
    assert_eq!(device_v2_bundle_category(&d, "L-0-bundle-1"), None);
    assert_eq!(device_v2_bundle_category(&d, "L-0-bundle-2"), None);
    assert_eq!(device_v2_bundle_category(&d, "L-0-in1"), None);
    assert_eq!(device_v2_bundle_category(&d, "R-0-bundle"), None);
}

#[test]
fn plate_rows_resolve_their_category() {
    let p = plate();
    assert_eq!(av_plate_row_category(&p, "T-0-p1"), Some(WireCategory::Network));
    assert_eq!(av_plate_row_category(&p, "S-1-p3"), Some(WireCategory::Default));
    assert_eq!(av_plate_row_category(&p, "S-1-p2"), Some(WireCategory::Default));
    assert_eq!(av_plate_row_category(&p, "T-0-zz"), None);
    assert_eq!(av_plate_row_category(&p, "Q-0-p1"), None);
    assert_eq!(av_plate_row_comparable(&p, "S-1-p2").as_deref(), Some("-"));
    assert_eq!(av_plate_row_comparable(&p, "T-0-p1").as_deref(), Some("network"));
    assert_eq!(av_plate_row_comparable(&p, "S-1-p3"), None);
}

#[test]
fn port_categories_by_node_type() {
    let d = device();
    assert_eq!(resolve_port_category(&d, Some("L-0-bundle")), Some(WireCategory::Video));
    assert_eq!(resolve_port_category(&d, Some("R-0-out1")), Some(WireCategory::Audio));
    assert_eq!(resolve_port_category(&d, None), None);
    let empty = || obj(vec![]);
    assert_eq!(resolve_port_category(&node("a", "lppPatchPanel", empty()), Some("x")), Some(WireCategory::Audio));
    assert_eq!(resolve_port_category(&node("a", "mlpPatchPanel", empty()), Some("x")), Some(WireCategory::Audio));
    assert_eq!(resolve_port_category(&node("a", "dppPatchPanel", empty()), Some("x")), Some(WireCategory::Network));
    assert_eq!(resolve_port_category(&node("a", "vpbPatchPanel", empty()), Some("x")), Some(WireCategory::Video));
    assert_eq!(resolve_port_category(&node("a", "micBlock", empty()), Some("x")), Some(WireCategory::Audio));
    assert_eq!(
        resolve_port_category(&node("a", "speakerBlock", obj(vec![("wireCategory", s("control"))])), Some("x")),
        Some(WireCategory::Control)
    );
    assert_eq!(resolve_port_category(&node("a", "flyoffNote", empty()), Some("x")), Some(WireCategory::Default));
    assert_eq!(
        resolve_port_category(&node("a", "antennaReceiverSymbol", empty()), Some("x")),
        Some(WireCategory::Rf)
    );
    assert_eq!(resolve_port_category(&node("a", "wiretag", empty()), Some("x")), None);

    assert_eq!(resolve_port_comparable(&node("a", "micBlock", empty()), Some("x")).as_deref(), Some("audio"));
    assert_eq!(
        resolve_port_comparable(&node("a", "volumeControl", obj(vec![("wireCategory", s("bogus"))])), Some("x"))
            .as_deref(),
        Some("audio")
    );
    assert_eq!(resolve_port_comparable(&node("a", "flyoffNote", empty()), Some("x")), None);
    assert_eq!(
        resolve_port_comparable(&node("a", "flyoffNote", obj(vec![("wireCategory", s("-"))])), Some("x")).as_deref(),
        Some("-")
    );
    assert_eq!(resolve_port_comparable(&node("a", "dppPatchPanel", empty()), Some("x")).as_deref(), Some("network"));
    assert_eq!(resolve_port_comparable(&d, Some("L-0-bundle")), None);
    assert_eq!(resolve_port_category_for_connect(&d, Some("L-0-in1")).as_deref(), Some("video"));
    assert_eq!(resolve_port_comparable_for_connect(&d, Some("L-0-in1")).as_deref(), Some("video"));
}

#[test]
fn wire_style_follows_ports_and_flags_mismatch() {
    let d = device();
    let p = plate();
    let plain = || obj(vec![]);
    let e = edge("e1", "dev", "plate", Some("R-0-out1"), Some("T-0-p1"), plain());
    assert_eq!(wire_style_for_edge(&e, Some(&d), Some(&p)), ("mismatch".to_string(), 0xBA0000));
    let e = edge("e2", "dev", "plate", Some("R-0-out1"), Some("T-0-zz"), plain());
    assert_eq!(wire_style_for_edge(&e, Some(&d), Some(&p)), ("audio".to_string(), 0xAE3700));
    let e = edge("e3", "dev", "plate", Some("R-0-zz"), Some("T-0-p1"), plain());
    assert_eq!(wire_style_for_edge(&e, Some(&d), Some(&p)), ("network".to_string(), 0x6F20BD));
    let e = edge("e4", "x", "y", None, None, obj(vec![("wireCategory", s("Rf"))]));
    assert_eq!(wire_style_for_edge(&e, None, None), ("rf".to_string(), 0xB30300));
    let e = edge("e5", "x", "y", None, None, plain());
    assert_eq!(wire_style_for_edge(&e, None, None), ("default".to_string(), 0x494F4B));
    let e = edge("e6", "x", "y", None, None, obj(vec![("wireCategoryMismatch", JsonValue::Bool(true))]));
    assert_eq!(wire_style_for_edge(&e, None, None), ("mismatch".to_string(), 0xBA0000));
    // the same mismatch seen from the other end
    let e = edge("e7", "plate", "dev", Some("T-0-p1"), Some("R-0-out1"), plain());
    assert_eq!(wire_style_for_edge(&e, Some(&p), Some(&d)), ("mismatch".to_string(), 0xBA0000));
}

#[test]
fn device_tag_labels() {
    let t = |ty: &str, data: JsonValue| get_device_tag_label(&node("n-1", ty, data));
    assert_eq!(t("deviceV2", obj(vec![("tagCode", s(" AMP ")), ("tagNumber", s("2"))])), "AMP / 2");
    assert_eq!(t("deviceV2", obj(vec![("tagCode", s("AMP"))])), "AMP");
    assert_eq!(t("deviceV2", obj(vec![("tagNumber", s(" 7 "))])), "7");
    assert_eq!(t("deviceV2", obj(vec![])), "n-1");
    assert_eq!(t("micBlock", obj(vec![("line1", s(" M1 "))])), "M1");
    assert_eq!(t("speakerBlock", obj(vec![("line1", s("  "))])), "n-1");
    assert_eq!(t("volumeControl", obj(vec![])), "VC");
    assert_eq!(t("antennaTransmitterSymbol", obj(vec![])), "ANT");
    assert_eq!(t("antennaReceiverSymbol", obj(vec![("line1", s("RX"))])), "RX");
}

fn wiretag(id: &str, pair: &str, desc: Option<&str>) -> Node {
    let mut d = vec![("pairId", s(pair))];
    if let Some(x) = desc {
        d.push(("tagDescription", s(x)));
    }
    node(id, "wiretag", obj(d))
}

#[test]
fn wiretag_pairs_show_the_remote_device() {
    let nodes = vec![
        wiretag("wt-a", "p1", None),
        wiretag("wt-b", "p1", None),
        node("amp", "deviceV2", obj(vec![("tagCode", s("AMP")), ("tagNumber", s("1"))])),
        wiretag("wt-c", "p2", Some(" Feed ")),
    ];
    let edges = vec![
        edge("e1", "wt-b", "wt-b", Some("conn-src"), None, obj(vec![])),
        edge("e2", "amp", "wt-b", Some("R-0-x"), Some("conn-tgt"), obj(vec![])),
    ];
    assert_eq!(find_wiretag_attached_node_id("wt-b", &edges).as_deref(), Some("amp"));
    assert_eq!(find_wiretag_attached_node_id("wt-a", &edges), None);
    assert_eq!(find_wiretag_partner_node("wt-a", "p1", &nodes).map(|n| n.id.as_str()), Some("wt-b"));
    assert_eq!(find_wiretag_partner_node("wt-c", "p2", &nodes).map(|n| n.id.as_str()), None);
    assert_eq!(resolve_remote_tag_for_wiretag(&nodes[0], &nodes, &edges), "AMP / 1");
    assert_eq!(resolve_remote_tag_for_wiretag(&nodes[1], &nodes, &edges), "");
    assert_eq!(resolve_remote_tag_for_wiretag(&nodes[2], &nodes, &edges), "");
    assert_eq!(resolve_pair_main_display_text(&nodes[0], &nodes, &edges), "AMP / 1");
    assert_eq!(resolve_pair_main_display_text(&nodes[3], &nodes, &edges), "Feed");
    assert_eq!(resolve_pair_main_display_text(&nodes[2], &nodes, &edges), "");
    assert_eq!(find_node(&nodes, "amp").map(|n| n.node_type.as_str()), Some("deviceV2"));
    assert!(find_node(&nodes, "nope").is_none());
}

#[test]
fn connected_edges_in_order() {
    let edges = vec![
        edge("e1", "a", "b", None, None, obj(vec![])),
        edge("e2", "c", "d", None, None, obj(vec![])),
        edge("e3", "d", "a", None, None, obj(vec![])),
    ];
    assert_eq!(connected_edge_ids(&edges, "a"), vec!["e1".to_string(), "e3".to_string()]);
    assert_eq!(connected_edge_ids(&edges, "d"), vec!["e2".to_string(), "e3".to_string()]);
    assert!(connected_edge_ids(&edges, "z").is_empty());
}

fn center() -> Option<(JsonValue, JsonValue)> {
    Some((JsonValue::Number("12".to_string()), JsonValue::Number("34.5".to_string())))
}

#[test]
fn schematic_edge_refusals() {
    let nodes = vec![device(), plate()];
    let err = |src: &str, tgt: &str, sc: bool, tc: bool| {
        build_schematic_edge(
            &nodes,
            src,
            tgt,
            Some("R-0-out1"),
            Some("T-0-p1"),
            if sc { center() } else { None },
            if tc { center() } else { None },
        )
        .err()
    };
    assert_eq!(err("dev", "dev", true, true).as_deref(), Some("cannot connect a node to itself"));
    assert_eq!(err("zz", "plate", true, true).as_deref(), Some("missing source node zz"));
    assert_eq!(err("dev", "qq", true, true).as_deref(), Some("missing target node qq"));
    assert_eq!(err("dev", "plate", false, true).as_deref(), Some("invalid source port"));
    assert_eq!(err("dev", "plate", true, false).as_deref(), Some("invalid target port"));
}

#[test]
fn schematic_edge_carries_centers_and_category() {
    let nodes = vec![device(), plate()];
    let e = build_schematic_edge(&nodes, "dev", "plate", Some("R-0-out1"), Some("T-0-p1"), center(), center())
        .expect("edge");
    assert!(e.id.starts_with("e-"));
    assert_eq!(e.id.len(), 38);
    assert_eq!(e.id.as_bytes()[16], b'4');
    assert_eq!(e.source, "dev");
    assert_eq!(e.target, "plate");
    assert_eq!(e.source_handle.as_deref(), Some("R-0-out1"));
    assert_eq!(e.target_handle.as_deref(), Some("T-0-p1"));
    assert_eq!(e.edge_type.as_deref(), Some("schematic"));
    assert!(e.data.get("sourceHandleCenter").is_some());
    let tc = e.data.get("targetHandleCenter").unwrap();
    assert!(matches!(tc.get("y"), Some(JsonValue::Number(n)) if n == "34.5"));
    assert_eq!(e.data.get("wireCategory").and_then(|v| v.as_str()), Some("audio"));
    assert_eq!(e.data.get("wireCategoryMismatch").and_then(|v| v.as_bool()), Some(true));

    let e2 = build_schematic_edge(&nodes, "plate", "dev", Some("T-0-zz"), Some("L-0-in1"), center(), center())
        .expect("edge");
    assert_eq!(e2.data.get("wireCategory").and_then(|v| v.as_str()), Some("video"));
    assert_eq!(e2.data.get("wireCategoryMismatch").and_then(|v| v.as_bool()), Some(false));
    assert_ne!(e.id, e2.id);

    let e3 = build_schematic_edge(&nodes, "plate", "dev", None, None, center(), center()).expect("edge");
    assert_eq!(e3.data.get("wireCategory").and_then(|v| v.as_str()), Some("default"));
    assert_eq!(e3.source_handle, None);
}

use diagramme_core::diagram::{Edge, Node};
use diagramme_core::json::JsonValue;
use diagramme_core::node_text::{
    av_plate_title_text, block_label_lines, device_v2_title_text, junction_title_text, mic_channel_label,
    patch_panel_row_plans, patch_panel_title_lines, PatchRowPlan, schematic_tag_label, schematic_tag_text, wiretag_band_texts,
};

fn s(t: &str) -> JsonValue {
    JsonValue::Str(t.to_string())
}

fn obj(v: Vec<(&str, JsonValue)>) -> JsonValue {
    JsonValue::Object(v.into_iter().map(|(k, x)| (k.to_string(), x)).collect())
}

fn node(id: &str, t: &str, data: JsonValue) -> Node {
    Node { id: id.to_string(), node_type: t.to_string(), data }
}

fn strings(v: &[&str]) -> Vec<String> {
    v.iter().map(|x| x.to_string()).collect()
}

#[test]
fn frame_tags() {
    assert_eq!(schematic_tag_text(&obj(vec![])), "/");
    assert_eq!(schematic_tag_label(&obj(vec![])), "/");
    let d = obj(vec![("tagCode", s(" amp ")), ("tagNumber", s("2"))]);
    assert_eq!(schematic_tag_text(&d), "amp / 2");
    assert_eq!(schematic_tag_label(&d), "AMP / 2");
    assert_eq!(schematic_tag_text(&obj(vec![("tagCode", s("A"))])), "A /");
    assert_eq!(schematic_tag_text(&obj(vec![("tagNumber", s("7"))])), "/ 7");
}

#[test]
fn frame_titles() {
    assert_eq!(device_v2_title_text(&obj(vec![("label", s("  ")), ("description", s(" Mixer desk "))])), "MIXER DESK");
    assert_eq!(device_v2_title_text(&obj(vec![("label", s("Amp")), ("description", s("x"))])), "AMP");
    assert_eq!(device_v2_title_text(&obj(vec![])), "");
    let long = "a".repeat(60);
    assert_eq!(device_v2_title_text(&obj(vec![("label", s(&long))])), "A".repeat(48));
    let plate = obj(vec![("description", s(" Wall plate "))]);
    assert_eq!(av_plate_title_text(&plate, Some(2)), "WALL PLATE (2)");
    assert_eq!(av_plate_title_text(&plate, None), "WALL PLATE");
    assert_eq!(av_plate_title_text(&obj(vec![]), Some(3)), " (3)");
    assert_eq!(junction_title_text(&obj(vec![("tagCode", s(" jb "))]), Some(1)), "JB (1)");
    assert_eq!(junction_title_text(&obj(vec![]), None), "");
}

#[test]
fn patch_panel_titles() {
    assert_eq!(patch_panel_title_lines(&node("p", "dppPatchPanel", obj(vec![])), Some(2)), strings(&["Data patch panel (2)"]));
    assert_eq!(patch_panel_title_lines(&node("p", "vpbPatchPanel", obj(vec![])), None), strings(&["Video", "Patch panel"]));
    assert_eq!(patch_panel_title_lines(&node("p", "mlpPatchPanel", obj(vec![])), Some(1)), strings(&["Mic/line", "Patch panel (1)"]));
    assert_eq!(patch_panel_title_lines(&node("p", "lppPatchPanel", obj(vec![])), None), strings(&["Loudspeaker patch panel"]));
    let own = obj(vec![("descriptionLines", JsonValue::Array(vec![s(" Rack A "), s(" ")]))]);
    assert_eq!(patch_panel_title_lines(&node("p", "mlpPatchPanel", own), Some(4)), strings(&["Rack A (4)"]));
}

#[test]
fn block_labels() {
    assert_eq!(block_label_lines(&obj(vec![("line1", s("Mic 1"))])), ("MIC 1".to_string(), " ".to_string()));
    assert_eq!(
        block_label_lines(&obj(vec![("line1", s("")), ("line2", s("lectern"))])),
        (" ".to_string(), "LECTERN".to_string())
    );
    assert_eq!(mic_channel_label(&obj(vec![("channelNumber", s("12"))])), "12");
    assert_eq!(mic_channel_label(&obj(vec![("channelNumber", s("123456789"))])), "12345678");
    assert_eq!(mic_channel_label(&obj(vec![])), " ");
}

#[test]
fn wiretag_bands() {
    let wt = |data: JsonValue| node("wt", "wiretag", data);
    let nodes: Vec<Node> = Vec::new();
    let edges: Vec<Edge> = Vec::new();
    let a = wt(obj(vec![
        ("tagDescription", s(" feed ")),
        ("showSheetName", JsonValue::Bool(true)),
        ("sheetName", s(" S1 ")),
    ]));
    assert_eq!(wiretag_band_texts(&a, &nodes, &edges, 3), ("FEED".to_string(), "S1".to_string(), "3".to_string()));
    let b = wt(obj(vec![("sheetName", s("S1")), ("showSheetName", s("yes"))]));
    assert_eq!(wiretag_band_texts(&b, &nodes, &edges, 3), ("WT-3".to_string(), String::new(), "3".to_string()));
    assert_eq!(wiretag_band_texts(&b, &nodes, &edges, -2), ("WT--2".to_string(), String::new(), "-2".to_string()));
    let c = wt(obj(vec![("showSheetName", JsonValue::Bool(false)), ("sheetName", s("S1"))]));
    assert_eq!(wiretag_band_texts(&c, &nodes, &edges, 0).1, "");
}

#[test]
fn patch_panel_rows_by_type() {
    let rows = |v: Vec<JsonValue>| obj(vec![("rows", JsonValue::Array(v))]);
    let dpp = node(
        "d",
        "dppPatchPanel",
        rows(vec![obj(vec![("direction", s("output")), ("label", s("uplink port number one!"))]), obj(vec![])]),
    );
    assert_eq!(
        patch_panel_row_plans(&dpp),
        vec![
            PatchRowPlan::Data { output: true, label: "UPLINK PORT NUMBER ONE!".to_string() },
            PatchRowPlan::Data { output: false, label: String::new() },
        ]
    );
    let mlp = node("m", "mlpPatchPanel", rows(vec![obj(vec![("normalling", s(" half-norm "))]), obj(vec![])]));
    assert_eq!(
        patch_panel_row_plans(&mlp),
        vec![
            PatchRowPlan::Normalled { normalling: "HALF".to_string(), number: "1".to_string() },
            PatchRowPlan::Normalled { normalling: String::new(), number: "2".to_string() },
        ]
    );
    let vpb = node("v", "vpbPatchPanel", rows(vec![obj(vec![("normalling", s("full"))])]));
    assert_eq!(
        patch_panel_row_plans(&vpb),
        vec![PatchRowPlan::Normalled { normalling: "FU".to_string(), number: "1".to_string() }]
    );
    let lpp = node("l", "lppPatchPanel", rows(vec![obj(vec![("connected", JsonValue::Bool(true))]), obj(vec![])]));
    assert_eq!(
        patch_panel_row_plans(&lpp),
        vec![
            PatchRowPlan::Speaker { connected: true, number: "1".to_string() },
            PatchRowPlan::Speaker { connected: false, number: "2".to_string() },
        ]
    );
    assert!(patch_panel_row_plans(&node("x", "lppPatchPanel", obj(vec![]))).is_empty());
}

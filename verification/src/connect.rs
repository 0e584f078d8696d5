//! New schematic connections: checks, wire category metadata, and the edge.

use vstd::prelude::*;

use crate::chars::{push_all, str_chars, string_from_chars};
use crate::diagram::{find_node, node_with_id, same_text, Edge, Node};
use crate::json::JsonValue;
use crate::wires::{
    category_name, opt_str, port_category, port_comparable, resolve_port_category_for_connect,
    resolve_port_comparable_for_connect,
};

verus! {

/// The shape of the text of a version 4 UUID: 36 characters, hyphens at
/// 8, 13, 18 and 23, the version digit `4` at 14, lower-case hexadecimal digits elsewhere.
pub open spec fn uuid_v4_text(u: Seq<char>) -> bool {
    &&& u.len() == 36
    &&& forall|i: int|
        0 <= i < 36 ==> if i == 8 || i == 13 || i == 18 || i == 23 {
            #[trigger] u[i] == '-'
        } else {
            ('0' <= u[i] <= '9') || ('a' <= u[i] <= 'f')
        }
    &&& u[14] == '4'
}

/// `uuid::Uuid::new_v4().to_string()`: a random version 4 UUID in its
/// hyphenated lower-case form. The contract states the form only; the value
/// is random.
#[verifier::external_body]
fn random_uuid_text() -> (r: String)
    ensures
        uuid_v4_text(r@),
{
    uuid::Uuid::new_v4().to_string()
}

/// Ids of the edges that touch `node_id`, in order.
pub open spec fn touching(edges: Seq<Edge>, node_id: Seq<char>) -> Seq<Seq<char>>
    decreases edges.len(),
{
    if edges.len() == 0 {
        Seq::empty()
    } else {
        touching(edges.drop_last(), node_id) + if edges.last().source@ == node_id
            || edges.last().target@ == node_id {
            seq![edges.last().id@]
        } else {
            Seq::<Seq<char>>::empty()
        }
    }
}

/// The ids of the edges whose source or target is `node_id`.
pub fn connected_edge_ids(edges: &Vec<Edge>, node_id: &str) -> (out: Vec<String>)
    ensures
        out@.map_values(|s: String| s@) == touching(edges@, node_id@),
{
    let mut out: Vec<String> = Vec::new();
    let mut k: usize = 0;
    while k < edges.len()
        invariant
            k <= edges@.len(),
            out@.map_values(|s: String| s@) == touching(edges@.take(k as int), node_id@),
        decreases edges@.len() - k,
    {
        let e = &edges[k];
        let ghost prev = out@.map_values(|s: String| s@);
        proof {
            let t = edges@.take(k + 1);
            assert(t.drop_last() =~= edges@.take(k as int));
            assert(t.last() == *e);
        }
        if same_text(e.source.as_str(), node_id) || same_text(e.target.as_str(), node_id) {
            out.push(e.id.clone());
            assert(out@.map_values(|s: String| s@) =~= prev.push(e.id@));
        } else {
            assert(out@.map_values(|s: String| s@) =~= prev);
        }
        k += 1;
    }
    assert(edges@.take(edges@.len() as int) =~= edges@);
    out
}

/// Why a connection is refused, if it is: a node to itself, a missing end
/// node, or an end port without a center.
pub open spec fn connect_error(
    nodes: Seq<Node>,
    source: Seq<char>,
    target: Seq<char>,
    source_center_found: bool,
    target_center_found: bool,
) -> Option<Seq<char>> {
    if source == target {
        Some("cannot connect a node to itself"@)
    } else if node_with_id(nodes, source) is None {
        Some("missing source node "@ + source)
    } else if node_with_id(nodes, target) is None {
        Some("missing target node "@ + target)
    } else if !source_center_found {
        Some("invalid source port"@)
    } else if !target_center_found {
        Some("invalid target port"@)
    } else {
        None
    }
}

/// The category of a new wire: the source port's, else the target port's,
/// else `default`.
pub open spec fn connect_category(src: Node, tgt: Node, sh: Option<Seq<char>>, th: Option<Seq<char>>) -> Seq<
    char,
> {
    match port_category(src, sh) {
        Some(c) => category_name(c),
        None => match port_category(tgt, th) {
            Some(c) => category_name(c),
            None => "default"@,
        },
    }
}

/// A new wire is a mismatch when both ports resolve to different comparable categories.
pub open spec fn connect_mismatch(src: Node, tgt: Node, sh: Option<Seq<char>>, th: Option<Seq<char>>) -> bool {
    let a = port_comparable(src, sh);
    let b = port_comparable(tgt, th);
    a is Some && b is Some && a != b
}

/// `v` is the JSON object `{"x": x, "y": y}`.
pub open spec fn is_point(v: JsonValue, x: JsonValue, y: JsonValue) -> bool {
    v matches JsonValue::Object(m) && m@.len() == 2 && m@[0].0@ == "x"@ && m@[0].1 == x && m@[1].0@
        == "y"@ && m@[1].1 == y
}

/// `v` is the data of a new edge: both handle centers, its category and
/// mismatch flag.
pub open spec fn is_edge_data(
    v: JsonValue,
    sc: (JsonValue, JsonValue),
    tc: (JsonValue, JsonValue),
    category: Seq<char>,
    mismatch: bool,
) -> bool {
    &&& v matches JsonValue::Object(m)
    &&& m@.len() == 4
    &&& m@[0].0@ == "sourceHandleCenter"@
    &&& is_point(m@[0].1, sc.0, sc.1)
    &&& m@[1].0@ == "targetHandleCenter"@
    &&& is_point(m@[1].1, tc.0, tc.1)
    &&& m@[2].0@ == "wireCategory"@
    &&& crate::json::json_str(m@[2].1) == Some(category)
    &&& m@[3].0@ == "wireCategoryMismatch"@
    &&& m@[3].1 == JsonValue::Bool(mismatch)
}

fn point(x: JsonValue, y: JsonValue) -> (v: JsonValue)
    ensures
        is_point(v, x, y),
{
    let mut m: Vec<(String, JsonValue)> = Vec::new();
    m.push(("x".to_owned(), x));
    m.push(("y".to_owned(), y));
    JsonValue::Object(m)
}

/// Builds a new schematic edge between two node ports, with the handle
/// centers (found by the caller from the port geometry, none for a missing
/// or unknown port) and the wire category metadata.
pub fn build_schematic_edge(
    nodes: &Vec<Node>,
    source: &str,
    target: &str,
    source_handle: Option<&str>,
    target_handle: Option<&str>,
    source_center: Option<(JsonValue, JsonValue)>,
    target_center: Option<(JsonValue, JsonValue)>,
) -> (r: Result<Edge, String>)
    ensures
        match r {
            Err(msg) => connect_error(
                nodes@,
                source@,
                target@,
                source_center is Some,
                target_center is Some,
            ) == Some(msg@),
            Ok(e) => {
                &&& connect_error(
                    nodes@,
                    source@,
                    target@,
                    source_center is Some,
                    target_center is Some,
                ) is None
                &&& exists|u: Seq<char>| uuid_v4_text(u) && e.id@ == "e-"@ + u
                &&& e.source@ == source@
                &&& e.target@ == target@
                &&& crate::wires::handle_text(e.source_handle) == opt_str(source_handle)
                &&& crate::wires::handle_text(e.target_handle) == opt_str(target_handle)
                &&& crate::wires::handle_text(e.edge_type) == Some("schematic"@)
                &&& is_edge_data(
                    e.data,
                    source_center->0,
                    target_center->0,
                    connect_category(
                        node_with_id(nodes@, source@)->0,
                        node_with_id(nodes@, target@)->0,
                        opt_str(source_handle),
                        opt_str(target_handle),
                    ),
                    connect_mismatch(
                        node_with_id(nodes@, source@)->0,
                        node_with_id(nodes@, target@)->0,
                        opt_str(source_handle),
                        opt_str(target_handle),
                    ),
                )
            },
        },
{
    if same_text(source, target) {
        return Err("cannot connect a node to itself".to_owned());
    }
    let src_node = match find_node(nodes, source) {
        Some(n) => n,
        None => {
            let mut m = str_chars("missing source node ");
            let t = str_chars(source);
            push_all(&mut m, &t);
            return Err(string_from_chars(&m));
        },
    };
    let tgt_node = match find_node(nodes, target) {
        Some(n) => n,
        None => {
            let mut m = str_chars("missing target node ");
            let t = str_chars(target);
            push_all(&mut m, &t);
            return Err(string_from_chars(&m));
        },
    };
    let ghost sc_in = source_center;
    let ghost tc_in = target_center;
    let (sx, sy) = match source_center {
        Some(c) => c,
        None => {
            return Err("invalid source port".to_owned());
        },
    };
    let (tx, ty) = match target_center {
        Some(c) => c,
        None => {
            return Err("invalid target port".to_owned());
        },
    };
    let src_cat = resolve_port_category_for_connect(src_node, source_handle);
    let tgt_cat = resolve_port_category_for_connect(tgt_node, target_handle);
    let src_cmp = resolve_port_comparable_for_connect(src_node, source_handle);
    let tgt_cmp = resolve_port_comparable_for_connect(tgt_node, target_handle);
    let mismatch = match (&src_cmp, &tgt_cmp) {
        (Some(a), Some(b)) => !same_text(a.as_str(), b.as_str()),
        _ => false,
    };
    let category = match src_cat {
        Some(c) => c,
        None => match tgt_cat {
            Some(c) => c,
            None => "default".to_owned(),
        },
    };
    let mut data: Vec<(String, JsonValue)> = Vec::new();
    data.push(("sourceHandleCenter".to_owned(), point(sx, sy)));
    data.push(("targetHandleCenter".to_owned(), point(tx, ty)));
    data.push(("wireCategory".to_owned(), JsonValue::Str(category)));
    data.push(("wireCategoryMismatch".to_owned(), JsonValue::Bool(mismatch)));
    let u = random_uuid_text();
    let mut id = str_chars("e-");
    let uv = str_chars(u.as_str());
    push_all(&mut id, &uv);
    let edge = Edge {
        id: string_from_chars(&id),
        source: source.to_owned(),
        target: target.to_owned(),
        source_handle: match source_handle {
            Some(h) => Some(h.to_owned()),
            None => None,
        },
        target_handle: match target_handle {
            Some(h) => Some(h.to_owned()),
            None => None,
        },
        edge_type: Some("schematic".to_owned()),
        data: JsonValue::Object(data),
    };
    assert(edge.id@ == "e-"@ + u@);
    Ok(edge)
}

} // verus!

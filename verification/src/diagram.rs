//! Diagram nodes and edges as the wiring and labelling rules read them.

use vstd::prelude::*;

use crate::chars::{str_chars, vec_eq};
use crate::json::JsonValue;

verus! {

/// A diagram node: its id, its type and its data.
#[derive(Debug)]
pub struct Node {
    pub id: String,
    pub node_type: String,
    pub data: JsonValue,
}

/// A diagram edge between two node handles, with its data.
#[derive(Debug)]
pub struct Edge {
    pub id: String,
    pub source: String,
    pub target: String,
    pub source_handle: Option<String>,
    pub target_handle: Option<String>,
    pub edge_type: Option<String>,
    pub data: JsonValue,
}

/// Whether two texts are equal.
pub fn same_text(a: &str, b: &str) -> (r: bool)
    ensures
        r == (a@ == b@),
{
    let x = str_chars(a);
    let y = str_chars(b);
    vec_eq(&x, &y)
}

/// The index of the first node with id `id` from index `i` on.
pub open spec fn node_index_from(nodes: Seq<Node>, id: Seq<char>, i: int) -> Option<int>
    decreases nodes.len() - i,
{
    if i < 0 || i >= nodes.len() {
        None
    } else if nodes[i].id@ == id {
        Some(i)
    } else {
        node_index_from(nodes, id, i + 1)
    }
}

/// The first node whose id is `id`.
pub open spec fn node_with_id(nodes: Seq<Node>, id: Seq<char>) -> Option<Node> {
    match node_index_from(nodes, id, 0) {
        Some(i) => Some(nodes[i]),
        None => None,
    }
}

/// The first node whose id is `id`.
pub fn find_node<'a>(nodes: &'a Vec<Node>, id: &str) -> (r: Option<&'a Node>)
    ensures
        match r {
            Some(n) => node_with_id(nodes@, id@) == Some(*n),
            None => node_with_id(nodes@, id@) is None,
        },
{
    let mut i: usize = 0;
    while i < nodes.len()
        invariant
            i <= nodes@.len(),
            node_index_from(nodes@, id@, 0) == node_index_from(nodes@, id@, i as int),
        decreases nodes@.len() - i,
    {
        if same_text(nodes[i].id.as_str(), id) {
            return Some(&nodes[i]);
        }
        i += 1;
    }
    None
}

} // verus!

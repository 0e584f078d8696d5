//! Tag labels of equipment nodes and the text shown on wiretags.

use vstd::prelude::*;

use crate::chars::{push_str, str_chars, string_from_chars, trim, trim_vec};
use crate::diagram::{find_node, node_with_id, same_text, Edge, Node};
use crate::json::{get_str, str_member, JsonValue};
use crate::layout::or_empty;
use crate::ports::{conn_handle, is_conn_handle};
use crate::wires::handle_text;

verus! {

/// The trimmed text of a member, empty when missing.
pub open spec fn member_text(data: JsonValue, key: Seq<char>) -> Seq<char> {
    trim(or_empty(str_member(data, key)))
}

pub(crate) fn member_text_exec(data: &JsonValue, key: &str) -> (r: Vec<char>)
    ensures
        r@ == member_text(*data, key@),
{
    let v = match get_str(data, key) {
        Some(s) => str_chars(s),
        None => Vec::new(),
    };
    trim_vec(&v)
}

/// The display tag of an equipment node: `code / number` when both are set,
/// else whichever is set; without either, a per-type fallback (the first
/// line of microphones and speakers, `VC`, the antenna line or `ANT`, else the
/// node id).
pub open spec fn device_tag(node: Node) -> Seq<char> {
    let code = member_text(node.data, "tagCode"@);
    let num = member_text(node.data, "tagNumber"@);
    let t = node.node_type@;
    if code.len() > 0 || num.len() > 0 {
        if code.len() > 0 && num.len() > 0 {
            code + " / "@ + num
        } else {
            trim(code + num)
        }
    } else if t == "micBlock"@ || t == "speakerBlock"@ {
        let line1 = member_text(node.data, "line1"@);
        if line1.len() == 0 {
            node.id@
        } else {
            line1
        }
    } else if t == "volumeControl"@ {
        "VC"@
    } else if t == "antennaTransmitterSymbol"@ || t == "antennaReceiverSymbol"@ {
        let line1 = member_text(node.data, "line1"@);
        if line1.len() == 0 {
            "ANT"@
        } else {
            line1
        }
    } else {
        node.id@
    }
}

fn node_type_is(node: &Node, t: &str) -> (r: bool)
    ensures
        r == (node.node_type@ == t@),
{
    same_text(node.node_type.as_str(), t)
}

/// The display tag of an equipment node.
pub fn get_device_tag_label(node: &Node) -> (out: String)
    ensures
        out@ == device_tag(*node),
{
    let code = member_text_exec(&node.data, "tagCode");
    let num = member_text_exec(&node.data, "tagNumber");
    if code.len() > 0 || num.len() > 0 {
        if code.len() > 0 && num.len() > 0 {
            let mut out = code;
            push_str(&mut out, " / ");
            crate::chars::push_all(&mut out, &num);
            return string_from_chars(&out);
        }
        let mut both = code;
        crate::chars::push_all(&mut both, &num);
        let t = trim_vec(&both);
        return string_from_chars(&t);
    }
    if node_type_is(node, "micBlock") || node_type_is(node, "speakerBlock") {
        let line1 = member_text_exec(&node.data, "line1");
        if line1.len() == 0 {
            node.id.as_str().to_owned()
        } else {
            string_from_chars(&line1)
        }
    } else if node_type_is(node, "volumeControl") {
        "VC".to_owned()
    } else if node_type_is(node, "antennaTransmitterSymbol") || node_type_is(
        node,
        "antennaReceiverSymbol",
    ) {
        let line1 = member_text_exec(&node.data, "line1");
        if line1.len() == 0 {
            "ANT".to_owned()
        } else {
            string_from_chars(&line1)
        }
    } else {
        node.id.as_str().to_owned()
    }
}

/// The node attached to wiretag `wid` through one of its connection handles,
/// from edge `i` on (not the wiretag itself).
pub open spec fn attached_from(wid: Seq<char>, edges: Seq<Edge>, i: int) -> Option<Seq<char>>
    decreases edges.len() - i,
{
    if i < 0 || i >= edges.len() {
        None
    } else {
        let e = edges[i];
        if e.source@ == wid && conn_handle(handle_text(e.source_handle)) && e.target@ != wid {
            Some(e.target@)
        } else if e.target@ == wid && conn_handle(handle_text(e.target_handle)) && e.source@ != wid {
            Some(e.source@)
        } else {
            attached_from(wid, edges, i + 1)
        }
    }
}

fn opt_handle(h: &Option<String>) -> (r: Option<&str>)
    ensures
        match r {
            Some(s) => handle_text(*h) == Some(s@),
            None => handle_text(*h) is None,
        },
{
    match h {
        Some(s) => Some(s.as_str()),
        None => None,
    }
}

/// The node attached to a wiretag through its connection handles.
pub fn find_wiretag_attached_node_id(wiretag_node_id: &str, edges: &Vec<Edge>) -> (r: Option<String>)
    ensures
        match r {
            Some(s) => attached_from(wiretag_node_id@, edges@, 0) == Some(s@),
            None => attached_from(wiretag_node_id@, edges@, 0) is None,
        },
{
    let mut i: usize = 0;
    while i < edges.len()
        invariant
            i <= edges@.len(),
            attached_from(wiretag_node_id@, edges@, 0) == attached_from(
                wiretag_node_id@,
                edges@,
                i as int,
            ),
        decreases edges@.len() - i,
    {
        let e = &edges[i];
        if same_text(e.source.as_str(), wiretag_node_id) && is_conn_handle(
            opt_handle(&e.source_handle),
        ) && !same_text(e.target.as_str(), wiretag_node_id) {
            return Some(e.target.as_str().to_owned());
        }
        if same_text(e.target.as_str(), wiretag_node_id) && is_conn_handle(
            opt_handle(&e.target_handle),
        ) && !same_text(e.source.as_str(), wiretag_node_id) {
            return Some(e.source.as_str().to_owned());
        }
        i += 1;
    }
    None
}

/// The index of the first other wiretag with pair id `pair_id`, from node `i` on.
pub open spec fn partner_from(self_id: Seq<char>, pair_id: Seq<char>, nodes: Seq<Node>, i: int) -> Option<
    int,
>
    decreases nodes.len() - i,
{
    if i < 0 || i >= nodes.len() {
        None
    } else {
        let n = nodes[i];
        if n.node_type@ == "wiretag"@ && n.id@ != self_id && str_member(n.data, "pairId"@) == Some(
            pair_id,
        ) {
            Some(i)
        } else {
            partner_from(self_id, pair_id, nodes, i + 1)
        }
    }
}

/// The other wiretag of a pair.
pub fn find_wiretag_partner_node<'a>(self_id: &str, pair_id: &str, nodes: &'a Vec<Node>) -> (r:
    Option<&'a Node>)
    ensures
        match r {
            Some(n) => partner_from(self_id@, pair_id@, nodes@, 0) matches Some(i) && nodes@[i]
                == *n,
            None => partner_from(self_id@, pair_id@, nodes@, 0) is None,
        },
{
    let mut i: usize = 0;
    while i < nodes.len()
        invariant
            i <= nodes@.len(),
            partner_from(self_id@, pair_id@, nodes@, 0) == partner_from(
                self_id@,
                pair_id@,
                nodes@,
                i as int,
            ),
        decreases nodes@.len() - i,
    {
        let n = &nodes[i];
        let same_pair = match get_str(&n.data, "pairId") {
            Some(p) => same_text(p, pair_id),
            None => false,
        };
        if node_type_is(n, "wiretag") && !same_text(n.id.as_str(), self_id) && same_pair {
            return Some(n);
        }
        i += 1;
    }
    None
}

/// The tag of the device at the far end of a wiretag pair: the label of the
/// node attached to the partner wiretag (empty when any link is missing).
pub open spec fn remote_tag(node: Node, nodes: Seq<Node>, edges: Seq<Edge>) -> Seq<char> {
    if node.node_type@ != "wiretag"@ {
        Seq::empty()
    } else {
        match str_member(node.data, "pairId"@) {
            None => Seq::empty(),
            Some(pair_id) => match partner_from(node.id@, pair_id, nodes, 0) {
                None => Seq::empty(),
                Some(p) => match attached_from(nodes[p].id@, edges, 0) {
                    None => Seq::empty(),
                    Some(attach_id) => match node_with_id(nodes, attach_id) {
                        Some(n) => device_tag(n),
                        None => Seq::empty(),
                    },
                },
            },
        }
    }
}

/// The tag of the device at the far end of a wiretag pair.
pub fn resolve_remote_tag_for_wiretag(node: &Node, nodes: &Vec<Node>, edges: &Vec<Edge>) -> (out:
    String)
    ensures
        out@ == remote_tag(*node, nodes@, edges@),
{
    if !node_type_is(node, "wiretag") {
        return String::new();
    }
    let pair_id = match get_str(&node.data, "pairId") {
        Some(p) => p,
        None => {
            return String::new();
        },
    };
    let partner = match find_wiretag_partner_node(node.id.as_str(), pair_id, nodes) {
        Some(p) => p,
        None => {
            return String::new();
        },
    };
    let attach_id = match find_wiretag_attached_node_id(partner.id.as_str(), edges) {
        Some(a) => a,
        None => {
            return String::new();
        },
    };
    match find_node(nodes, attach_id.as_str()) {
        Some(n) => get_device_tag_label(n),
        None => String::new(),
    }
}

/// The main band text of a wiretag: its own trimmed description, else the
/// tag of the device at the far end (empty for other node types).
pub open spec fn pair_main_text(node: Node, nodes: Seq<Node>, edges: Seq<Edge>) -> Seq<char> {
    if node.node_type@ != "wiretag"@ {
        Seq::empty()
    } else {
        let desc = member_text(node.data, "tagDescription"@);
        if desc.len() > 0 {
            desc
        } else {
            remote_tag(node, nodes, edges)
        }
    }
}

/// The main band text of a wiretag.
pub fn resolve_pair_main_display_text(node: &Node, nodes: &Vec<Node>, edges: &Vec<Edge>) -> (out:
    String)
    ensures
        out@ == pair_main_text(*node, nodes@, edges@),
{
    if !node_type_is(node, "wiretag") {
        return String::new();
    }
    let desc = member_text_exec(&node.data, "tagDescription");
    if desc.len() > 0 {
        return string_from_chars(&desc);
    }
    resolve_remote_tag_for_wiretag(node, nodes, edges)
}


/// Microphone and speaker blocks without a tag code or tag number are
/// labelled by their trimmed first line, or by their id when that line is
/// blank; a node with both a tag code and a tag number is labelled
/// `code / number` whatever its type.
pub proof fn block_tag_is_first_line(node: Node)
    ensures
        ((node.node_type@ == "micBlock"@ || node.node_type@ == "speakerBlock"@) && member_text(
            node.data,
            "tagCode"@,
        ).len() == 0 && member_text(node.data, "tagNumber"@).len() == 0) ==> (if member_text(
            node.data,
            "line1"@,
        ).len() > 0 {
            device_tag(node) == member_text(node.data, "line1"@)
        } else {
            device_tag(node) == node.id@
        }),
        (member_text(node.data, "tagCode"@).len() > 0 && member_text(node.data, "tagNumber"@).len()
            > 0) ==> device_tag(node) == member_text(node.data, "tagCode"@) + " / "@ + member_text(
            node.data,
            "tagNumber"@,
        ),
{
}


/// Without a tag code and tag number: a volume control is labelled `VC`; an
/// antenna by its trimmed first line, or `ANT` when that is blank; any other
/// node that is not a microphone or speaker block by its id. With only one
/// of code and number set, the label is that one, trimmed.
pub proof fn untagged_labels(node: Node)
    ensures
        ({
            let code = member_text(node.data, "tagCode"@);
            let num = member_text(node.data, "tagNumber"@);
            let t = node.node_type@;
            let line1 = member_text(node.data, "line1"@);
            &&& (code.len() == 0 && num.len() == 0 && t == "volumeControl"@) ==> device_tag(node)
                == "VC"@
            &&& (code.len() == 0 && num.len() == 0 && (t == "antennaTransmitterSymbol"@ || t
                == "antennaReceiverSymbol"@)) ==> device_tag(node) == (if line1.len() > 0 {
                line1
            } else {
                "ANT"@
            })
            &&& (code.len() == 0 && num.len() == 0 && t != "micBlock"@ && t != "speakerBlock"@ && t
                != "volumeControl"@ && t != "antennaTransmitterSymbol"@ && t
                != "antennaReceiverSymbol"@) ==> device_tag(node) == node.id@
            &&& (code.len() > 0 && num.len() == 0) ==> device_tag(node) == trim(code)
            &&& (code.len() == 0 && num.len() > 0) ==> device_tag(node) == trim(num)
        }),
{
    let code = member_text(node.data, "tagCode"@);
    let num = member_text(node.data, "tagNumber"@);
    reveal_strlit("micBlock");
    reveal_strlit("speakerBlock");
    reveal_strlit("volumeControl");
    reveal_strlit("antennaTransmitterSymbol");
    reveal_strlit("antennaReceiverSymbol");
    if num.len() == 0 {
        assert(code + num =~= code);
    }
    if code.len() == 0 {
        assert(code + num =~= num);
    }
    let tt = node.node_type@;
    let line1 = member_text(node.data, "line1"@);
    assert("volumeControl"@.len() == 13 && "micBlock"@.len() == 8 && "speakerBlock"@.len() == 12);
    assert("antennaTransmitterSymbol"@.len() == 24 && "antennaReceiverSymbol"@.len() == 21);
    if tt == "volumeControl"@ || tt == "antennaTransmitterSymbol"@ || tt == "antennaReceiverSymbol"@ {
        assert(tt != "micBlock"@ && tt != "speakerBlock"@);
    }
    if tt == "antennaTransmitterSymbol"@ || tt == "antennaReceiverSymbol"@ {
        assert(tt != "volumeControl"@);
    }
    assert((code.len() == 0 && num.len() == 0 && tt == "volumeControl"@) ==> device_tag(node) == "VC"@);
    assert((code.len() == 0 && num.len() == 0 && (tt == "antennaTransmitterSymbol"@ || tt
        == "antennaReceiverSymbol"@)) ==> device_tag(node) == (if line1.len() > 0 {
        line1
    } else {
        "ANT"@
    }));
    assert((code.len() > 0 && num.len() == 0) ==> device_tag(node) == trim(code));
    assert((code.len() == 0 && num.len() > 0) ==> device_tag(node) == trim(num));
}

} // verus!

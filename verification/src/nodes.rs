//! Nodes of the overlay and the compact form in which lists of them travel.
//!
//! A compact record is 26 bytes: the node's id (20), its IPv4 address (4)
//! and its port (2, the high byte first). A list is its records one after
//! another.

use crate::decimal::{addr_string, addr_text, lemma_parse_then_write, parse_addr, parse_addr_spec};
use crate::endian::{be16, read_u16_be, u16_be};
use crate::ident::ID_LEN;
use vstd::prelude::*;
use vstd::slice::slice_subrange;

verus! {

/// The length of one compact record.
pub const RECORD_LEN: usize = 26;

/// A node to make friends with: where to reach it, and the id it is
/// presumed to have.
pub struct Node {
    /// The endpoint, as `host:port`.
    pub addr: String,
    /// The node's id.
    pub id: Vec<u8>,
}

/// What a [`Node`] holds.
pub struct NodeView {
    pub addr: Seq<char>,
    pub id: Seq<u8>,
}

impl View for Node {
    type V = NodeView;

    open spec fn view(&self) -> NodeView {
        NodeView { addr: self.addr@, id: self.id@ }
    }
}

impl Clone for Node {
    fn clone(&self) -> (copy: Self)
        ensures
            copy@ == self@,
    {
        let copy = Node { addr: self.addr.clone(), id: self.id.clone() };
        assert(copy.id@ =~= self.id@);
        copy
    }
}

/// What each node of a list holds.
pub open spec fn views(nodes: Seq<Node>) -> Seq<NodeView> {
    Seq::new(nodes.len(), |i: int| nodes[i]@)
}

/// The node in the record with index `k` of a compact list.
pub open spec fn node_at(buf: Seq<u8>, k: int) -> NodeView {
    let o = RECORD_LEN * k;
    NodeView {
        id: buf.subrange(o, o + ID_LEN),
        addr: addr_text(
            buf[o + 20],
            buf[o + 21],
            buf[o + 22],
            buf[o + 23],
            (buf[o + 24] * 256 + buf[o + 25]) as u16,
        ),
    }
}

/// The nodes of a compact list, in the order of the records. A buffer whose
/// length is no multiple of the record length holds no nodes.
pub open spec fn decode_nodes_spec(buf: Seq<u8>) -> Seq<NodeView> {
    if buf.len() % (RECORD_LEN as nat) != 0 {
        Seq::empty()
    } else {
        Seq::new(buf.len() / (RECORD_LEN as nat), |k: int| node_at(buf, k))
    }
}

/// Splits a compact node list into its nodes.
pub fn decode_nodes(buf: &[u8]) -> (nodes: Vec<Node>)
    ensures
        views(nodes@) == decode_nodes_spec(buf@),
        buf@.len() % (RECORD_LEN as nat) != 0 ==> nodes@.len() == 0,
{
    let mut nodes: Vec<Node> = Vec::new();
    let l: usize = buf.len();
    if l % RECORD_LEN != 0 {
        assert(views(nodes@) =~= decode_nodes_spec(buf@));
        return nodes;
    }
    let count: usize = l / RECORD_LEN;
    let mut k: usize = 0;
    while k < count
        invariant
            k <= count,
            l == buf@.len(),
            l == count * RECORD_LEN,
            nodes@.len() == k,
            forall|j: int| 0 <= j < k ==> (#[trigger] nodes@[j])@ == node_at(buf@, j),
        decreases count - k,
    {
        let o: usize = k * RECORD_LEN;
        let id = crate::bytes::copy_range(buf, o, o + ID_LEN);
        let port: u16 = read_u16_be(slice_subrange(buf, o + 24, o + 26));
        let addr = addr_string(buf[o + 20], buf[o + 21], buf[o + 22], buf[o + 23], port);
        nodes.push(Node { addr, id });
        k += 1;
    }
    assert(views(nodes@) =~= decode_nodes_spec(buf@));
    nodes
}

/// Whether a node fits a compact record: a full-length id and an endpoint
/// that is the text of an IPv4 address and port.
pub open spec fn compactable(n: NodeView) -> bool {
    n.id.len() == ID_LEN && parse_addr_spec(n.addr) is Some
}

/// The compact record of a node.
pub open spec fn record(n: NodeView) -> Seq<u8> {
    let (a, b, c, d, port) = parse_addr_spec(n.addr).unwrap();
    n.id + seq![a, b, c, d] + be16(port)
}

/// The records of `nodes`, one after another.
pub open spec fn records(nodes: Seq<NodeView>) -> Seq<u8> {
    Seq::new(
        (RECORD_LEN * nodes.len()) as nat,
        |i: int| record(nodes[i / (RECORD_LEN as int)])[i % (RECORD_LEN as int)],
    )
}

/// The compact list of `nodes`, which exists where every node fits a record.
pub open spec fn encode_nodes_spec(nodes: Seq<NodeView>) -> Option<Seq<u8>> {
    if forall|i: int| 0 <= i < nodes.len() ==> compactable(#[trigger] nodes[i]) {
        Some(records(nodes))
    } else {
        None
    }
}

/// Packs nodes into a compact list. There is no list where a node's id is
/// not twenty bytes long or its endpoint is not an IPv4 address and port.
pub fn encode_nodes(nodes: &Vec<Node>) -> (out: Option<Vec<u8>>)
    ensures
        match out {
            Some(buf) => encode_nodes_spec(views(nodes@)) == Some(buf@),
            None => encode_nodes_spec(views(nodes@)) is None,
        },
{
    let mut buf: Vec<u8> = Vec::new();
    let mut k: usize = 0;
    while k < nodes.len()
        invariant
            k <= nodes.len(),
            forall|i: int| 0 <= i < k ==> compactable(#[trigger] views(nodes@)[i]),
            buf@ == records(views(nodes@).take(k as int)),
        decreases nodes.len() - k,
    {
        let node = &nodes[k];
        assert(views(nodes@)[k as int] == node@);
        if node.id.len() != ID_LEN {
            return None;
        }
        let (a, b, c, d, port) = match parse_addr(node.addr.as_str()) {
            Some(x) => x,
            None => {
                return None;
            },
        };
        let ghost before = buf@;
        let mut j: usize = 0;
        while j < ID_LEN
            invariant
                j <= ID_LEN == node.id@.len(),
                buf@ == before + node.id@.take(j as int),
            decreases ID_LEN - j,
        {
            buf.push(node.id[j]);
            j += 1;
            assert(buf@ =~= before + node.id@.take(j as int));
        }
        buf.push(a);
        buf.push(b);
        buf.push(c);
        buf.push(d);
        let p = u16_be(port);
        buf.push(p[0]);
        buf.push(p[1]);
        k += 1;
        proof {
            let prev = views(nodes@).take(k - 1);
            let cur = views(nodes@).take(k as int);
            assert(node.id@.take(ID_LEN as int) =~= node.id@);
            assert(buf@ =~= before + record(node@));
            assert(record(node@).len() == RECORD_LEN);
            assert forall|i: int| 0 <= i < buf@.len() implies buf@[i] == records(cur)[i] by {
                if i < before.len() {
                    assert(cur[i / (RECORD_LEN as int)] == prev[i / (RECORD_LEN as int)]);
                } else {
                    assert(i / (RECORD_LEN as int) == k - 1);
                    assert(cur[k - 1] == node@);
                }
            }
            assert(buf@ =~= records(cur));
        }
    }
    assert(views(nodes@).take(k as int) =~= views(nodes@));
    Some(buf)
}

/// The byte with index `j` of the record with index `k`.
proof fn lemma_records_index(nodes: Seq<NodeView>, k: int, j: int)
    requires
        0 <= k < nodes.len(),
        0 <= j < RECORD_LEN,
    ensures
        records(nodes).len() == RECORD_LEN * nodes.len(),
        records(nodes)[RECORD_LEN * k + j] == record(nodes[k])[j],
{
    let i = RECORD_LEN * k + j;
    assert(i / (RECORD_LEN as int) == k);
    assert(i % (RECORD_LEN as int) == j);
}

/// The record of a node that fits one holds the node's id, address and
/// port, and the text of that address and port is the node's endpoint.
proof fn lemma_record_parts(n: NodeView)
    requires
        compactable(n),
    ensures
        record(n).len() == RECORD_LEN,
        record(n).subrange(0, ID_LEN as int) == n.id,
        n.addr == addr_text(
            record(n)[20],
            record(n)[21],
            record(n)[22],
            record(n)[23],
            (record(n)[24] * 256 + record(n)[25]) as u16,
        ),
{
    let (a, b, c, d, port) = parse_addr_spec(n.addr).unwrap();
    lemma_parse_then_write(n.addr);
    let r = record(n);
    assert(r.subrange(0, ID_LEN as int) =~= n.id);
    assert(r[20] == a && r[21] == b && r[22] == c && r[23] == d);
    assert(r[24] == (port / 256) as u8);
    assert(r[25] == (port % 256) as u8);
    assert((r[24] * 256 + r[25]) as u16 == port);
}

/// The node read from the record with index `k` is the node with index `k`.
proof fn lemma_node_at_records(nodes: Seq<NodeView>, k: int)
    requires
        0 <= k < nodes.len(),
        compactable(nodes[k]),
    ensures
        node_at(records(nodes), k) == nodes[k],
{
    let buf = records(nodes);
    let n = nodes[k];
    let o = RECORD_LEN * k;
    lemma_record_parts(n);
    lemma_records_index(nodes, k, 20);
    lemma_records_index(nodes, k, 21);
    lemma_records_index(nodes, k, 22);
    lemma_records_index(nodes, k, 23);
    lemma_records_index(nodes, k, 24);
    lemma_records_index(nodes, k, 25);
    assert forall|j: int| 0 <= j < ID_LEN implies buf.subrange(o, o + ID_LEN)[j] == n.id[j] by {
        lemma_records_index(nodes, k, j);
        assert(record(n).subrange(0, ID_LEN as int)[j] == record(n)[j]);
    }
    assert(buf.subrange(o, o + ID_LEN) =~= n.id);
}

/// A compact list that was packed from nodes unpacks to the same nodes.
pub proof fn lemma_decode_encode(nodes: Seq<NodeView>)
    requires
        forall|i: int| 0 <= i < nodes.len() ==> compactable(#[trigger] nodes[i]),
    ensures
        encode_nodes_spec(nodes) == Some(records(nodes)),
        decode_nodes_spec(records(nodes)) == nodes,
{
    let buf = records(nodes);
    assert(buf.len() == RECORD_LEN * nodes.len());
    assert(buf.len() % (RECORD_LEN as nat) == 0);
    assert(buf.len() / (RECORD_LEN as nat) == nodes.len());
    assert forall|k: int| 0 <= k < nodes.len() implies #[trigger] decode_nodes_spec(buf)[k]
        == nodes[k] by {
        lemma_node_at_records(nodes, k);
    }
    assert(decode_nodes_spec(buf) =~= nodes);
}

/// A buffer whose length is no multiple of 26 holds no nodes.
pub proof fn lemma_ragged_list_is_empty(buf: Seq<u8>)
    requires
        buf.len() % 26 != 0,
    ensures
        decode_nodes_spec(buf) == Seq::<NodeView>::empty(),
{
}

} // verus!

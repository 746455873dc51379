//! A node of the distributed hash table, as far as it finds peers: the
//! queries that it sends, and what it learns from the answers.
use rand::rngs::ThreadRng;
use vstd::prelude::*;
use crate::bencoding::bencode::{Bencode, Value, dict_insert, entries_view, insert_entry, lemma_view_dict, lemma_view_list, list_view};
use crate::bencoding::encoder::spec_encode;
use crate::lex_order::is_equal;
use crate::peer_addr::{PeerAddr, compact_peer};
use crate::byte_order::{read_u16, read_u32};
use crate::random::{random_bytes, random_pair};
use crate::text::{ascii, ascii_bytes};
use crate::torrent::bytes_at;

verus! {

/// A node of the hash table.
#[derive(Clone, Debug)]
pub struct Node {
    /// The id of the node.
    pub id: [u8; 20],
    /// Its endpoint.
    pub addr: PeerAddr,
}

/// What is known of a node.
pub ghost struct NodeView {
    pub id: Seq<u8>,
    pub addr: PeerAddr,
}

impl View for Node {
    type V = NodeView;

    open spec fn view(&self) -> NodeView {
        NodeView { id: self.id@, addr: self.addr }
    }
}

/// What is known of each of `nodes`.
pub open spec fn node_views(nodes: Seq<Node>) -> Seq<NodeView> {
    Seq::new(nodes.len(), |i: int| nodes[i]@)
}

/// What our node knows.
#[derive(Debug)]
pub struct Dht {
    /// Our id.
    pub node_id: [u8; 20],
    /// The nodes that we know, each endpoint once.
    pub nodes: Vec<Node>,
    /// The peers that were found and not yet handed out, each once.
    pub peers: Vec<PeerAddr>,
}

/// The node that the 26 bytes of `data` from `26 * k` on denote: 20 bytes
/// of id, then the endpoint in the compact form.
pub open spec fn node_at(data: Seq<u8>, k: int) -> NodeView {
    NodeView { id: data.subrange(26 * k, 26 * k + 20), addr: compact_peer(data, 26 * k + 20) }
}

/// Whether one of `nodes` has the endpoint `addr`.
pub open spec fn knows_node(nodes: Seq<NodeView>, addr: PeerAddr) -> bool {
    exists|i: int| 0 <= i < nodes.len() && (#[trigger] nodes[i]).addr == addr
}

/// The nodes that are known after those that `data` lists from its `k`-th
/// on have been looked at: each is added unless its endpoint is known.
pub open spec fn add_nodes(nodes: Seq<NodeView>, data: Seq<u8>, k: int) -> Seq<NodeView>
    decreases data.len() / 26 - k,
{
    if k < 0 || k >= data.len() / 26 {
        nodes
    } else if knows_node(nodes, node_at(data, k).addr) {
        add_nodes(nodes, data, k + 1)
    } else {
        add_nodes(nodes.push(node_at(data, k)), data, k + 1)
    }
}

/// The peers that are known after the values from the `k`-th on have been
/// looked at: each byte string of six bytes is an endpoint in the compact
/// form, and is added unless it is known; any other value is passed over.
pub open spec fn add_peers(peers: Seq<PeerAddr>, values: Seq<Value>, k: int) -> Seq<PeerAddr>
    decreases values.len() - k,
{
    if k < 0 || k >= values.len() {
        peers
    } else {
        match values[k] {
            Value::Bytes(b) => if b.len() == 6 && !peers.contains(compact_peer(b, 0)) {
                add_peers(peers.push(compact_peer(b, 0)), values, k + 1)
            } else {
                add_peers(peers, values, k + 1)
            },
            _ => add_peers(peers, values, k + 1),
        }
    }
}

/// The answer to a ping with the transaction id `t`, from the node `id`.
pub open spec fn ping_response(t: Seq<u8>, id: Seq<u8>) -> Seq<u8> {
    let r = dict_insert(Seq::empty(), ascii("id"), Value::Bytes(id));
    spec_encode(
        Value::Dict(
            dict_insert(
                dict_insert(
                    dict_insert(Seq::empty(), ascii("t"), Value::Bytes(t)),
                    ascii("y"),
                    Value::Bytes(ascii("r")),
                ),
                ascii("r"),
                Value::Dict(r),
            ),
        ),
    )
}

/// The query `name` with the transaction id `t`, from the node `id`, with
/// the argument `key` bound to `target`.
pub open spec fn query(t: Seq<u8>, name: Seq<u8>, id: Seq<u8>, key: Seq<u8>, target: Seq<u8>) -> Seq<
    u8,
> {
    let a = dict_insert(
        dict_insert(Seq::empty(), ascii("id"), Value::Bytes(id)),
        key,
        Value::Bytes(target),
    );
    spec_encode(
        Value::Dict(
            dict_insert(
                dict_insert(
                    dict_insert(
                        dict_insert(Seq::empty(), ascii("t"), Value::Bytes(t)),
                        ascii("y"),
                        Value::Bytes(ascii("q")),
                    ),
                    ascii("q"),
                    Value::Bytes(name),
                ),
                ascii("a"),
                Value::Dict(a),
            ),
        ),
    )
}

/// What a message does to what our node knows, and what our node answers.
pub ghost struct Handled {
    pub nodes: Seq<NodeView>,
    pub peers: Seq<PeerAddr>,
    pub answer: Option<Seq<u8>>,
}

/// What the message `msg` does, for a node `id` that knows `nodes` and
/// `peers`.
///
/// A message without a transaction id `t` or a kind `y`, both byte
/// strings, does nothing. A response, of kind `r`, may list nodes and
/// peers in its dictionary `r`, under `nodes` and `values`: they are added.
/// A query, of kind `q`, is answered where it is a ping.
pub open spec fn handled(msg: Value, id: Seq<u8>, nodes: Seq<NodeView>, peers: Seq<PeerAddr>) -> Handled {
    let unchanged = Handled { nodes, peers, answer: None };
    match (bytes_at(msg, ascii("t")), bytes_at(msg, ascii("y"))) {
        (Some(t), Some(y)) => if y == ascii("r") {
            match msg.lookup(ascii("r")) {
                Some(Value::Dict(r)) => Handled {
                    nodes: match bytes_at(Value::Dict(r), ascii("nodes")) {
                        Some(data) => add_nodes(nodes, data, 0),
                        None => nodes,
                    },
                    peers: match Value::Dict(r).lookup(ascii("values")) {
                        Some(Value::List(values)) => add_peers(peers, values, 0),
                        _ => peers,
                    },
                    answer: None,
                },
                _ => unchanged,
            }
        } else if y == ascii("q") {
            match bytes_at(msg, ascii("q")) {
                Some(q) => if q == ascii("ping") {
                    Handled { nodes, peers, answer: Some(ping_response(t, id)) }
                } else {
                    unchanged
                },
                None => unchanged,
            }
        } else {
            unchanged
        },
        _ => unchanged,
    }
}

/// The encoding of a message with the transaction id `t`, of the kind
/// `kind`, with `body` bound to `body_key` and, for a query, its name.
fn encode_message(t: &[u8], kind: &str, name: Option<&[u8]>, body_key: &str, body: Vec<(Vec<u8>, Bencode)>) -> (out:
    Vec<u8>)
    requires
        kind.is_ascii(),
        body_key.is_ascii(),
    ensures
        out@ == spec_encode(
            Value::Dict(
                dict_insert(
                    match name {
                        Some(n) => dict_insert(
                            dict_insert(
                                dict_insert(Seq::empty(), ascii("t"), Value::Bytes(t@)),
                                ascii("y"),
                                Value::Bytes(ascii(kind)),
                            ),
                            ascii("q"),
                            Value::Bytes(n@),
                        ),
                        None => dict_insert(
                            dict_insert(Seq::empty(), ascii("t"), Value::Bytes(t@)),
                            ascii("y"),
                            Value::Bytes(ascii(kind)),
                        ),
                    },
                    ascii(body_key),
                    Value::Dict(entries_view(body@)),
                ),
            ),
        ),
{
    proof {
        reveal_strlit("t");
        reveal_strlit("y");
        reveal_strlit("q");
    }
    let mut dict: Vec<(Vec<u8>, Bencode)> = Vec::new();
    assert(entries_view(dict@) =~= Seq::<(Seq<u8>, Value)>::empty());
    insert_entry(&mut dict, ascii_bytes("t"), Bencode::Bytes(vstd::slice::slice_to_vec(t)));
    insert_entry(&mut dict, ascii_bytes("y"), Bencode::Bytes(ascii_bytes(kind)));
    match name {
        Some(n) => {
            insert_entry(&mut dict, ascii_bytes("q"), Bencode::Bytes(vstd::slice::slice_to_vec(n)));
        },
        None => {},
    }
    proof {
        lemma_view_dict(body);
    }
    insert_entry(&mut dict, ascii_bytes(body_key), Bencode::Dict(body));
    proof {
        lemma_view_dict(dict);
    }
    Bencode::Dict(dict).encode()
}

/// The answer to a ping with the transaction id `t`, from the node `id`.
pub fn make_ping_response(t: &[u8], id: &[u8; 20]) -> (out: Vec<u8>)
    ensures
        out@ == ping_response(t@, id@),
{
    proof {
        reveal_strlit("id");
        reveal_strlit("r");
    }
    let mut r: Vec<(Vec<u8>, Bencode)> = Vec::new();
    assert(entries_view(r@) =~= Seq::<(Seq<u8>, Value)>::empty());
    insert_entry(&mut r, ascii_bytes("id"), Bencode::Bytes(vstd::slice::slice_to_vec(id.as_slice())));
    encode_message(t, "r", None, "r", r)
}

/// The query `name` with the transaction id `t`, from the node `id`, with
/// the argument `key` bound to `target`.
fn make_query(t: &[u8], name: &str, id: &[u8; 20], key: &str, target: &[u8; 20]) -> (out: Vec<u8>)
    requires
        name.is_ascii(),
        key.is_ascii(),
    ensures
        out@ == query(t@, ascii(name), id@, ascii(key), target@),
{
    proof {
        reveal_strlit("id");
        reveal_strlit("q");
        reveal_strlit("a");
    }
    let mut a: Vec<(Vec<u8>, Bencode)> = Vec::new();
    assert(entries_view(a@) =~= Seq::<(Seq<u8>, Value)>::empty());
    insert_entry(&mut a, ascii_bytes("id"), Bencode::Bytes(vstd::slice::slice_to_vec(id.as_slice())));
    insert_entry(&mut a, ascii_bytes(key), Bencode::Bytes(vstd::slice::slice_to_vec(target.as_slice())));
    let query_name = ascii_bytes(name);
    encode_message(t, "q", Some(query_name.as_slice()), "a", a)
}

impl Dht {
    /// A node with a random id that knows no node and no peer.
    pub fn new(rng: &mut ThreadRng) -> (dht: Dht)
        ensures
            dht.nodes@.len() == 0,
            dht.peers@.len() == 0,
    {
        Dht::with_id(random_bytes(rng))
    }

    /// The node with the id `node_id` that knows no node and no peer.
    pub fn with_id(node_id: [u8; 20]) -> (dht: Dht)
        ensures
            dht.node_id == node_id,
            dht.nodes@.len() == 0,
            dht.peers@.len() == 0,
    {
        Dht { node_id, nodes: Vec::new(), peers: Vec::new() }
    }

    /// The query that asks the node at the other end for the nodes near
    /// `target`, with the transaction id `t`.
    pub fn find_node(&self, t: &[u8], target: &[u8; 20]) -> (out: Vec<u8>)
        ensures
            out@ == query(t@, ascii("find_node"), self.node_id@, ascii("target"), target@),
    {
        proof {
            reveal_strlit("find_node");
            reveal_strlit("target");
        }
        make_query(t, "find_node", &self.node_id, "target", target)
    }

    /// The query that asks the node at the other end for the peers of
    /// `info_hash`, with the transaction id `t`.
    pub fn send_get_peers(&self, t: &[u8], info_hash: &[u8; 20]) -> (out: Vec<u8>)
        ensures
            out@ == query(t@, ascii("get_peers"), self.node_id@, ascii("info_hash"), info_hash@),
    {
        proof {
            reveal_strlit("get_peers");
            reveal_strlit("info_hash");
        }
        make_query(t, "get_peers", &self.node_id, "info_hash", info_hash)
    }

    /// The queries that ask every node that we know for the peers of
    /// `info_hash`: the endpoint of each node with the query for it, each
    /// query under a random transaction id of two bytes.
    pub fn get_peers(&self, info_hash: &[u8; 20], rng: &mut ThreadRng) -> (out: Vec<(PeerAddr, Vec<u8>)>)
        ensures
            out@.len() == self.nodes@.len(),
            forall|i: int|
                0 <= i < out@.len() ==> (#[trigger] out@[i]).0 == self.nodes@[i].addr && exists|
                    t: Seq<u8>,
                |
                    t.len() == 2 && out@[i].1@ == query(
                        t,
                        ascii("get_peers"),
                        self.node_id@,
                        ascii("info_hash"),
                        info_hash@,
                    ),
    {
        let mut out: Vec<(PeerAddr, Vec<u8>)> = Vec::new();
        let mut i: usize = 0;
        while i < self.nodes.len()
            invariant
                i <= self.nodes@.len(),
                out@.len() == i,
                forall|j: int|
                    0 <= j < i ==> (#[trigger] out@[j]).0 == self.nodes@[j].addr && exists|
                        t: Seq<u8>,
                    |
                        t.len() == 2 && out@[j].1@ == query(
                            t,
                            ascii("get_peers"),
                            self.node_id@,
                            ascii("info_hash"),
                            info_hash@,
                        ),
            decreases self.nodes@.len() - i,
        {
            let t = random_pair(rng);
            let q = self.send_get_peers(t.as_slice(), info_hash);
            assert(t@.len() == 2);
            out.push((self.nodes[i].addr, q));
            i = i + 1;
        }
        out
    }

    /// Takes up the nodes that `data` lists, 26 bytes each: 20 bytes of id
    /// and the endpoint in the compact form. A node whose endpoint we know
    /// is passed over.
    pub fn parse_nodes(&mut self, data: &[u8])
        ensures
            final(self).node_id == old(self).node_id,
            final(self).peers == old(self).peers,
            node_views(final(self).nodes@) == add_nodes(node_views(old(self).nodes@), data@, 0),
    {
        let count = data.len() / 26;
        let mut k: usize = 0;
        while k < count
            invariant
                k <= count,
                count == data@.len() / 26,
                data@.len() <= usize::MAX,
                self.node_id == old(self).node_id,
                self.peers == old(self).peers,
                add_nodes(node_views(self.nodes@), data@, k as int) == add_nodes(
                    node_views(old(self).nodes@),
                    data@,
                    0,
                ),
            decreases count - k,
        {
            let at = 26 * k;
            let addr = PeerAddr { ip: read_u32(data, at + 20), port: read_u16(data, at + 24) };
            let ghost views = node_views(self.nodes@);
            let mut known = false;
            let mut i: usize = 0;
            while i < self.nodes.len()
                invariant
                    i <= self.nodes@.len(),
                    views == node_views(self.nodes@),
                    known == exists|j: int| 0 <= j < i && (#[trigger] views[j]).addr == addr,
                decreases self.nodes@.len() - i,
            {
                if self.nodes[i].addr == addr {
                    assert(views[i as int].addr == addr);
                    known = true;
                }
                i = i + 1;
            }
            if !known {
                let mut id: [u8; 20] = [0u8; 20];
                let mut b: usize = 0;
                while b < 20
                    invariant
                        b <= 20,
                        at + 26 <= data@.len(),
                        data@.len() <= usize::MAX,
                        forall|j: int| 0 <= j < b ==> id@[j] == data@[at + j],
                    decreases 20 - b,
                {
                    id[b] = data[at + b];
                    b = b + 1;
                }
                assert(id@ =~= data@.subrange(26 * k, 26 * k + 20));
                self.nodes.push(Node { id, addr });
                assert(node_views(self.nodes@) =~= views.push(node_at(data@, k as int)));
            }
            k = k + 1;
        }
    }

    /// Takes up the peers that `values` lists: each byte string of six
    /// bytes is an endpoint in the compact form. A peer that is known, and a
    /// value of another form, is passed over.
    pub fn parse_peers(&mut self, values: &Vec<Bencode>)
        ensures
            final(self).node_id == old(self).node_id,
            final(self).nodes == old(self).nodes,
            final(self).peers@ == add_peers(old(self).peers@, list_view(values@), 0),
    {
        let ghost views = list_view(values@);
        let mut k: usize = 0;
        while k < values.len()
            invariant
                k <= values@.len(),
                views == list_view(values@),
                self.node_id == old(self).node_id,
                self.nodes == old(self).nodes,
                add_peers(self.peers@, views, k as int) == add_peers(old(self).peers@, views, 0),
            decreases values@.len() - k,
        {
            assert(views[k as int] == values@[k as int]@);
            match &values[k] {
                Bencode::Bytes(b) => {
                    if b.len() == 6 {
                        let addr = PeerAddr {
                            ip: read_u32(b.as_slice(), 0),
                            port: read_u16(b.as_slice(), 4),
                        };
                        let mut known = false;
                        let mut i: usize = 0;
                        while i < self.peers.len()
                            invariant
                                i <= self.peers@.len(),
                                known == exists|j: int| 0 <= j < i && self.peers@[j] == addr,
                            decreases self.peers@.len() - i,
                        {
                            if self.peers[i] == addr {
                                known = true;
                            }
                            i = i + 1;
                        }
                        if !known {
                            self.peers.push(addr);
                        }
                    }
                },
                _ => {},
            }
            k = k + 1;
        }
    }

    /// Handles a message that came from another node, and returns what to
    /// answer, where the message is a ping.
    pub fn handle_message(&mut self, msg: &Bencode) -> (answer: Option<Vec<u8>>)
        ensures
            final(self).node_id == old(self).node_id,
            node_views(final(self).nodes@) == handled(
                msg@,
                old(self).node_id@,
                node_views(old(self).nodes@),
                old(self).peers@,
            ).nodes,
            final(self).peers@ == handled(
                msg@,
                old(self).node_id@,
                node_views(old(self).nodes@),
                old(self).peers@,
            ).peers,
            match handled(
                msg@,
                old(self).node_id@,
                node_views(old(self).nodes@),
                old(self).peers@,
            ).answer {
                Some(bytes) => answer is Some && answer.unwrap()@ == bytes,
                None => answer is None,
            },
    {
        proof {
            reveal_strlit("t");
            reveal_strlit("y");
            reveal_strlit("r");
            reveal_strlit("q");
            reveal_strlit("nodes");
            reveal_strlit("values");
            reveal_strlit("ping");
        }
        let t = match msg.get(ascii_bytes("t").as_slice()) {
            Some(Bencode::Bytes(b)) => b,
            _ => {
                return None;
            },
        };
        let y = match msg.get(ascii_bytes("y").as_slice()) {
            Some(Bencode::Bytes(b)) => b,
            _ => {
                return None;
            },
        };
        if is_equal(y.as_slice(), ascii_bytes("r").as_slice()) {
            match msg.get(ascii_bytes("r").as_slice()) {
                Some(r) => match r {
                    Bencode::Dict(entries) => {
                        proof {
                            lemma_view_dict(*entries);
                        }
                        match r.get(ascii_bytes("nodes").as_slice()) {
                            Some(Bencode::Bytes(data)) => {
                                self.parse_nodes(data.as_slice());
                            },
                            _ => {},
                        }
                        match r.get(ascii_bytes("values").as_slice()) {
                            Some(Bencode::List(values)) => {
                                proof {
                                    lemma_view_list(*values);
                                }
                                self.parse_peers(values);
                            },
                            _ => {},
                        }
                    },
                    _ => {},
                },
                None => {},
            }
            None
        } else if is_equal(y.as_slice(), ascii_bytes("q").as_slice()) {
            match msg.get(ascii_bytes("q").as_slice()) {
                Some(Bencode::Bytes(q)) => {
                    if is_equal(q.as_slice(), ascii_bytes("ping").as_slice()) {
                        Some(make_ping_response(t.as_slice(), &self.node_id))
                    } else {
                        None
                    }
                },
                _ => None,
            }
        } else {
            None
        }
    }

    /// Hands out the peers that were found, and forgets them.
    pub fn get_found_peers(&mut self) -> (found: Vec<PeerAddr>)
        ensures
            found@ == old(self).peers@,
            final(self).peers@.len() == 0,
            final(self).node_id == old(self).node_id,
            final(self).nodes == old(self).nodes,
    {
        let mut found: Vec<PeerAddr> = Vec::new();
        core::mem::swap(&mut found, &mut self.peers);
        found
    }
}

/// The routers by which a node enters the hash table.
pub fn bootstrap_routers() -> (routers: [&'static str; 3])
    ensures
        routers@[0]@ == "router.bittorrent.com:6881"@,
        routers@[1]@ == "dht.transmissionbt.com:6881"@,
        routers@[2]@ == "router.utorrent.com:6881"@,
{
    ["router.bittorrent.com:6881", "dht.transmissionbt.com:6881", "router.utorrent.com:6881"]
}

} // verus!

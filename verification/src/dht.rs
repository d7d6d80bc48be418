//! The engine that poses as a neighbour of every node it talks to.
//!
//! The engine decides; it owns no socket. For each datagram that arrives it
//! says what is to be done: nothing, a reply to send back, an announce to
//! hand on, or new nodes to make friends with. For each node to befriend it
//! writes the `find_node` query to send.

use crate::bencoding::{
    as_bytes, as_number, ben_view, decode, decoded, dict_get, encoded, entry, is_dict, to_bytes,
    BenValue,
};
use crate::bytes::{ascii, lit, same_bytes};
use crate::clock::get_now_millis;
use crate::digest::{token_for, token_spec};
use crate::hexfmt::{hex_spec, lemma_hex_is_ascii};
use crate::ident::{neighbour_spec, ID_LEN, SHARED_PREFIX};
use crate::message::{query_value, reply_value, text_or_empty, Args, QueryView, ReplyView};
use crate::nodes::{decode_nodes_spec, views, NodeView};
use bencode::Bencode;
use vstd::prelude::*;
use vstd::slice::slice_to_vec;
use vstd::string::*;

pub use crate::hexfmt::hex;
pub use crate::ident::{neighbour_id, rand_bytes};
pub use crate::message::{make_query, make_reply, push_arg, Query, Reply};
pub use crate::nodes::{decode_nodes, encode_nodes, Node};

verus! {

/// How many nodes a second are befriended unless the caller says otherwise.
pub const DEFAULT_FRIENDS_PER_SEC: i32 = 10;

/// The most nodes a second that can be asked for.
pub const MAX_FRIENDS_PER_SEC: i32 = 1000;

/// The endpoint that a datagram came from, or that a peer listens on.
pub struct PeerAddr {
    /// The IP address in text form, without a port.
    pub ip: String,
    pub port: u16,
}

/// What a [`PeerAddr`] holds.
pub struct PeerAddrView {
    pub ip: Seq<char>,
    pub port: u16,
}

impl View for PeerAddr {
    type V = PeerAddrView;

    open spec fn view(&self) -> PeerAddrView {
        PeerAddrView { ip: self.ip@, port: self.port }
    }
}

/// An `announce_peer` that was seen and found valid.
pub struct Announce {
    /// Where the datagram came from.
    pub from: PeerAddr,
    /// Where the announcing peer serves the torrent.
    pub peer: PeerAddr,
    pub info_hash: Vec<u8>,
    /// The info-hash in lowercase hexadecimal.
    pub info_hash_hex: String,
}

/// What an [`Announce`] holds.
pub struct AnnounceView {
    pub from: PeerAddrView,
    pub peer: PeerAddrView,
    pub info_hash: Seq<u8>,
    pub info_hash_hex: Seq<char>,
}

impl View for Announce {
    type V = AnnounceView;

    open spec fn view(&self) -> AnnounceView {
        AnnounceView {
            from: self.from@,
            peer: self.peer@,
            info_hash: self.info_hash@,
            info_hash_hex: self.info_hash_hex@,
        }
    }
}

/// The engine's settings and the one thing it remembers: when it last let a
/// node through to be befriended.
pub struct RustDHT {
    node_last_send_time: u64,
    local_id: Vec<u8>,
    mk_friends_pause_milli: u64,
    secret: String,
    bootstraps: Vec<String>,
    bind_addr: String,
}

/// The settings of an engine. They do not change once the engine runs.
pub struct Settings {
    pub local_id: Seq<u8>,
    pub pause_millis: u64,
    pub secret: Seq<char>,
    pub bootstraps: Seq<Seq<char>>,
    pub bind_addr: Seq<char>,
}

/// The pause between two befriended nodes for a wanted rate: the rate is
/// ten a second where none is given, and is held between one and a
/// thousand a second.
pub open spec fn pause_for(n: i32) -> u64 {
    let rate = if n == 0 {
        DEFAULT_FRIENDS_PER_SEC
    } else if n < 1 {
        1
    } else if n > MAX_FRIENDS_PER_SEC {
        MAX_FRIENDS_PER_SEC
    } else {
        n
    };
    (1000int / (rate as int)) as u64
}

/// Whatever rate is asked for, the pause lies between one millisecond and a
/// second.
pub proof fn lemma_pause_bounds(n: i32)
    ensures
        1 <= pause_for(n) <= 1000,
{
    let rate = if n == 0 {
        DEFAULT_FRIENDS_PER_SEC
    } else if n < 1 {
        1
    } else if n > MAX_FRIENDS_PER_SEC {
        MAX_FRIENDS_PER_SEC
    } else {
        n
    };
    let r = rate as int;
    assert(1 <= 1000int / r <= 1000) by (nonlinear_arith)
        requires
            1 <= r <= 1000,
    ;
}

impl RustDHT {
    #[verifier::type_invariant]
    spec fn inv(self) -> bool {
        self.local_id@.len() == ID_LEN && 1 <= self.mk_friends_pause_milli <= 1000
    }

    /// The engine's settings.
    pub closed spec fn settings(&self) -> Settings {
        Settings {
            local_id: self.local_id@,
            pause_millis: self.mk_friends_pause_milli,
            secret: self.secret@,
            bootstraps: Seq::new(self.bootstraps@.len(), |i: int| self.bootstraps@[i]@),
            bind_addr: self.bind_addr@,
        }
    }

    /// When a node was last let through, in milliseconds.
    pub closed spec fn last_send(&self) -> u64 {
        self.node_last_send_time
    }

    /// Sets how many nodes a second may be befriended.
    pub fn max_friends_per_sec(self, n: i32) -> (dht: RustDHT)
        ensures
            dht.settings() == (Settings { pause_millis: pause_for(n), ..self.settings() }),
            dht.last_send() == self.last_send(),
    {
        proof {
            use_type_invariant(&self);
        }
        let rate: i32 = if n == 0 {
            DEFAULT_FRIENDS_PER_SEC
        } else if n < 1 {
            1
        } else if n > MAX_FRIENDS_PER_SEC {
            MAX_FRIENDS_PER_SEC
        } else {
            n
        };
        let rate: u64 = rate as u64;
        assert(1 <= 1000int / (rate as int) <= 1000) by (nonlinear_arith)
            requires
                1 <= rate <= 1000,
        ;
        let mut dht = self;
        dht.mk_friends_pause_milli = 1000 / rate;
        dht
    }

    /// Sets the id that the forged identities end with.
    pub fn local_id(self, id: Vec<u8>) -> (dht: RustDHT)
        requires
            id@.len() == ID_LEN,
        ensures
            dht.settings() == (Settings { local_id: id@, ..self.settings() }),
            dht.last_send() == self.last_send(),
    {
        proof {
            use_type_invariant(&self);
        }
        let mut dht = self;
        dht.local_id = id;
        dht
    }

    /// Sets the secret that the announce tokens are made with.
    pub fn secret(self, s: String) -> (dht: RustDHT)
        ensures
            dht.settings() == (Settings { secret: s@, ..self.settings() }),
            dht.last_send() == self.last_send(),
    {
        proof {
            use_type_invariant(&self);
        }
        let mut dht = self;
        dht.secret = s;
        dht
    }

    /// Replaces the list of routers to start from.
    pub fn bootstraps(self, addr: Vec<String>) -> (dht: RustDHT)
        ensures
            dht.settings() == (Settings {
                bootstraps: Seq::new(addr@.len(), |i: int| addr@[i]@),
                ..self.settings()
            }),
            dht.last_send() == self.last_send(),
    {
        proof {
            use_type_invariant(&self);
        }
        let mut dht = self;
        dht.bootstraps = addr;
        dht
    }

    /// Sets the endpoint that the UDP socket is bound to.
    pub fn bind_addr(self, addr: String) -> (dht: RustDHT)
        ensures
            dht.settings() == (Settings { bind_addr: addr@, ..self.settings() }),
            dht.last_send() == self.last_send(),
    {
        proof {
            use_type_invariant(&self);
        }
        let mut dht = self;
        dht.bind_addr = addr;
        dht
    }

    /// The endpoint that the UDP socket is bound to.
    pub fn bind_address(&self) -> (addr: &String)
        ensures
            addr@ == self.settings().bind_addr,
    {
        &self.bind_addr
    }

    /// The pause between two befriended nodes, in milliseconds.
    pub fn pause_millis(&self) -> (ms: u64)
        ensures
            ms == self.settings().pause_millis,
            1 <= ms <= 1000,
    {
        proof {
            use_type_invariant(self);
        }
        self.mk_friends_pause_milli
    }

    /// The id that the forged identities end with.
    pub fn id(&self) -> (id: &Vec<u8>)
        ensures
            id@ == self.settings().local_id,
            id@.len() == ID_LEN,
    {
        proof {
            use_type_invariant(self);
        }
        &self.local_id
    }
}

/// The routers that an engine starts from unless it is given others.
pub open spec fn default_bootstraps() -> Seq<Seq<char>> {
    seq![
        "router.bittorrent.com:6881"@,
        "dht.transmissionbt.com:6881"@,
        "router.utorrent.com:6881"@,
    ]
}

/// A new engine: a random id, ten friends a second, the built-in secret,
/// the three well-known routers, and port 34254 on every interface.
pub fn new_dht() -> (dht: RustDHT)
    ensures
        dht.settings().local_id.len() == ID_LEN,
        dht.settings().pause_millis == 100,
        dht.settings().secret == "IYHJFR%^&IO"@,
        dht.settings().bootstraps == default_bootstraps(),
        dht.settings().bind_addr == "0.0.0.0:34254"@,
        dht.last_send() == 0,
{
    let mut routers: Vec<String> = Vec::new();
    routers.push(String::from_str("router.bittorrent.com:6881"));
    routers.push(String::from_str("dht.transmissionbt.com:6881"));
    routers.push(String::from_str("router.utorrent.com:6881"));
    let dht = RustDHT {
        node_last_send_time: 0,
        local_id: rand_bytes(20),
        mk_friends_pause_milli: 100,
        secret: String::from_str("IYHJFR%^&IO"),
        bootstraps: routers,
        bind_addr: String::from_str("0.0.0.0:34254"),
    };
    assert(dht.settings().bootstraps =~= default_bootstraps());
    dht
}

/// What is to be done about a datagram.
pub enum Outcome {
    /// Nothing: the datagram is dropped.
    Ignore,
    /// These bytes go back to where the datagram came from.
    Reply(Vec<u8>),
    /// A peer announced a torrent.
    Announce(Announce),
    /// These nodes are to be befriended, in this order.
    Friends(Vec<Node>),
}

/// What kind of datagram a decoded value is.
pub enum Kind {
    /// A `get_peers` query.
    GetPeers,
    /// An `announce_peer` query.
    AnnouncePeer,
    /// A response that carries a compact node list.
    Nodes(Seq<u8>),
    /// Anything else.
    Other,
}

/// Sorts a decoded value: queries by their name, and responses and errors
/// by whether their `r` holds `nodes`.
pub open spec fn kind_of(msg: BenValue) -> Kind {
    let y = match entry(msg, ascii("y"@)) {
        Some(v) => text_or_empty(v),
        None => Seq::empty(),
    };
    if y == ascii("q"@) {
        match entry(msg, ascii("q"@)) {
            Some(BenValue::Bytes(q)) => if q == ascii("get_peers"@) {
                Kind::GetPeers
            } else if q == ascii("announce_peer"@) {
                Kind::AnnouncePeer
            } else {
                Kind::Other
            },
            _ => Kind::Other,
        }
    } else if y == ascii("r"@) || y == ascii("e"@) {
        match entry(msg, ascii("r"@)) {
            Some(r) => match entry(r, ascii("nodes"@)) {
                Some(BenValue::Bytes(s)) => Kind::Nodes(s),
                _ => Kind::Other,
            },
            None => Kind::Other,
        }
    } else {
        Kind::Other
    }
}

/// The `find_node` query with transaction id `tid` that shows the sender
/// as `id` and asks for `target`.
pub open spec fn find_node_value(tid: Seq<u8>, id: Seq<u8>, target: Seq<u8>) -> BenValue {
    query_value(
        QueryView {
            t: tid,
            y: ascii("q"@),
            q: ascii("find_node"@),
            a: map![
                ascii("id"@) => BenValue::Bytes(id),
                ascii("target"@) => BenValue::Bytes(target),
            ],
        },
    )
}

/// The answer to a `get_peers` query, if it gets one. The query needs a
/// `t`, and an `a` that is a dictionary with an `id` of at least ten bytes.
/// The answer shows the sender as a neighbour of `id`, hands out no nodes,
/// and carries the token of the asking address.
pub open spec fn get_peers_reply(
    msg: BenValue,
    local_id: Seq<u8>,
    ip: Seq<char>,
    secret: Seq<char>,
) -> Option<BenValue> {
    let t = entry(msg, ascii("t"@));
    let a = entry(msg, ascii("a"@));
    if t is None || a is None || !(a.unwrap() is Dict) {
        None
    } else {
        let id = match entry(a.unwrap(), ascii("id"@)) {
            Some(v) => text_or_empty(v),
            None => Seq::empty(),
        };
        if id.len() < SHARED_PREFIX {
            None
        } else {
            Some(
                reply_value(
                    ReplyView {
                        t: text_or_empty(t.unwrap()),
                        y: ascii("r"@),
                        r: map![
                            ascii("id"@) => BenValue::Bytes(neighbour_spec(id, local_id)),
                            ascii("nodes"@) => BenValue::Bytes(Seq::empty()),
                            ascii("token"@) => BenValue::Bytes(ascii(token_spec(ip, secret))),
                        ],
                    },
                ),
            )
        }
    }
}

/// The port that an announcing peer serves on: the `port` argument where
/// `implied_port` is zero and `port` is a number, cut to sixteen bits, and
/// the port that the datagram came from in every other case.
pub open spec fn announce_port(a: BenValue, src_port: u16) -> u16 {
    match (entry(a, ascii("implied_port"@)), entry(a, ascii("port"@))) {
        (Some(BenValue::Number(implied)), Some(BenValue::Number(p))) => if implied == 0 {
            p as u16
        } else {
            src_port
        },
        _ => src_port,
    }
}

/// The announce that an `announce_peer` query makes, if it makes one. The
/// `token` has to be the token of the announcing address, and the
/// `info_hash` has to be twenty bytes long.
pub open spec fn announce_of(msg: BenValue, from: PeerAddrView, secret: Seq<char>) -> Option<
    AnnounceView,
> {
    match entry(msg, ascii("a"@)) {
        Some(a) => match (entry(a, ascii("token"@)), entry(a, ascii("info_hash"@))) {
            (Some(BenValue::Bytes(token)), Some(BenValue::Bytes(hash))) => if token == ascii(
                token_spec(from.ip, secret),
            ) && hash.len() == ID_LEN {
                Some(
                    AnnounceView {
                        from,
                        peer: PeerAddrView { ip: from.ip, port: announce_port(a, from.port) },
                        info_hash: hash,
                        info_hash_hex: hex_spec(hash),
                    },
                )
            } else {
                None
            },
            _ => None,
        },
        None => None,
    }
}

/// Whether `part` can be had from `whole` by leaving items out.
pub open spec fn sub_list(part: Seq<NodeView>, whole: Seq<NodeView>) -> bool
    decreases whole.len(),
{
    if part.len() == 0 {
        true
    } else if whole.len() == 0 {
        false
    } else {
        (part.last() == whole.last() && sub_list(part.drop_last(), whole.drop_last())) || sub_list(
            part,
            whole.drop_last(),
        )
    }
}

/// Whether a node may be let through at `now`: not before the pause has
/// passed since the last one.
pub open spec fn admits(last: u64, pause: u64, now: u64) -> bool {
    now - last >= pause
}

/// Whether `out` is what is to be done about the decoded datagram `msg`
/// that came from `from`.
pub open spec fn outcome_fits(
    out: Outcome,
    msg: BenValue,
    from: PeerAddrView,
    settings: Settings,
) -> bool {
    match kind_of(msg) {
        Kind::GetPeers => match get_peers_reply(
            msg,
            settings.local_id,
            from.ip,
            settings.secret,
        ) {
            Some(v) => out matches Outcome::Reply(bytes) && bytes@ == encoded(v),
            None => out is Ignore,
        },
        Kind::AnnouncePeer => match announce_of(msg, from, settings.secret) {
            Some(a) => out matches Outcome::Announce(seen) && seen@ == a,
            None => out is Ignore,
        },
        Kind::Nodes(s) => out matches Outcome::Friends(list) && sub_list(
            views(list@),
            decode_nodes_spec(s),
        ),
        Kind::Other => out is Ignore,
    }
}

impl Clone for PeerAddr {
    fn clone(&self) -> (copy: Self)
        ensures
            copy@ == self@,
    {
        PeerAddr { ip: self.ip.clone(), port: self.port }
    }
}

impl RustDHT {
    /// The nodes to begin with: one for each router, under a random id.
    pub fn start(&self) -> (seeds: Vec<Node>)
        ensures
            seeds@.len() == self.settings().bootstraps.len(),
            forall|i: int|
                0 <= i < seeds@.len() ==> (#[trigger] seeds@[i]).addr@
                    == self.settings().bootstraps[i] && seeds@[i].id@.len() == ID_LEN,
    {
        let mut seeds: Vec<Node> = Vec::new();
        let mut i: usize = 0;
        while i < self.bootstraps.len()
            invariant
                i <= self.bootstraps@.len(),
                seeds@.len() == i,
                forall|j: int|
                    0 <= j < i ==> (#[trigger] seeds@[j]).addr@ == self.bootstraps@[j]@
                        && seeds@[j].id@.len() == ID_LEN,
            decreases self.bootstraps.len() - i,
        {
            seeds.push(Node { addr: self.bootstraps[i].clone(), id: rand_bytes(20) });
            i += 1;
        }
        seeds
    }

    /// Decides whether a node may be let through at the time `now`, and
    /// remembers the time if it may.
    pub fn let_through(&mut self, now: u64) -> (ok: bool)
        ensures
            ok == admits(old(self).last_send(), old(self).settings().pause_millis, now),
            final(self).settings() == old(self).settings(),
            final(self).last_send() == if ok {
                now
            } else {
                old(self).last_send()
            },
    {
        proof {
            use_type_invariant(&*self);
        }
        if now >= self.node_last_send_time && now - self.node_last_send_time
            >= self.mk_friends_pause_milli {
            self.node_last_send_time = now;
            true
        } else {
            false
        }
    }

    /// Lets through the nodes that the rate allows and drops the others: the
    /// clock is read once for each node, and the rate is held on those times.
    pub fn gate(&mut self, nodes: &Vec<Node>) -> (passed: Vec<Node>)
        ensures
            exists|times: Seq<u64>|
                times.len() == nodes@.len() && #[trigger] gate_spec(
                    old(self).last_send(),
                    old(self).settings().pause_millis,
                    views(nodes@),
                    times,
                ) == (views(passed@), final(self).last_send()),
            sub_list(views(passed@), views(nodes@)),
            final(self).settings() == old(self).settings(),
            passed@.len() == 0 ==> final(self).last_send() == old(self).last_send(),
    {
        let mut passed: Vec<Node> = Vec::new();
        let mut i: usize = 0;
        let ghost mut times: Seq<u64> = Seq::empty();
        assert(views(nodes@).take(0) =~= Seq::<NodeView>::empty());
        assert(views(passed@) =~= Seq::<NodeView>::empty());
        while i < nodes.len()
            invariant
                i <= nodes.len(),
                times.len() == i,
                gate_spec(
                    old(self).last_send(),
                    old(self).settings().pause_millis,
                    views(nodes@).take(i as int),
                    times,
                ) == (views(passed@), self.last_send()),
                sub_list(views(passed@), views(nodes@).take(i as int)),
                self.settings() == old(self).settings(),
                passed@.len() == 0 ==> self.last_send() == old(self).last_send(),
            decreases nodes.len() - i,
        {
            let ghost before = views(passed@);
            let ghost seen = views(nodes@).take(i as int);
            let ghost read = times;
            let ghost last = self.last_send();
            let now: u64 = get_now_millis();
            let ok = self.let_through(now);
            if ok {
                passed.push(nodes[i].clone());
            }
            i += 1;
            proof {
                times = read.push(now);
                let cur = views(nodes@).take(i as int);
                assert(cur.drop_last() =~= seen);
                assert(cur.last() == nodes@[i - 1]@);
                assert(times.drop_last() =~= read);
                assert(times.last() == now);
                if ok {
                    assert(views(passed@).drop_last() =~= before);
                    assert(views(passed@).last() == cur.last());
                    assert(views(passed@) =~= before.push(cur.last()));
                } else {
                    assert(views(passed@) =~= before);
                }
                assert(gate_spec(
                    old(self).last_send(),
                    old(self).settings().pause_millis,
                    cur,
                    times,
                ) == (views(passed@), self.last_send()));
            }
        }
        assert(views(nodes@).take(i as int) =~= views(nodes@));
        assert(gate_spec(
            old(self).last_send(),
            old(self).settings().pause_millis,
            views(nodes@),
            times,
        ) == (views(passed@), self.last_send()));
        passed
    }

    /// The announce token of the address that `from` names.
    pub fn gen_token(&self, from: &PeerAddr) -> (token: String)
        ensures
            token@ == token_spec(from.ip@, self.settings().secret),
    {
        token_for(from.ip.as_str(), self.secret.as_str())
    }

    /// Whether `token` is the token of the address that `from` names.
    pub fn is_token_available(&self, token: &[u8], from: &PeerAddr) -> (ok: bool)
        ensures
            ok == (token@ == ascii(token_spec(from.ip@, self.settings().secret))),
    {
        let own = self.gen_token(from);
        proof {
            lemma_hex_is_ascii(
                crate::digest::sha1(
                    vstd::utf8::encode_utf8(from.ip@) + vstd::utf8::encode_utf8(self.secret@),
                ),
            );
        }
        same_bytes(token, lit(own.as_str()))
    }

    /// Writes the `find_node` query for the node `to` with the given target
    /// and transaction id. A node whose id has fewer than ten bytes cannot
    /// be posed to and gets no query.
    pub fn find_node_with(&self, to: &Node, target: Vec<u8>, tid: Vec<u8>) -> (query: Option<
        Vec<u8>,
    >)
        ensures
            match query {
                Some(bytes) => to.id@.len() >= SHARED_PREFIX && bytes@ == encoded(
                    find_node_value(
                        tid@,
                        neighbour_spec(to.id@, self.settings().local_id),
                        target@,
                    ),
                ),
                None => to.id@.len() < SHARED_PREFIX,
            },
    {
        proof {
            use_type_invariant(self);
            reveal_strlit("id");
            reveal_strlit("target");
            reveal_strlit("find_node");
        }
        if to.id.len() < SHARED_PREFIX {
            return None;
        }
        let mut m: Args = Vec::new();
        push_arg(&mut m, lit("id"), neighbour_id(to.id.clone(), &self.local_id));
        push_arg(&mut m, lit("target"), target);
        let q = make_query(tid, slice_to_vec(lit("find_node")), &m);
        Some(to_bytes(&q.to_bencode()))
    }

    /// Writes a `find_node` query for the node `to`, with a random target
    /// of twenty bytes and a random transaction id of two.
    pub fn find_node(&self, to: &Node) -> (query: Option<Vec<u8>>)
        ensures
            match query {
                Some(bytes) => to.id@.len() >= SHARED_PREFIX && exists|
                    tid: Seq<u8>,
                    target: Seq<u8>,
                |
                    tid.len() == 2 && target.len() == ID_LEN && bytes@ == encoded(
                        #[trigger] find_node_value(
                            tid,
                            neighbour_spec(to.id@, self.settings().local_id),
                            target,
                        ),
                    ),
                None => to.id@.len() < SHARED_PREFIX,
            },
    {
        let target = rand_bytes(20);
        let tid = rand_bytes(2);
        self.find_node_with(to, target, tid)
    }

    /// Answers a `get_peers` query that came from `from`. The result is the
    /// reply to send back, if the query gets one.
    pub fn on_get_peers_query(&self, msg: &Bencode, from: &PeerAddr) -> (reply: Option<Vec<u8>>)
        ensures
            match get_peers_reply(
                ben_view(*msg),
                self.settings().local_id,
                from.ip@,
                self.settings().secret,
            ) {
                Some(v) => reply matches Some(bytes) && bytes@ == encoded(v),
                None => reply is None,
            },
    {
        proof {
            use_type_invariant(self);
            reveal_strlit("t");
            reveal_strlit("a");
            reveal_strlit("id");
            reveal_strlit("nodes");
            reveal_strlit("token");
        }
        let t = match dict_get(msg, lit("t")) {
            Some(t) => crate::message::bytes_or_empty(t),
            None => {
                return None;
            },
        };
        let a = match dict_get(msg, lit("a")) {
            Some(a) => a,
            None => {
                return None;
            },
        };
        if !is_dict(a) {
            return None;
        }
        let id = match dict_get(a, lit("id")) {
            Some(v) => crate::message::bytes_or_empty(v),
            None => Vec::new(),
        };
        if id.len() < SHARED_PREFIX {
            return None;
        }
        let token = self.gen_token(from);
        proof {
            lemma_hex_is_ascii(
                crate::digest::sha1(
                    vstd::utf8::encode_utf8(from.ip@) + vstd::utf8::encode_utf8(self.secret@),
                ),
            );
        }
        let mut r: Args = Vec::new();
        push_arg(&mut r, lit("id"), neighbour_id(id, &self.local_id));
        push_arg(&mut r, lit("nodes"), Vec::new());
        push_arg(&mut r, lit("token"), slice_to_vec(lit(token.as_str())));
        let reply = make_reply(t, &r);
        Some(to_bytes(&reply.to_bencode()))
    }

    /// Judges an `announce_peer` query that came from `from`. The result is
    /// the announce to hand on, if the query is valid.
    pub fn on_announce_peer_query(&self, msg: &Bencode, from: &PeerAddr) -> (seen: Option<
        Announce,
    >)
        ensures
            match announce_of(ben_view(*msg), from@, self.settings().secret) {
                Some(a) => seen matches Some(s) && s@ == a,
                None => seen is None,
            },
    {
        proof {
            reveal_strlit("a");
            reveal_strlit("token");
            reveal_strlit("implied_port");
            reveal_strlit("port");
            reveal_strlit("info_hash");
        }
        let a = match dict_get(msg, lit("a")) {
            Some(a) => a,
            None => {
                return None;
            },
        };
        let token = match dict_get(a, lit("token")) {
            Some(v) => match as_bytes(v) {
                Some(token) => token,
                None => {
                    return None;
                },
            },
            None => {
                return None;
            },
        };
        if !self.is_token_available(token, from) {
            return None;
        }
        let mut port: u16 = from.port;
        match dict_get(a, lit("implied_port")) {
            Some(v) => match as_number(v) {
                Some(implied) => {
                    if implied == 0 {
                        match dict_get(a, lit("port")) {
                            Some(w) => match as_number(w) {
                                Some(p) => {
                                    port = #[verifier::truncate] (p as u16);
                                },
                                None => {},
                            },
                            None => {},
                        }
                    }
                },
                None => {},
            },
            None => {},
        }
        let hash = match dict_get(a, lit("info_hash")) {
            Some(v) => match as_bytes(v) {
                Some(hash) => hash,
                None => {
                    return None;
                },
            },
            None => {
                return None;
            },
        };
        if hash.len() != ID_LEN {
            return None;
        }
        Some(
            Announce {
                from: from.clone(),
                peer: PeerAddr { ip: from.ip.clone(), port },
                info_hash: slice_to_vec(hash),
                info_hash_hex: hex(slice_to_vec(hash)),
            },
        )
    }

    /// Decides what is to be done about a decoded datagram from `from`.
    pub fn on_value(&mut self, msg: &Bencode, from: &PeerAddr) -> (out: Outcome)
        ensures
            outcome_fits(out, ben_view(*msg), from@, old(self).settings()),
            final(self).settings() == old(self).settings(),
            !(out matches Outcome::Friends(list) && list@.len() > 0) ==> final(self).last_send()
                == old(self).last_send(),
    {
        proof {
            reveal_strlit("y");
            reveal_strlit("q");
            reveal_strlit("r");
            reveal_strlit("e");
            reveal_strlit("nodes");
            reveal_strlit("get_peers");
            reveal_strlit("announce_peer");
        }
        let y: Vec<u8> = match dict_get(msg, lit("y")) {
            Some(v) => crate::message::bytes_or_empty(v),
            None => Vec::new(),
        };
        if same_bytes(y.as_slice(), lit("q")) {
            let name = match dict_get(msg, lit("q")) {
                Some(v) => match as_bytes(v) {
                    Some(name) => name,
                    None => {
                        return Outcome::Ignore;
                    },
                },
                None => {
                    return Outcome::Ignore;
                },
            };
            if same_bytes(name, lit("get_peers")) {
                match self.on_get_peers_query(msg, from) {
                    Some(bytes) => Outcome::Reply(bytes),
                    None => Outcome::Ignore,
                }
            } else if same_bytes(name, lit("announce_peer")) {
                match self.on_announce_peer_query(msg, from) {
                    Some(seen) => Outcome::Announce(seen),
                    None => Outcome::Ignore,
                }
            } else {
                Outcome::Ignore
            }
        } else if same_bytes(y.as_slice(), lit("r")) || same_bytes(y.as_slice(), lit("e")) {
            let r = match dict_get(msg, lit("r")) {
                Some(r) => r,
                None => {
                    return Outcome::Ignore;
                },
            };
            let list = match dict_get(r, lit("nodes")) {
                Some(v) => match as_bytes(v) {
                    Some(list) => list,
                    None => {
                        return Outcome::Ignore;
                    },
                },
                None => {
                    return Outcome::Ignore;
                },
            };
            let nodes = decode_nodes(list);
            Outcome::Friends(self.gate(&nodes))
        } else {
            Outcome::Ignore
        }
    }

    /// Decides what is to be done about the datagram `dat` that came from
    /// `from`. A datagram that does not decode is dropped.
    pub fn on_message(&mut self, dat: &[u8], from: &PeerAddr) -> (out: Outcome)
        ensures
            match decoded(dat@) {
                Some(msg) => outcome_fits(out, msg, from@, old(self).settings()),
                None => out is Ignore,
            },
            final(self).settings() == old(self).settings(),
            !(out matches Outcome::Friends(list) && list@.len() > 0) ==> final(self).last_send()
                == old(self).last_send(),
    {
        match decode(dat) {
            Some(msg) => self.on_value(&msg, from),
            None => Outcome::Ignore,
        }
    }
}

/// Which nodes of a list the rate allows when the clock reads `times[i]` as
/// the node with index `i` is looked at: the nodes that are let through, in
/// order, and the time at which one was last let through. A node passes
/// where the pause has gone by since the last one that passed, or since
/// `last` where none has.
pub open spec fn gate_spec(last: u64, pause: u64, nodes: Seq<NodeView>, times: Seq<u64>) -> (
    Seq<NodeView>,
    u64,
)
    decreases nodes.len(),
{
    if nodes.len() == 0 || times.len() == 0 {
        (Seq::empty(), last)
    } else {
        let (passed, seen) = gate_spec(last, pause, nodes.drop_last(), times.drop_last());
        if admits(seen, pause, times.last()) {
            (passed.push(nodes.last()), times.last())
        } else {
            (passed, seen)
        }
    }
}

/// The port of an announce: with `implied_port` other than zero it is the
/// port that the datagram came from, and with `implied_port` zero it is the
/// `port` argument, where that is a port number.
pub proof fn lemma_announce_port(
    msg: BenValue,
    from: PeerAddrView,
    secret: Seq<char>,
    implied: i64,
    port: i64,
)
    requires
        announce_of(msg, from, secret) is Some,
        entry(entry(msg, ascii("a"@)).unwrap(), ascii("implied_port"@)) == Some(
            BenValue::Number(implied),
        ),
        implied == 0 ==> entry(entry(msg, ascii("a"@)).unwrap(), ascii("port"@)) == Some(
            BenValue::Number(port),
        ) && 0 <= port <= 65535,
    ensures
        announce_of(msg, from, secret).unwrap().peer.ip == from.ip,
        implied != 0 ==> announce_of(msg, from, secret).unwrap().peer.port == from.port,
        implied == 0 ==> announce_of(msg, from, secret).unwrap().peer.port == port,
{
}

} // verus!

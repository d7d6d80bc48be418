//! The two KRPC records that the crawler writes: queries and replies.

use crate::bencoding::{
    as_bytes, ben_view, byte_string, dict_get, dict_keys, dict_with, empty_dict, entry, is_dict,
    BenValue,
};
use crate::bytes::{ascii, lit};
use bencode::Bencode;
use vstd::prelude::*;
use vstd::slice::slice_to_vec;

verus! {

/// Named arguments, in the order in which they were given. Where a name
/// occurs twice, the later value counts.
pub type Args = Vec<(Vec<u8>, Vec<u8>)>;

/// The dictionary that a list of named arguments stands for.
pub open spec fn args_map(a: Seq<(Vec<u8>, Vec<u8>)>) -> Map<Seq<u8>, BenValue>
    decreases a.len(),
{
    if a.len() == 0 {
        Map::empty()
    } else {
        args_map(a.drop_last()).insert(a.last().0@, BenValue::Bytes(a.last().1@))
    }
}

/// A query: transaction id `t`, the kind marker `y`, the query's name `q`
/// and its arguments `a`.
pub struct Query {
    pub t: Vec<u8>,
    pub y: Vec<u8>,
    pub q: Vec<u8>,
    pub a: Args,
}

/// What a [`Query`] holds.
pub struct QueryView {
    pub t: Seq<u8>,
    pub y: Seq<u8>,
    pub q: Seq<u8>,
    pub a: Map<Seq<u8>, BenValue>,
}

impl View for Query {
    type V = QueryView;

    open spec fn view(&self) -> QueryView {
        QueryView { t: self.t@, y: self.y@, q: self.q@, a: args_map(self.a@) }
    }
}

/// A reply: transaction id `t`, the kind marker `y` and the results `r`.
pub struct Reply {
    pub t: Vec<u8>,
    pub y: Vec<u8>,
    pub r: Args,
}

/// What a [`Reply`] holds.
pub struct ReplyView {
    pub t: Seq<u8>,
    pub y: Seq<u8>,
    pub r: Map<Seq<u8>, BenValue>,
}

impl View for Reply {
    type V = ReplyView;

    open spec fn view(&self) -> ReplyView {
        ReplyView { t: self.t@, y: self.y@, r: args_map(self.r@) }
    }
}

/// Why a value is no query.
#[derive(Clone, Copy, Debug, PartialEq, Eq)]
pub enum QueryError {
    /// The value is no dictionary.
    NotADict,
    /// The dictionary has no `a`.
    MissingArgs,
    /// The dictionary has no `t`.
    MissingTransaction,
    /// The dictionary has no `y`.
    MissingKind,
    /// The dictionary has no `q`.
    MissingName,
}

/// The dictionary that a query is written as.
pub open spec fn query_value(q: QueryView) -> BenValue {
    BenValue::Dict(
        map![
            ascii("t"@) => BenValue::Bytes(q.t),
            ascii("y"@) => BenValue::Bytes(q.y),
            ascii("q"@) => BenValue::Bytes(q.q),
            ascii("a"@) => BenValue::Dict(q.a),
        ],
    )
}

/// The dictionary that a reply is written as.
pub open spec fn reply_value(r: ReplyView) -> BenValue {
    BenValue::Dict(
        map![
            ascii("t"@) => BenValue::Bytes(r.t),
            ascii("y"@) => BenValue::Bytes(r.y),
            ascii("r"@) => BenValue::Dict(r.r),
        ],
    )
}

/// A copy of a list of named arguments.
pub fn copy_args(a: &Args) -> (copy: Args)
    ensures
        copy@.len() == a@.len(),
        forall|i: int|
            0 <= i < a@.len() ==> (#[trigger] copy@[i]).0@ == a@[i].0@ && copy@[i].1@ == a@[i].1@,
        args_map(copy@) == args_map(a@),
{
    let mut copy: Args = Vec::new();
    let mut i: usize = 0;
    while i < a.len()
        invariant
            i <= a.len(),
            copy@.len() == i,
            forall|j: int|
                0 <= j < i ==> (#[trigger] copy@[j]).0@ == a@[j].0@ && copy@[j].1@ == a@[j].1@,
            args_map(copy@) == args_map(a@.take(i as int)),
        decreases a.len() - i,
    {
        let name = slice_to_vec(a[i].0.as_slice());
        let value = slice_to_vec(a[i].1.as_slice());
        let ghost before = copy@;
        copy.push((name, value));
        i += 1;
        proof {
            assert(copy@.drop_last() =~= before);
            assert(a@.take(i as int).drop_last() =~= a@.take(i - 1));
        }
    }
    assert(a@.take(i as int) =~= a@);
    copy
}

/// Adds a named argument at the end.
pub fn push_arg(args: &mut Args, name: &[u8], value: Vec<u8>)
    ensures
        args_map(final(args)@) == args_map(old(args)@).insert(name@, BenValue::Bytes(value@)),
{
    let ghost before = args@;
    args.push((slice_to_vec(name), value));
    assert(args@.drop_last() =~= before);
}

/// The dictionary value of a list of named arguments.
pub fn args_to_bencode(a: &Args) -> (b: Bencode)
    ensures
        ben_view(b) == BenValue::Dict(args_map(a@)),
{
    let mut b = empty_dict();
    let mut i: usize = 0;
    while i < a.len()
        invariant
            i <= a.len(),
            ben_view(b) == BenValue::Dict(args_map(a@.take(i as int))),
        decreases a.len() - i,
    {
        b = dict_with(b, a[i].0.as_slice(), byte_string(a[i].1.as_slice()));
        i += 1;
        proof {
            assert(a@.take(i as int).drop_last() =~= a@.take(i - 1));
        }
    }
    assert(a@.take(i as int) =~= a@);
    b
}

impl Query {
    /// The dictionary with the keys `t`, `y`, `q` and `a`.
    pub fn to_bencode(&self) -> (b: Bencode)
        ensures
            ben_view(b) == query_value(self@),
    {
        proof {
            reveal_strlit("t");
            reveal_strlit("y");
            reveal_strlit("q");
            reveal_strlit("a");
        }
        let mut m = empty_dict();
        m = dict_with(m, lit("t"), byte_string(self.t.as_slice()));
        m = dict_with(m, lit("y"), byte_string(self.y.as_slice()));
        m = dict_with(m, lit("q"), byte_string(self.q.as_slice()));
        m = dict_with(m, lit("a"), args_to_bencode(&self.a));
        m
    }
}

impl Reply {
    /// The dictionary with the keys `t`, `y` and `r`.
    pub fn to_bencode(&self) -> (b: Bencode)
        ensures
            ben_view(b) == reply_value(self@),
    {
        proof {
            reveal_strlit("t");
            reveal_strlit("y");
            reveal_strlit("r");
        }
        let mut m = empty_dict();
        m = dict_with(m, lit("t"), byte_string(self.t.as_slice()));
        m = dict_with(m, lit("y"), byte_string(self.y.as_slice()));
        m = dict_with(m, lit("r"), args_to_bencode(&self.r));
        m
    }
}

/// The byte string that `v` holds, and no bytes where it holds none.
pub open spec fn text_or_empty(v: BenValue) -> Seq<u8> {
    match v {
        BenValue::Bytes(s) => s,
        _ => Seq::empty(),
    }
}

/// Whether every value of a dictionary is a byte string.
pub open spec fn all_bytes(m: Map<Seq<u8>, BenValue>) -> bool {
    forall|k: Seq<u8>| #[trigger] m.contains_key(k) ==> m[k] is Bytes
}

/// The arguments that a value gives: its entries where it is a dictionary
/// of byte strings, and none otherwise.
pub open spec fn args_of(v: BenValue) -> Map<Seq<u8>, BenValue> {
    match v {
        BenValue::Dict(m) => if all_bytes(m) {
            m
        } else {
            Map::empty()
        },
        _ => Map::empty(),
    }
}

/// The query that a decoded value stands for. The value has to be a
/// dictionary with the keys `a`, `t`, `y` and `q`, looked for in this order.
/// A `t`, `y` or `q` that is no byte string reads as the empty one, and an
/// `a` that is no dictionary of byte strings reads as no arguments.
pub open spec fn query_from(v: BenValue) -> Result<QueryView, QueryError> {
    if !(v is Dict) {
        Err(QueryError::NotADict)
    } else if entry(v, ascii("a"@)) is None {
        Err(QueryError::MissingArgs)
    } else if entry(v, ascii("t"@)) is None {
        Err(QueryError::MissingTransaction)
    } else if entry(v, ascii("y"@)) is None {
        Err(QueryError::MissingKind)
    } else if entry(v, ascii("q"@)) is None {
        Err(QueryError::MissingName)
    } else {
        Ok(
            QueryView {
                t: text_or_empty(entry(v, ascii("t"@)).unwrap()),
                y: text_or_empty(entry(v, ascii("y"@)).unwrap()),
                q: text_or_empty(entry(v, ascii("q"@)).unwrap()),
                a: args_of(entry(v, ascii("a"@)).unwrap()),
            },
        )
    }
}

/// A copy of the byte string in `b`; empty where `b` is none.
pub fn bytes_or_empty(b: &Bencode) -> (out: Vec<u8>)
    ensures
        out@ == text_or_empty(ben_view(*b)),
{
    match as_bytes(b) {
        Some(s) => slice_to_vec(s),
        None => Vec::new(),
    }
}

/// The named arguments in a decoded value.
pub fn args_from_bencode(a: &Bencode) -> (args: Args)
    ensures
        args_map(args@) == args_of(ben_view(*a)),
{
    let keys = dict_keys(a);
    let mut args: Args = Vec::new();
    let mut i: usize = 0;
    while i < keys.len()
        invariant
            i <= keys.len(),
            forall|j: int|
                0 <= j < keys@.len() ==> entry(ben_view(*a), (#[trigger] keys@[j])@) is Some,
            forall|k: Seq<u8>|
                args_map(args@).contains_key(k) <==> exists|j: int|
                    0 <= j < i && (#[trigger] keys@[j])@ == k,
            forall|k: Seq<u8>| #[trigger]
                args_map(args@).contains_key(k) ==> entry(ben_view(*a), k) == Some(
                    args_map(args@)[k],
                ) && args_map(args@)[k] is Bytes,
        decreases keys.len() - i,
    {
        let value = match dict_get(a, keys[i].as_slice()) {
            Some(v) => v,
            None => {
                return Vec::new();
            },
        };
        let bytes = match as_bytes(value) {
            Some(s) => s,
            None => {
                proof {
                    let m = ben_view(*a)->Dict_0;
                    assert(m.contains_key(keys@[i as int]@));
                    assert(!(m[keys@[i as int]@] is Bytes));
                }
                return Vec::new();
            },
        };
        let ghost before = args@;
        args.push((slice_to_vec(keys[i].as_slice()), slice_to_vec(bytes)));
        proof {
            assert(args@.drop_last() =~= before);
            let ki = keys@[i as int]@;
            assert(args_map(args@) == args_map(before).insert(ki, BenValue::Bytes(bytes@)));
            assert forall|k: Seq<u8>| args_map(args@).contains_key(k) implies exists|j: int|
                0 <= j < i + 1 && (#[trigger] keys@[j])@ == k by {
                if k == ki {
                    assert(keys@[i as int]@ == k);
                } else {
                    assert(args_map(before).contains_key(k));
                    let j = choose|j: int| 0 <= j < i && (#[trigger] keys@[j])@ == k;
                    assert(keys@[j]@ == k);
                }
            }
            assert forall|k: Seq<u8>|
                (exists|j: int| 0 <= j < i + 1 && (#[trigger] keys@[j])@ == k) implies args_map(
                args@,
            ).contains_key(k) by {
                let j = choose|j: int| 0 <= j < i + 1 && (#[trigger] keys@[j])@ == k;
                if j < i {
                    assert(args_map(before).contains_key(k));
                }
            }
        }
        i += 1;
    }
    proof {
        let v = ben_view(*a);
        match v {
            BenValue::Dict(m) => {
                assert forall|k: Seq<u8>| m.contains_key(k) implies args_map(args@).contains_key(
                    k,
                ) by {
                    assert(entry(v, k) is Some);
                    let j = choose|j: int| 0 <= j < keys@.len() && (#[trigger] keys@[j])@ == k;
                    assert(keys@[j]@ == k);
                }
                assert forall|k: Seq<u8>| #[trigger] m.contains_key(k) implies m[k] is Bytes by {
                    assert(args_map(args@).contains_key(k));
                }
                assert(args_map(args@) =~= m);
            },
            _ => {
                assert forall|k: Seq<u8>| !args_map(args@).contains_key(k) by {
                    if args_map(args@).contains_key(k) {
                        assert(entry(v, k) is Some);
                    }
                }
                assert(args_map(args@) =~= Map::empty());
            },
        }
    }
    args
}

impl Query {
    /// Reads a query out of a decoded value.
    pub fn from_bencode(b: &Bencode) -> (r: Result<Query, QueryError>)
        ensures
            match r {
                Ok(q) => query_from(ben_view(*b)) == Ok::<QueryView, QueryError>(q@),
                Err(e) => query_from(ben_view(*b)) == Err::<QueryView, QueryError>(e),
            },
    {
        proof {
            reveal_strlit("t");
            reveal_strlit("y");
            reveal_strlit("q");
            reveal_strlit("a");
        }
        if !is_dict(b) {
            return Err(QueryError::NotADict);
        }
        let a = match dict_get(b, lit("a")) {
            Some(a) => args_from_bencode(a),
            None => {
                return Err(QueryError::MissingArgs);
            },
        };
        let t = match dict_get(b, lit("t")) {
            Some(t) => bytes_or_empty(t),
            None => {
                return Err(QueryError::MissingTransaction);
            },
        };
        let y = match dict_get(b, lit("y")) {
            Some(y) => bytes_or_empty(y),
            None => {
                return Err(QueryError::MissingKind);
            },
        };
        let q = match dict_get(b, lit("q")) {
            Some(q) => bytes_or_empty(q),
            None => {
                return Err(QueryError::MissingName);
            },
        };
        Ok(Query { t, y, q, a })
    }
}

/// A query with the transaction id `tid`, the name `q` and a copy of the
/// arguments `a`.
pub fn make_query(tid: Vec<u8>, q: Vec<u8>, a: &Args) -> (query: Query)
    ensures
        query@ == (QueryView { t: tid@, y: ascii("q"@), q: q@, a: args_map(a@) }),
{
    proof {
        reveal_strlit("q");
    }
    Query { t: tid, y: slice_to_vec(lit("q")), q, a: copy_args(a) }
}

/// A reply with the transaction id `tid` and a copy of the results `r`.
pub fn make_reply(tid: Vec<u8>, r: &Args) -> (reply: Reply)
    ensures
        reply@ == (ReplyView { t: tid@, y: ascii("r"@), r: args_map(r@) }),
{
    proof {
        reveal_strlit("r");
    }
    Reply { t: tid, y: slice_to_vec(lit("r")), r: copy_args(r) }
}

} // verus!

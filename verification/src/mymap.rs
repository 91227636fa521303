//! A custom map type, decoded entry by entry through a generic visitor.
//!
//! `MyMap` keeps its entries in insertion order. [`MyMapVisitor`] is a
//! zero-sized visitor carrying only the generic key and value types; it
//! decodes a map shape by fetching one entry at a time -- key first, then
//! that key's value -- and inserting each into a fresh map.

use core::marker::PhantomData;
use vstd::prelude::*;

use crate::decode::Decode;
use crate::decoder::{advanced, Decoder};
use crate::token::{DecodeError, ErrKind, Shape, Token};
use crate::visitor::{any_err, any_ok, decode_any, Visitor};

verus! {

/// A map that keeps its key/value entries in insertion order.
#[derive(Debug, Clone, PartialEq, Eq)]
pub struct MyMap<K, V> {
    entries: Vec<(K, V)>,
}

impl<K, V> View for MyMap<K, V> {
    type V = Seq<(K, V)>;

    closed spec fn view(&self) -> Seq<(K, V)> {
        self.entries@
    }
}

impl<K, V> MyMap<K, V> {
    /// Creates an empty map with room for the given number of entries.
    pub fn with_capacity(cap: usize) -> (m: Self)
        ensures
            m@ == Seq::<(K, V)>::empty(),
    {
        MyMap { entries: Vec::with_capacity(cap) }
    }

    /// Appends a key/value entry to this map.
    pub fn insert(&mut self, k: K, v: V)
        ensures
            final(self)@ == old(self)@.push((k, v)),
    {
        self.entries.push((k, v));
    }

    /// Replaces the entry at a position.
    pub fn set_entry(&mut self, i: usize, k: K, v: V)
        requires
            i < old(self)@.len(),
        ensures
            final(self)@ == old(self)@.update(i as int, (k, v)),
    {
        self.entries.set(i, (k, v));
    }

    /// The number of entries.
    pub fn len(&self) -> (n: usize)
        ensures
            n == self@.len(),
    {
        self.entries.len()
    }

    /// The entries, in insertion order.
    pub fn items(&self) -> (v: &Vec<(K, V)>)
        ensures
            v@ == self@,
    {
        &self.entries
    }
}

/// The map-body parser: alternating whole keys and whole values up to the
/// closing token, accumulated in order.
pub open spec fn mymap_rec<K: Decode, V: Decode>(ts: Seq<Token>, acc: Seq<(K, V)>) -> (Result<
    Seq<(K, V)>,
    ErrKind,
>, int)
    decreases ts.len(),
{
    if ts.len() == 0 {
        (Err(ErrKind::Mismatch), 0)
    } else if ts[0] is MapEnd {
        (Ok(acc), 1)
    } else {
        let (rk, mk) = K::parse(ts);
        match rk {
            Err(k) => (Err(k), 0),
            Ok(key) => if 0 <= mk <= ts.len() {
                let (rv, mv) = V::parse(ts.skip(mk));
                match rv {
                    Err(k) => (Err(k), 0),
                    Ok(val) => if 0 <= mv && 1 <= mk + mv <= ts.len() {
                        let t = mymap_rec::<K, V>(ts.skip(mk + mv), acc.push((key, val)));
                        (t.0, mk + mv + t.1)
                    } else {
                        (Err(ErrKind::Mismatch), 0)
                    },
                }
            } else {
                (Err(ErrKind::Mismatch), 0)
            },
        }
    }
}

/// The whole decode of a `MyMap`: a map shape, entries in input order.
pub open spec fn mymap_parse<K: Decode, V: Decode>(ts: Seq<Token>) -> (Result<
    Seq<(K, V)>,
    ErrKind,
>, int) {
    if ts.len() == 0 {
        (Err(ErrKind::Mismatch), 0)
    } else {
        match ts[0] {
            Token::MapStart => {
                let t = mymap_rec::<K, V>(ts.skip(1), Seq::empty());
                (t.0, 1 + t.1)
            },
            _ => (Err(ErrKind::Mismatch), 0),
        }
    }
}

/// A zero-sized visitor that builds a `MyMap<K, V>` from a map shape. The
/// marker only carries the generic types; the visitor holds no state.
pub struct MyMapVisitor<K, V> {
    marker: PhantomData<(K, V)>,
}

impl<K, V> MyMapVisitor<K, V> {
    /// Creates the visitor.
    pub fn new() -> (s: Self)
        ensures
            true,
    {
        MyMapVisitor { marker: PhantomData }
    }
}

impl<K: Decode, V: Decode> Visitor for MyMapVisitor<K, V> {
    type Value = MyMap<K, V>;

    open spec fn bool_spec(self, b: bool) -> Result<MyMap<K, V>, ErrKind> {
        Err(ErrKind::Mismatch)
    }

    open spec fn int_spec(self, i: i128) -> Result<MyMap<K, V>, ErrKind> {
        Err(ErrKind::Mismatch)
    }

    open spec fn str_spec(self, s: String) -> Result<MyMap<K, V>, ErrKind> {
        Err(ErrKind::Mismatch)
    }

    open spec fn unit_spec(self) -> Result<MyMap<K, V>, ErrKind> {
        Err(ErrKind::Mismatch)
    }

    open spec fn seq_ok(self, ts: Seq<Token>, v: MyMap<K, V>, n: int) -> bool {
        false
    }

    open spec fn seq_err(self, ts: Seq<Token>, k: ErrKind) -> bool {
        k == ErrKind::Mismatch
    }

    open spec fn map_ok(self, ts: Seq<Token>, v: MyMap<K, V>, n: int) -> bool {
        mymap_rec::<K, V>(ts, Seq::empty()) == (Ok::<Seq<(K, V)>, ErrKind>(v@), n)
    }

    open spec fn map_err(self, ts: Seq<Token>, k: ErrKind) -> bool {
        mymap_rec::<K, V>(ts, Seq::empty()).0 == Err::<Seq<(K, V)>, ErrKind>(k)
    }

    open spec fn expecting_spec(self) -> Seq<char> {
        "a very special map"@
    }

    fn expecting(&self) -> (r: String) {
        "a very special map".to_owned()
    }

    fn visit_bool(self, b: bool) -> (r: Result<MyMap<K, V>, DecodeError>) {
        Err(DecodeError::ShapeMismatch { expected: self.expecting(), found: Shape::Bool })
    }

    fn visit_int(self, i: i128) -> (r: Result<MyMap<K, V>, DecodeError>) {
        Err(DecodeError::ShapeMismatch { expected: self.expecting(), found: Shape::Integer })
    }

    fn visit_str(self, s: String) -> (r: Result<MyMap<K, V>, DecodeError>) {
        Err(DecodeError::ShapeMismatch { expected: self.expecting(), found: Shape::Text })
    }

    fn visit_unit(self) -> (r: Result<MyMap<K, V>, DecodeError>) {
        Err(DecodeError::ShapeMismatch { expected: self.expecting(), found: Shape::Unit })
    }

    fn visit_seq(self, d: &mut Decoder) -> (r: Result<MyMap<K, V>, DecodeError>) {
        Err(DecodeError::ShapeMismatch { expected: self.expecting(), found: Shape::Sequence })
    }

    fn visit_map(self, d: &mut Decoder) -> (r: Result<MyMap<K, V>, DecodeError>) {
        let ghost orig = d.remaining();
        let ghost t0 = d.toks();
        let ghost p0 = d.pos_spec();
        let mut out: MyMap<K, V> = MyMap::with_capacity(0);
        loop
            invariant
                d.wf(),
                d.toks() == t0,
                t0 == old(d).toks(),
                p0 <= d.pos_spec(),
                0 <= p0,
                orig == t0.skip(p0),
                orig == old(d).remaining(),
                p0 == old(d).pos_spec(),
                mymap_rec::<K, V>(orig, Seq::empty()).0 == mymap_rec::<K, V>(
                    d.remaining(),
                    out@,
                ).0,
                mymap_rec::<K, V>(d.remaining(), out@).0 is Ok ==> mymap_rec::<K, V>(
                    orig,
                    Seq::empty(),
                ).1 == (d.pos_spec() - p0) + mymap_rec::<K, V>(d.remaining(), out@).1,
            decreases d.toks().len() - d.pos_spec(),
        {
            let ghost cur = d.remaining();
            let s = d.peek_shape();
            if matches!(s, Shape::MapClose) {
                d.advance();
                return Ok(out);
            }
            if matches!(s, Shape::Eof) {
                return Err(DecodeError::ShapeMismatch {
                    expected: self.expecting(),
                    found: Shape::Eof,
                });
            }
            let p_before = d.mark();
            let key = match K::decode(d) {
                Ok(k) => k,
                Err(e) => return Err(e),
            };
            let ghost mk = K::parse(cur).1;
            proof {
                assert(d.remaining() =~= cur.skip(mk));
            }
            let val = match V::decode(d) {
                Ok(v) => v,
                Err(e) => return Err(e),
            };
            let ghost mv = V::parse(cur.skip(mk)).1;
            proof {
                assert(d.remaining() =~= cur.skip(mk).skip(mv));
                assert(cur.skip(mk).skip(mv) =~= cur.skip(mk + mv));
            }
            if d.mark() == p_before {
                // A decode that consumed nothing would loop forever; no
                // decodable entry occupies zero tokens.
                return Err(DecodeError::ShapeMismatch {
                    expected: self.expecting(),
                    found: s,
                });
            }
            out.insert(key, val);
        }
    }
}

impl<K: Decode, V: Decode> MyMap<K, V> {
    /// Decodes a map shape into a `MyMap`, keeping the input's entry order.
    pub fn decode(d: &mut Decoder) -> (r: Result<MyMap<K, V>, DecodeError>)
        requires
            old(d).wf(),
        ensures
            advanced(*old(d), *final(d)),
            r matches Ok(m) ==> mymap_parse::<K, V>(old(d).remaining()).0 == Ok::<
                Seq<(K, V)>,
                ErrKind,
            >(m@) && final(d).pos_spec() == old(d).pos_spec() + mymap_parse::<K, V>(
                old(d).remaining(),
            ).1,
            r matches Err(e) ==> (mymap_parse::<K, V>(old(d).remaining()).0 matches Err(k)
                && e.kind() == k),
    {
        let ghost ts = d.remaining();
        let r = decode_any(d, MyMapVisitor::<K, V>::new());
        proof {
            if r is Ok {
                assert(any_ok(
                    MyMapVisitor::<K, V> { marker: PhantomData },
                    ts,
                    r->Ok_0,
                    d.pos_spec() - old(d).pos_spec(),
                ));
            }
            if r is Err {
                assert(any_err(
                    MyMapVisitor::<K, V> { marker: PhantomData },
                    ts,
                    r->Err_0.kind(),
                ));
            }
        }
        r
    }
}

} // verus!

//! Enum tag layouts: four interchangeable encodings of "which variant,
//! with what payload".
//!
//! A [`Message`] is either a request or a response, each a map-shaped
//! payload. Four layouts decode it: *external* (a one-key map whose key is
//! the variant name), *internal* (the payload's own map carries the tag
//! under `type`, read as the first entry), *adjacent* (a two-key map, `t`
//! for the tag and `c` for the content, the entries accepted in either
//! order), and *untagged* (each variant tried in declaration order, the
//! first success taken -- ambiguous inputs resolve to the earliest
//! matching variant, a deliberate order-dependence). The law
//! [`lemma_enum_layouts_agree`] proves that all four, each fed its own
//! canonical wire shape for the same logical value, decode to that value.

use vstd::prelude::*;

use crate::decoder::{advanced, parse_bool, parse_str, parse_u32, Decoder};
use crate::decode::parse_i32;
use crate::discard::{lemma_skip_len_bounds, skip_len, skip_value};
use crate::token::{str_eq, DecodeError, ErrKind, Shape, Token};

verus! {

/// Call parameters: two scalars and a sequence of small signed integers.
#[derive(Debug, Clone, PartialEq, Eq)]
pub struct Params {
    pub field_1: u32,
    pub field_2: bool,
    pub field_3: Vec<i32>,
}

impl Params {
    /// A stock set of parameters.
    pub fn new() -> (p: Params)
        ensures
            p.field_1 == 30u32,
            p.field_2 == false,
            p.field_3@ == seq![-4i32, -4i32, 0i32, 3i32],
    {
        let p = Params { field_1: 30, field_2: false, field_3: vec![-4, -4, 0, 3] };
        proof {
            assert(p.field_3@ =~= seq![-4i32, -4i32, 0i32, 3i32]);
        }
        p
    }
}

/// A response body: a flag and a text.
#[derive(Debug, Clone, PartialEq, Eq)]
pub struct Value {
    pub field_1: bool,
    pub field_2: String,
}

/// A message: a request carrying parameters, or a response carrying a
/// result value.
#[derive(Debug, Clone, PartialEq, Eq)]
pub enum Message {
    Request { id: String, method: String, params: Params },
    Response { id: String, result: Value },
}

/// What a request payload parses to.
pub type ReqT = (String, String, (u32, bool, Seq<i32>));

/// What a response payload parses to.
pub type RespT = (String, (bool, String));

/// What any message parses to: exactly one of the two payload forms.
pub type MsgT = (Option<ReqT>, Option<RespT>);

/// The parse output a message corresponds to.
pub open spec fn msg_out(m: Message) -> MsgT {
    match m {
        Message::Request { id, method, params } => (
            Some((id, method, (params.field_1, params.field_2, params.field_3@))),
            None,
        ),
        Message::Response { id, result } => (None, Some((id, (result.field_1, result.field_2)))),
    }
}

/// A decoded message matches a parse output.
pub open spec fn msg_model(m: Message, t: MsgT) -> bool {
    msg_out(m) == t
}

/// The element fold of a sequence of 32-bit signed integers.
pub open spec fn ints_rec(ts: Seq<Token>, acc: Seq<i32>) -> (Result<Seq<i32>, ErrKind>, int)
    decreases ts.len(),
{
    if ts.len() == 0 {
        (Err(ErrKind::Mismatch), 0)
    } else if ts[0] is SeqEnd {
        (Ok(acc), 1)
    } else {
        let (r, m) = parse_i32(ts);
        match r {
            Err(k) => (Err(k), 0),
            Ok(v) => if 1 <= m <= ts.len() {
                let t = ints_rec(ts.skip(m), acc.push(v));
                (t.0, m + t.1)
            } else {
                (Err(ErrKind::Mismatch), 0)
            },
        }
    }
}

/// The whole decode of a sequence of 32-bit signed integers.
pub open spec fn ints_parse(ts: Seq<Token>) -> (Result<Seq<i32>, ErrKind>, int) {
    if ts.len() == 0 {
        (Err(ErrKind::Mismatch), 0)
    } else {
        match ts[0] {
            Token::SeqStart => {
                let t = ints_rec(ts.skip(1), Seq::empty());
                (t.0, 1 + t.1)
            },
            _ => (Err(ErrKind::Mismatch), 0),
        }
    }
}

/// Decodes a sequence of 32-bit signed integers into a vector.
pub fn decode_vec_i32(d: &mut Decoder) -> (r: Result<Vec<i32>, DecodeError>)
    requires
        old(d).wf(),
    ensures
        advanced(*old(d), *final(d)),
        r matches Ok(v) ==> ints_parse(old(d).remaining()).0 == Ok::<Seq<i32>, ErrKind>(v@)
            && final(d).pos_spec() == old(d).pos_spec() + ints_parse(old(d).remaining()).1,
        r matches Err(e) ==> (ints_parse(old(d).remaining()).0 matches Err(k) && e.kind() == k),
{
    let ghost orig0 = d.remaining();
    let s = d.peek_shape();
    if !matches!(s, Shape::Sequence) {
        return Err(DecodeError::ShapeMismatch {
            expected: "a sequence of integers".to_owned(),
            found: s,
        });
    }
    d.advance();
    let ghost orig = d.remaining();
    proof {
        assert(orig =~= orig0.skip(1));
    }
    let ghost t0 = d.toks();
    let ghost p0 = d.pos_spec();
    let mut out: Vec<i32> = Vec::new();
    loop
        invariant
            d.wf(),
            d.toks() == t0,
            t0 == old(d).toks(),
            old(d).wf(),
            p0 <= d.pos_spec(),
            0 <= p0,
            orig == t0.skip(p0),
            orig0 == old(d).remaining(),
            orig0.len() > 0,
            orig0[0] is SeqStart,
            p0 == old(d).pos_spec() + 1,
            orig == orig0.skip(1),
            ints_rec(orig, Seq::empty()).0 == ints_rec(d.remaining(), out@).0,
            ints_rec(d.remaining(), out@).0 is Ok ==> ints_rec(orig, Seq::empty()).1 == (
            d.pos_spec() - p0) + ints_rec(d.remaining(), out@).1,
        decreases d.toks().len() - d.pos_spec(),
    {
        let ghost cur = d.remaining();
        let s = d.peek_shape();
        if matches!(s, Shape::SeqClose) {
            d.advance();
            return Ok(out);
        }
        let v = match <i32 as crate::decode::Decode>::decode(d) {
            Ok(v) => v,
            Err(e) => return Err(e),
        };
        proof {
            assert(d.remaining() =~= cur.skip(1));
        }
        out.push(v);
    }
}

/// The map-body parser for `Params`: three required fields, unknown keys
/// ignored through the discard path.
pub open spec fn params_entries(
    ts: Seq<Token>,
    a: Option<u32>,
    b: Option<bool>,
    c: Option<Seq<i32>>,
) -> (Result<(u32, bool, Seq<i32>), ErrKind>, int)
    decreases ts.len(),
{
    if ts.len() == 0 {
        (Err(ErrKind::Mismatch), 0)
    } else {
        match ts[0] {
            Token::MapEnd => match (a, b, c) {
                (Some(x), Some(y), Some(z)) => (Ok((x, y, z)), 1),
                (None, _, _) => (Err(ErrKind::Missing("field_1"@)), 0),
                (_, None, _) => (Err(ErrKind::Missing("field_2"@)), 0),
                _ => (Err(ErrKind::Missing("field_3"@)), 0),
            },
            Token::Str(k) => if k@ == "field_1"@ {
                if a is Some {
                    (Err(ErrKind::Duplicate(k@)), 0)
                } else {
                    let (r, m) = parse_u32(ts.skip(1));
                    match r {
                        Ok(v) => if 0 <= m <= ts.len() - 1 {
                            let t = params_entries(ts.skip(1 + m), Some(v), b, c);
                            (t.0, 1 + m + t.1)
                        } else {
                            (Err(ErrKind::Mismatch), 0)
                        },
                        Err(k2) => (Err(k2), 0),
                    }
                }
            } else if k@ == "field_2"@ {
                if b is Some {
                    (Err(ErrKind::Duplicate(k@)), 0)
                } else {
                    let (r, m) = parse_bool(ts.skip(1));
                    match r {
                        Ok(v) => if 0 <= m <= ts.len() - 1 {
                            let t = params_entries(ts.skip(1 + m), a, Some(v), c);
                            (t.0, 1 + m + t.1)
                        } else {
                            (Err(ErrKind::Mismatch), 0)
                        },
                        Err(k2) => (Err(k2), 0),
                    }
                }
            } else if k@ == "field_3"@ {
                if c is Some {
                    (Err(ErrKind::Duplicate(k@)), 0)
                } else {
                    let (r, m) = ints_parse(ts.skip(1));
                    match r {
                        Ok(v) => if 0 <= m <= ts.len() - 1 {
                            let t = params_entries(ts.skip(1 + m), a, b, Some(v));
                            (t.0, 1 + m + t.1)
                        } else {
                            (Err(ErrKind::Mismatch), 0)
                        },
                        Err(k2) => (Err(k2), 0),
                    }
                }
            } else {
                match skip_len(ts.skip(1)) {
                    Some(m) => if 1 <= m <= ts.len() - 1 {
                        let t = params_entries(ts.skip(1 + m), a, b, c);
                        (t.0, 1 + m + t.1)
                    } else {
                        (Err(ErrKind::Mismatch), 0)
                    },
                    None => (Err(ErrKind::Mismatch), 0),
                }
            },
            _ => (Err(ErrKind::Mismatch), 0),
        }
    }
}

/// The whole decode of a `Params`: a map shape.
pub open spec fn params_parse(ts: Seq<Token>) -> (Result<(u32, bool, Seq<i32>), ErrKind>, int) {
    if ts.len() == 0 {
        (Err(ErrKind::Mismatch), 0)
    } else {
        match ts[0] {
            Token::MapStart => {
                let t = params_entries(ts.skip(1), None, None, None);
                (t.0, 1 + t.1)
            },
            _ => (Err(ErrKind::Mismatch), 0),
        }
    }
}

/// The map-body parser for `Value`: two required fields, unknown keys
/// ignored.
pub open spec fn value_entries(ts: Seq<Token>, a: Option<bool>, b: Option<String>) -> (Result<
    (bool, String),
    ErrKind,
>, int)
    decreases ts.len(),
{
    if ts.len() == 0 {
        (Err(ErrKind::Mismatch), 0)
    } else {
        match ts[0] {
            Token::MapEnd => match (a, b) {
                (Some(x), Some(y)) => (Ok((x, y)), 1),
                (None, _) => (Err(ErrKind::Missing("field_1"@)), 0),
                _ => (Err(ErrKind::Missing("field_2"@)), 0),
            },
            Token::Str(k) => if k@ == "field_1"@ {
                if a is Some {
                    (Err(ErrKind::Duplicate(k@)), 0)
                } else {
                    let (r, m) = parse_bool(ts.skip(1));
                    match r {
                        Ok(v) => if 0 <= m <= ts.len() - 1 {
                            let t = value_entries(ts.skip(1 + m), Some(v), b);
                            (t.0, 1 + m + t.1)
                        } else {
                            (Err(ErrKind::Mismatch), 0)
                        },
                        Err(k2) => (Err(k2), 0),
                    }
                }
            } else if k@ == "field_2"@ {
                if b is Some {
                    (Err(ErrKind::Duplicate(k@)), 0)
                } else {
                    let (r, m) = parse_str(ts.skip(1));
                    match r {
                        Ok(v) => if 0 <= m <= ts.len() - 1 {
                            let t = value_entries(ts.skip(1 + m), a, Some(v));
                            (t.0, 1 + m + t.1)
                        } else {
                            (Err(ErrKind::Mismatch), 0)
                        },
                        Err(k2) => (Err(k2), 0),
                    }
                }
            } else {
                match skip_len(ts.skip(1)) {
                    Some(m) => if 1 <= m <= ts.len() - 1 {
                        let t = value_entries(ts.skip(1 + m), a, b);
                        (t.0, 1 + m + t.1)
                    } else {
                        (Err(ErrKind::Mismatch), 0)
                    },
                    None => (Err(ErrKind::Mismatch), 0),
                }
            },
            _ => (Err(ErrKind::Mismatch), 0),
        }
    }
}

/// The whole decode of a `Value`: a map shape.
pub open spec fn value_parse(ts: Seq<Token>) -> (Result<(bool, String), ErrKind>, int) {
    if ts.len() == 0 {
        (Err(ErrKind::Mismatch), 0)
    } else {
        match ts[0] {
            Token::MapStart => {
                let t = value_entries(ts.skip(1), None, None);
                (t.0, 1 + t.1)
            },
            _ => (Err(ErrKind::Mismatch), 0),
        }
    }
}

impl Params {
    /// Decodes a `Params`: a map with all three fields required.
    pub fn decode(d: &mut Decoder) -> (r: Result<Params, DecodeError>)
        requires
            old(d).wf(),
        ensures
            advanced(*old(d), *final(d)),
            r matches Ok(p) ==> params_parse(old(d).remaining()).0 == Ok::<
                (u32, bool, Seq<i32>),
                ErrKind,
            >((p.field_1, p.field_2, p.field_3@)) && final(d).pos_spec() == old(d).pos_spec()
                + params_parse(old(d).remaining()).1,
            r matches Err(e) ==> (params_parse(old(d).remaining()).0 matches Err(k) && e.kind()
                == k),
    {
        let ghost orig0 = d.remaining();
        let s = d.peek_shape();
        if !matches!(s, Shape::Mapping) {
            return Err(DecodeError::ShapeMismatch {
                expected: "struct Params".to_owned(),
                found: s,
            });
        }
        d.advance();
        let ghost orig = d.remaining();
        proof {
            assert(orig =~= orig0.skip(1));
        }
        let ghost t0 = d.toks();
        let ghost p0 = d.pos_spec();
        let mut a_val: Option<u32> = None;
        let mut b_val: Option<bool> = None;
        let mut c_val: Option<Vec<i32>> = None;
        loop
            invariant
                d.wf(),
                d.toks() == t0,
                t0 == old(d).toks(),
                old(d).wf(),
                p0 <= d.pos_spec(),
                0 <= p0,
                orig == t0.skip(p0),
                orig0 == old(d).remaining(),
                orig0.len() > 0,
                orig0[0] is MapStart,
                p0 == old(d).pos_spec() + 1,
                orig == orig0.skip(1),
                params_entries(orig, None, None, None).0 == params_entries(
                    d.remaining(),
                    a_val,
                    b_val,
                    opt_seq(c_val),
                ).0,
                params_entries(d.remaining(), a_val, b_val, opt_seq(c_val)).0 is Ok
                    ==> params_entries(orig, None, None, None).1 == (d.pos_spec() - p0)
                    + params_entries(d.remaining(), a_val, b_val, opt_seq(c_val)).1,
            decreases d.toks().len() - d.pos_spec(),
        {
            let ghost cur = d.remaining();
            let s = d.peek_shape();
            match s {
                Shape::MapClose => {
                    d.advance();
                    match (a_val, b_val, c_val) {
                        (Some(x), Some(y), Some(z)) => {
                            return Ok(Params { field_1: x, field_2: y, field_3: z });
                        },
                        (None, _, _) => {
                            return Err(
                                DecodeError::MissingField { field: "field_1".to_owned() },
                            );
                        },
                        (_, None, _) => {
                            return Err(
                                DecodeError::MissingField { field: "field_2".to_owned() },
                            );
                        },
                        _ => {
                            return Err(
                                DecodeError::MissingField { field: "field_3".to_owned() },
                            );
                        },
                    }
                },
                Shape::Text => {
                    let key = match d.decode_identifier() {
                        Ok(k) => k,
                        Err(e) => return Err(e),
                    };
                    proof {
                        assert(d.remaining() =~= cur.skip(1));
                    }
                    if str_eq(key.as_str(), "field_1") {
                        if a_val.is_some() {
                            return Err(DecodeError::DuplicateField { field: key });
                        }
                        let v = match d.decode_u32() {
                            Ok(v) => v,
                            Err(e) => return Err(e),
                        };
                        proof {
                            assert(d.remaining() =~= cur.skip(2));
                        }
                        a_val = Some(v);
                    } else if str_eq(key.as_str(), "field_2") {
                        if b_val.is_some() {
                            return Err(DecodeError::DuplicateField { field: key });
                        }
                        let v = match d.decode_bool() {
                            Ok(v) => v,
                            Err(e) => return Err(e),
                        };
                        proof {
                            assert(d.remaining() =~= cur.skip(2));
                        }
                        b_val = Some(v);
                    } else if str_eq(key.as_str(), "field_3") {
                        if c_val.is_some() {
                            return Err(DecodeError::DuplicateField { field: key });
                        }
                        let ghost before = d.remaining();
                        let v = match decode_vec_i32(d) {
                            Ok(v) => v,
                            Err(e) => return Err(e),
                        };
                        proof {
                            let m = ints_parse(before).1;
                            assert(d.remaining() =~= cur.skip(1).skip(m));
                            assert(cur.skip(1).skip(m) =~= cur.skip(1 + m));
                        }
                        c_val = Some(v);
                    } else {
                        match skip_value(d) {
                            Ok(()) => (),
                            Err(e) => return Err(e),
                        }
                        proof {
                            lemma_skip_len_bounds(cur.skip(1));
                            if skip_len(cur.skip(1)) is Some {
                                let m = skip_len(cur.skip(1))->Some_0;
                                assert(d.remaining() =~= cur.skip(1).skip(m));
                                assert(cur.skip(1).skip(m) =~= cur.skip(1 + m));
                            }
                        }
                    }
                },
                _ => {
                    return Err(DecodeError::ShapeMismatch {
                        expected: "struct Params".to_owned(),
                        found: s,
                    });
                },
            }
        }
    }
}

/// The sequence a decoded vector stands for, if one was seen yet.
pub open spec fn opt_seq(o: Option<Vec<i32>>) -> Option<Seq<i32>> {
    match o {
        Some(v) => Some(v@),
        None => None,
    }
}

impl Value {
    /// Decodes a `Value`: a map with both fields required.
    pub fn decode(d: &mut Decoder) -> (r: Result<Value, DecodeError>)
        requires
            old(d).wf(),
        ensures
            advanced(*old(d), *final(d)),
            r matches Ok(v) ==> value_parse(old(d).remaining()).0 == Ok::<
                (bool, String),
                ErrKind,
            >((v.field_1, v.field_2)) && final(d).pos_spec() == old(d).pos_spec() + value_parse(
                old(d).remaining(),
            ).1,
            r matches Err(e) ==> (value_parse(old(d).remaining()).0 matches Err(k) && e.kind()
                == k),
    {
        let ghost orig0 = d.remaining();
        let s = d.peek_shape();
        if !matches!(s, Shape::Mapping) {
            return Err(DecodeError::ShapeMismatch {
                expected: "struct Value".to_owned(),
                found: s,
            });
        }
        d.advance();
        let ghost orig = d.remaining();
        proof {
            assert(orig =~= orig0.skip(1));
        }
        let ghost t0 = d.toks();
        let ghost p0 = d.pos_spec();
        let mut a_val: Option<bool> = None;
        let mut b_val: Option<String> = None;
        loop
            invariant
                d.wf(),
                d.toks() == t0,
                t0 == old(d).toks(),
                old(d).wf(),
                p0 <= d.pos_spec(),
                0 <= p0,
                orig == t0.skip(p0),
                orig0 == old(d).remaining(),
                orig0.len() > 0,
                orig0[0] is MapStart,
                p0 == old(d).pos_spec() + 1,
                orig == orig0.skip(1),
                value_entries(orig, None, None).0 == value_entries(
                    d.remaining(),
                    a_val,
                    b_val,
                ).0,
                value_entries(d.remaining(), a_val, b_val).0 is Ok ==> value_entries(
                    orig,
                    None,
                    None,
                ).1 == (d.pos_spec() - p0) + value_entries(d.remaining(), a_val, b_val).1,
            decreases d.toks().len() - d.pos_spec(),
        {
            let ghost cur = d.remaining();
            let s = d.peek_shape();
            match s {
                Shape::MapClose => {
                    d.advance();
                    match (a_val, b_val) {
                        (Some(x), Some(y)) => {
                            return Ok(Value { field_1: x, field_2: y });
                        },
                        (None, _) => {
                            return Err(
                                DecodeError::MissingField { field: "field_1".to_owned() },
                            );
                        },
                        _ => {
                            return Err(
                                DecodeError::MissingField { field: "field_2".to_owned() },
                            );
                        },
                    }
                },
                Shape::Text => {
                    let key = match d.decode_identifier() {
                        Ok(k) => k,
                        Err(e) => return Err(e),
                    };
                    proof {
                        assert(d.remaining() =~= cur.skip(1));
                    }
                    if str_eq(key.as_str(), "field_1") {
                        if a_val.is_some() {
                            return Err(DecodeError::DuplicateField { field: key });
                        }
                        let v = match d.decode_bool() {
                            Ok(v) => v,
                            Err(e) => return Err(e),
                        };
                        proof {
                            assert(d.remaining() =~= cur.skip(2));
                        }
                        a_val = Some(v);
                    } else if str_eq(key.as_str(), "field_2") {
                        if b_val.is_some() {
                            return Err(DecodeError::DuplicateField { field: key });
                        }
                        let v = match d.decode_str() {
                            Ok(v) => v,
                            Err(e) => return Err(e),
                        };
                        proof {
                            assert(d.remaining() =~= cur.skip(2));
                        }
                        b_val = Some(v);
                    } else {
                        match skip_value(d) {
                            Ok(()) => (),
                            Err(e) => return Err(e),
                        }
                        proof {
                            lemma_skip_len_bounds(cur.skip(1));
                            if skip_len(cur.skip(1)) is Some {
                                let m = skip_len(cur.skip(1))->Some_0;
                                assert(d.remaining() =~= cur.skip(1).skip(m));
                                assert(cur.skip(1).skip(m) =~= cur.skip(1 + m));
                            }
                        }
                    }
                },
                _ => {
                    return Err(DecodeError::ShapeMismatch {
                        expected: "struct Value".to_owned(),
                        found: s,
                    });
                },
            }
        }
    }
}

/// The parse output a seen `Params` stands for, if one was seen yet.
pub open spec fn opt_params(o: Option<Params>) -> Option<(u32, bool, Seq<i32>)> {
    match o {
        Some(p) => Some((p.field_1, p.field_2, p.field_3@)),
        None => None,
    }
}

/// The map-body parser for a request payload: `id`, `method` and a nested
/// `params` map, all required, unknown keys ignored.
pub open spec fn req_fields(
    ts: Seq<Token>,
    io: Option<String>,
    mo: Option<String>,
    po: Option<(u32, bool, Seq<i32>)>,
) -> (Result<ReqT, ErrKind>, int)
    decreases ts.len(),
{
    if ts.len() == 0 {
        (Err(ErrKind::Mismatch), 0)
    } else {
        match ts[0] {
            Token::MapEnd => match (io, mo, po) {
                (Some(i), Some(m), Some(p)) => (Ok((i, m, p)), 1),
                (None, _, _) => (Err(ErrKind::Missing("id"@)), 0),
                (_, None, _) => (Err(ErrKind::Missing("method"@)), 0),
                _ => (Err(ErrKind::Missing("params"@)), 0),
            },
            Token::Str(k) => if k@ == "id"@ {
                if io is Some {
                    (Err(ErrKind::Duplicate(k@)), 0)
                } else {
                    let (r, m) = parse_str(ts.skip(1));
                    match r {
                        Ok(v) => if 0 <= m <= ts.len() - 1 {
                            let t = req_fields(ts.skip(1 + m), Some(v), mo, po);
                            (t.0, 1 + m + t.1)
                        } else {
                            (Err(ErrKind::Mismatch), 0)
                        },
                        Err(k2) => (Err(k2), 0),
                    }
                }
            } else if k@ == "method"@ {
                if mo is Some {
                    (Err(ErrKind::Duplicate(k@)), 0)
                } else {
                    let (r, m) = parse_str(ts.skip(1));
                    match r {
                        Ok(v) => if 0 <= m <= ts.len() - 1 {
                            let t = req_fields(ts.skip(1 + m), io, Some(v), po);
                            (t.0, 1 + m + t.1)
                        } else {
                            (Err(ErrKind::Mismatch), 0)
                        },
                        Err(k2) => (Err(k2), 0),
                    }
                }
            } else if k@ == "params"@ {
                if po is Some {
                    (Err(ErrKind::Duplicate(k@)), 0)
                } else {
                    let (r, m) = params_parse(ts.skip(1));
                    match r {
                        Ok(v) => if 0 <= m <= ts.len() - 1 {
                            let t = req_fields(ts.skip(1 + m), io, mo, Some(v));
                            (t.0, 1 + m + t.1)
                        } else {
                            (Err(ErrKind::Mismatch), 0)
                        },
                        Err(k2) => (Err(k2), 0),
                    }
                }
            } else {
                match skip_len(ts.skip(1)) {
                    Some(m) => if 1 <= m <= ts.len() - 1 {
                        let t = req_fields(ts.skip(1 + m), io, mo, po);
                        (t.0, 1 + m + t.1)
                    } else {
                        (Err(ErrKind::Mismatch), 0)
                    },
                    None => (Err(ErrKind::Mismatch), 0),
                }
            },
            _ => (Err(ErrKind::Mismatch), 0),
        }
    }
}

/// The parse output a seen `Value` stands for, if one was seen yet.
pub open spec fn opt_value(o: Option<Value>) -> Option<(bool, String)> {
    match o {
        Some(v) => Some((v.field_1, v.field_2)),
        None => None,
    }
}

/// The map-body parser for a response payload: `id` and a nested `result`
/// map, both required, unknown keys ignored.
pub open spec fn resp_fields(ts: Seq<Token>, io: Option<String>, ro: Option<(bool, String)>) -> (
    Result<RespT, ErrKind>,
    int,
)
    decreases ts.len(),
{
    if ts.len() == 0 {
        (Err(ErrKind::Mismatch), 0)
    } else {
        match ts[0] {
            Token::MapEnd => match (io, ro) {
                (Some(i), Some(v)) => (Ok((i, v)), 1),
                (None, _) => (Err(ErrKind::Missing("id"@)), 0),
                _ => (Err(ErrKind::Missing("result"@)), 0),
            },
            Token::Str(k) => if k@ == "id"@ {
                if io is Some {
                    (Err(ErrKind::Duplicate(k@)), 0)
                } else {
                    let (r, m) = parse_str(ts.skip(1));
                    match r {
                        Ok(v) => if 0 <= m <= ts.len() - 1 {
                            let t = resp_fields(ts.skip(1 + m), Some(v), ro);
                            (t.0, 1 + m + t.1)
                        } else {
                            (Err(ErrKind::Mismatch), 0)
                        },
                        Err(k2) => (Err(k2), 0),
                    }
                }
            } else if k@ == "result"@ {
                if ro is Some {
                    (Err(ErrKind::Duplicate(k@)), 0)
                } else {
                    let (r, m) = value_parse(ts.skip(1));
                    match r {
                        Ok(v) => if 0 <= m <= ts.len() - 1 {
                            let t = resp_fields(ts.skip(1 + m), io, Some(v));
                            (t.0, 1 + m + t.1)
                        } else {
                            (Err(ErrKind::Mismatch), 0)
                        },
                        Err(k2) => (Err(k2), 0),
                    }
                }
            } else {
                match skip_len(ts.skip(1)) {
                    Some(m) => if 1 <= m <= ts.len() - 1 {
                        let t = resp_fields(ts.skip(1 + m), io, ro);
                        (t.0, 1 + m + t.1)
                    } else {
                        (Err(ErrKind::Mismatch), 0)
                    },
                    None => (Err(ErrKind::Mismatch), 0),
                }
            },
            _ => (Err(ErrKind::Mismatch), 0),
        }
    }
}

/// A request payload: a map shape over [`req_fields`].
pub open spec fn req_payload_parse(ts: Seq<Token>) -> (Result<ReqT, ErrKind>, int) {
    if ts.len() == 0 {
        (Err(ErrKind::Mismatch), 0)
    } else {
        match ts[0] {
            Token::MapStart => {
                let t = req_fields(ts.skip(1), None, None, None);
                (t.0, 1 + t.1)
            },
            _ => (Err(ErrKind::Mismatch), 0),
        }
    }
}

/// A response payload: a map shape over [`resp_fields`].
pub open spec fn resp_payload_parse(ts: Seq<Token>) -> (Result<RespT, ErrKind>, int) {
    if ts.len() == 0 {
        (Err(ErrKind::Mismatch), 0)
    } else {
        match ts[0] {
            Token::MapStart => {
                let t = resp_fields(ts.skip(1), None, None);
                (t.0, 1 + t.1)
            },
            _ => (Err(ErrKind::Mismatch), 0),
        }
    }
}

/// Decodes the fields of a request payload, the opening token already
/// consumed, through the closing token.
fn decode_request_fields(d: &mut Decoder) -> (r: Result<Message, DecodeError>)
    requires
        old(d).wf(),
    ensures
        advanced(*old(d), *final(d)),
        match req_fields(old(d).remaining(), None, None, None).0 {
            Ok(t) => r matches Ok(m) && msg_out(m) == (Some(t), None::<RespT>),
            Err(k) => r matches Err(e) && e.kind() == k,
        },
        r is Ok ==> final(d).pos_spec() == old(d).pos_spec() + req_fields(
            old(d).remaining(),
            None,
            None,
            None,
        ).1,
{
    let ghost orig = d.remaining();
    let ghost t0 = d.toks();
    let ghost p0 = d.pos_spec();
    let mut id_val: Option<String> = None;
    let mut met_val: Option<String> = None;
    let mut par_val: Option<Params> = None;
    loop
        invariant
            d.wf(),
            d.toks() == t0,
            t0 == old(d).toks(),
            old(d).wf(),
            p0 <= d.pos_spec(),
            0 <= p0,
            orig == t0.skip(p0),
            orig == old(d).remaining(),
            p0 == old(d).pos_spec(),
            req_fields(orig, None, None, None).0 == req_fields(
                d.remaining(),
                id_val,
                met_val,
                opt_params(par_val),
            ).0,
            req_fields(d.remaining(), id_val, met_val, opt_params(par_val)).0 is Ok
                ==> req_fields(orig, None, None, None).1 == (d.pos_spec() - p0) + req_fields(
                d.remaining(),
                id_val,
                met_val,
                opt_params(par_val),
            ).1,
        decreases d.toks().len() - d.pos_spec(),
    {
        let ghost cur = d.remaining();
        let s = d.peek_shape();
        match s {
            Shape::MapClose => {
                d.advance();
                match (id_val, met_val, par_val) {
                    (Some(i), Some(m), Some(p)) => {
                        return Ok(Message::Request { id: i, method: m, params: p });
                    },
                    (None, _, _) => {
                        return Err(DecodeError::MissingField { field: "id".to_owned() });
                    },
                    (_, None, _) => {
                        return Err(DecodeError::MissingField { field: "method".to_owned() });
                    },
                    _ => {
                        return Err(DecodeError::MissingField { field: "params".to_owned() });
                    },
                }
            },
            Shape::Text => {
                let key = match d.decode_identifier() {
                    Ok(k) => k,
                    Err(e) => return Err(e),
                };
                proof {
                    assert(d.remaining() =~= cur.skip(1));
                }
                if str_eq(key.as_str(), "id") {
                    if id_val.is_some() {
                        return Err(DecodeError::DuplicateField { field: key });
                    }
                    let v = match d.decode_str() {
                        Ok(v) => v,
                        Err(e) => return Err(e),
                    };
                    proof {
                        assert(d.remaining() =~= cur.skip(2));
                    }
                    id_val = Some(v);
                } else if str_eq(key.as_str(), "method") {
                    if met_val.is_some() {
                        return Err(DecodeError::DuplicateField { field: key });
                    }
                    let v = match d.decode_str() {
                        Ok(v) => v,
                        Err(e) => return Err(e),
                    };
                    proof {
                        assert(d.remaining() =~= cur.skip(2));
                    }
                    met_val = Some(v);
                } else if str_eq(key.as_str(), "params") {
                    if par_val.is_some() {
                        return Err(DecodeError::DuplicateField { field: key });
                    }
                    let ghost before = d.remaining();
                    let v = match Params::decode(d) {
                        Ok(v) => v,
                        Err(e) => return Err(e),
                    };
                    proof {
                        let m = params_parse(before).1;
                        assert(d.remaining() =~= cur.skip(1).skip(m));
                        assert(cur.skip(1).skip(m) =~= cur.skip(1 + m));
                    }
                    par_val = Some(v);
                } else {
                    match skip_value(d) {
                        Ok(()) => (),
                        Err(e) => return Err(e),
                    }
                    proof {
                        lemma_skip_len_bounds(cur.skip(1));
                        if skip_len(cur.skip(1)) is Some {
                            let m = skip_len(cur.skip(1))->Some_0;
                            assert(d.remaining() =~= cur.skip(1).skip(m));
                            assert(cur.skip(1).skip(m) =~= cur.skip(1 + m));
                        }
                    }
                }
            },
            _ => {
                return Err(DecodeError::ShapeMismatch {
                    expected: "a request payload".to_owned(),
                    found: s,
                });
            },
        }
    }
}

/// Decodes the fields of a response payload, the opening token already
/// consumed, through the closing token.
fn decode_response_fields(d: &mut Decoder) -> (r: Result<Message, DecodeError>)
    requires
        old(d).wf(),
    ensures
        advanced(*old(d), *final(d)),
        match resp_fields(old(d).remaining(), None, None).0 {
            Ok(t) => r matches Ok(m) && msg_out(m) == (None::<ReqT>, Some(t)),
            Err(k) => r matches Err(e) && e.kind() == k,
        },
        r is Ok ==> final(d).pos_spec() == old(d).pos_spec() + resp_fields(
            old(d).remaining(),
            None,
            None,
        ).1,
{
    let ghost orig = d.remaining();
    let ghost t0 = d.toks();
    let ghost p0 = d.pos_spec();
    let mut id_val: Option<String> = None;
    let mut res_val: Option<Value> = None;
    loop
        invariant
            d.wf(),
            d.toks() == t0,
            t0 == old(d).toks(),
            old(d).wf(),
            p0 <= d.pos_spec(),
            0 <= p0,
            orig == t0.skip(p0),
            orig == old(d).remaining(),
            p0 == old(d).pos_spec(),
            resp_fields(orig, None, None).0 == resp_fields(
                d.remaining(),
                id_val,
                opt_value(res_val),
            ).0,
            resp_fields(d.remaining(), id_val, opt_value(res_val)).0 is Ok ==> resp_fields(
                orig,
                None,
                None,
            ).1 == (d.pos_spec() - p0) + resp_fields(
                d.remaining(),
                id_val,
                opt_value(res_val),
            ).1,
        decreases d.toks().len() - d.pos_spec(),
    {
        let ghost cur = d.remaining();
        let s = d.peek_shape();
        match s {
            Shape::MapClose => {
                d.advance();
                match (id_val, res_val) {
                    (Some(i), Some(v)) => {
                        return Ok(Message::Response { id: i, result: v });
                    },
                    (None, _) => {
                        return Err(DecodeError::MissingField { field: "id".to_owned() });
                    },
                    _ => {
                        return Err(DecodeError::MissingField { field: "result".to_owned() });
                    },
                }
            },
            Shape::Text => {
                let key = match d.decode_identifier() {
                    Ok(k) => k,
                    Err(e) => return Err(e),
                };
                proof {
                    assert(d.remaining() =~= cur.skip(1));
                }
                if str_eq(key.as_str(), "id") {
                    if id_val.is_some() {
                        return Err(DecodeError::DuplicateField { field: key });
                    }
                    let v = match d.decode_str() {
                        Ok(v) => v,
                        Err(e) => return Err(e),
                    };
                    proof {
                        assert(d.remaining() =~= cur.skip(2));
                    }
                    id_val = Some(v);
                } else if str_eq(key.as_str(), "result") {
                    if res_val.is_some() {
                        return Err(DecodeError::DuplicateField { field: key });
                    }
                    let ghost before = d.remaining();
                    let v = match Value::decode(d) {
                        Ok(v) => v,
                        Err(e) => return Err(e),
                    };
                    proof {
                        let m = value_parse(before).1;
                        assert(d.remaining() =~= cur.skip(1).skip(m));
                        assert(cur.skip(1).skip(m) =~= cur.skip(1 + m));
                    }
                    res_val = Some(v);
                } else {
                    match skip_value(d) {
                        Ok(()) => (),
                        Err(e) => return Err(e),
                    }
                    proof {
                        lemma_skip_len_bounds(cur.skip(1));
                        if skip_len(cur.skip(1)) is Some {
                            let m = skip_len(cur.skip(1))->Some_0;
                            assert(d.remaining() =~= cur.skip(1).skip(m));
                            assert(cur.skip(1).skip(m) =~= cur.skip(1 + m));
                        }
                    }
                }
            },
            _ => {
                return Err(DecodeError::ShapeMismatch {
                    expected: "a response payload".to_owned(),
                    found: s,
                });
            },
        }
    }
}

/// Decodes a whole request payload: a map shape.
fn decode_request_payload(d: &mut Decoder) -> (r: Result<Message, DecodeError>)
    requires
        old(d).wf(),
    ensures
        advanced(*old(d), *final(d)),
        match req_payload_parse(old(d).remaining()).0 {
            Ok(t) => r matches Ok(m) && msg_out(m) == (Some(t), None::<RespT>),
            Err(k) => r matches Err(e) && e.kind() == k,
        },
        r is Ok ==> final(d).pos_spec() == old(d).pos_spec() + req_payload_parse(
            old(d).remaining(),
        ).1,
{
    let ghost orig = d.remaining();
    let s = d.peek_shape();
    if !matches!(s, Shape::Mapping) {
        return Err(DecodeError::ShapeMismatch {
            expected: "a request payload".to_owned(),
            found: s,
        });
    }
    d.advance();
    proof {
        assert(d.remaining() =~= orig.skip(1));
    }
    decode_request_fields(d)
}

/// Decodes a whole response payload: a map shape.
fn decode_response_payload(d: &mut Decoder) -> (r: Result<Message, DecodeError>)
    requires
        old(d).wf(),
    ensures
        advanced(*old(d), *final(d)),
        match resp_payload_parse(old(d).remaining()).0 {
            Ok(t) => r matches Ok(m) && msg_out(m) == (None::<ReqT>, Some(t)),
            Err(k) => r matches Err(e) && e.kind() == k,
        },
        r is Ok ==> final(d).pos_spec() == old(d).pos_spec() + resp_payload_parse(
            old(d).remaining(),
        ).1,
{
    let ghost orig = d.remaining();
    let s = d.peek_shape();
    if !matches!(s, Shape::Mapping) {
        return Err(DecodeError::ShapeMismatch {
            expected: "a response payload".to_owned(),
            found: s,
        });
    }
    d.advance();
    proof {
        assert(d.remaining() =~= orig.skip(1));
    }
    decode_response_fields(d)
}

/// The external layout: a one-key map whose key is the variant name and
/// whose value is the payload.
pub open spec fn external_parse(ts: Seq<Token>) -> (Result<MsgT, ErrKind>, int) {
    if ts.len() < 2 || !(ts[0] is MapStart) {
        (Err(ErrKind::Mismatch), 0)
    } else {
        match ts[1] {
            Token::Str(name) => if name@ == "Request"@ {
                let (r, m) = req_payload_parse(ts.skip(2));
                match r {
                    Ok(t) => if 0 <= m && 2 + m < ts.len() && ts[2 + m] is MapEnd {
                        (Ok((Some(t), None)), 3 + m)
                    } else {
                        (Err(ErrKind::Mismatch), 0)
                    },
                    Err(k) => (Err(k), 0),
                }
            } else if name@ == "Response"@ {
                let (r, m) = resp_payload_parse(ts.skip(2));
                match r {
                    Ok(t) => if 0 <= m && 2 + m < ts.len() && ts[2 + m] is MapEnd {
                        (Ok((None, Some(t))), 3 + m)
                    } else {
                        (Err(ErrKind::Mismatch), 0)
                    },
                    Err(k) => (Err(k), 0),
                }
            } else {
                (Err(ErrKind::Custom), 0)
            },
            _ => (Err(ErrKind::Mismatch), 0),
        }
    }
}

/// The internal layout: the payload's own map carries the variant name
/// under the tag key `type`, read as the first entry; the variant's fields
/// follow in the same map.
pub open spec fn internal_parse(ts: Seq<Token>) -> (Result<MsgT, ErrKind>, int) {
    if ts.len() < 3 || !(ts[0] is MapStart) {
        (Err(ErrKind::Mismatch), 0)
    } else {
        match ts[1] {
            Token::Str(k1) => if k1@ == "type"@ {
                match ts[2] {
                    Token::Str(name) => if name@ == "Request"@ {
                        let (r, m) = req_fields(ts.skip(3), None, None, None);
                        match r {
                            Ok(t) => (Ok((Some(t), None)), 3 + m),
                            Err(k) => (Err(k), 0),
                        }
                    } else if name@ == "Response"@ {
                        let (r, m) = resp_fields(ts.skip(3), None, None);
                        match r {
                            Ok(t) => (Ok((None, Some(t))), 3 + m),
                            Err(k) => (Err(k), 0),
                        }
                    } else {
                        (Err(ErrKind::Custom), 0)
                    },
                    _ => (Err(ErrKind::Mismatch), 0),
                }
            } else {
                (Err(ErrKind::Mismatch), 0)
            },
            _ => (Err(ErrKind::Mismatch), 0),
        }
    }
}

/// The adjacent layout: a two-key map, tag under `t` and content under
/// `c`, the two entries accepted in either order. With the content first,
/// the tag is found by skipping over the content, and the content region is
/// then re-read with the tag known.
pub open spec fn adjacent_parse(ts: Seq<Token>) -> (Result<MsgT, ErrKind>, int) {
    if ts.len() < 2 || !(ts[0] is MapStart) {
        (Err(ErrKind::Mismatch), 0)
    } else {
        match ts[1] {
            Token::Str(k1) => if k1@ == "t"@ {
                if ts.len() < 4 {
                    (Err(ErrKind::Mismatch), 0)
                } else {
                    match (ts[2], ts[3]) {
                        (Token::Str(name), Token::Str(k2)) => if k2@ == "c"@ {
                            adjacent_content(ts, name@, 4)
                        } else {
                            (Err(ErrKind::Mismatch), 0)
                        },
                        _ => (Err(ErrKind::Mismatch), 0),
                    }
                }
            } else if k1@ == "c"@ {
                let t = adj_content_first(ts.skip(2));
                (t.0, 2 + t.1)
            } else {
                (Err(ErrKind::Mismatch), 0)
            },
            _ => (Err(ErrKind::Mismatch), 0),
        }
    }
}

/// The content of an adjacent layout with the tag already read, the
/// content value starting at `at`, the closing token right after it.
pub open spec fn adjacent_content(ts: Seq<Token>, name: Seq<char>, at: int) -> (Result<
    MsgT,
    ErrKind,
>, int) {
    if name == "Request"@ {
        let (r, m) = req_payload_parse(ts.skip(at));
        match r {
            Ok(t) => if 0 <= m && at + m < ts.len() && ts[at + m] is MapEnd {
                (Ok((Some(t), None)), at + m + 1)
            } else {
                (Err(ErrKind::Mismatch), 0)
            },
            Err(k) => (Err(k), 0),
        }
    } else if name == "Response"@ {
        let (r, m) = resp_payload_parse(ts.skip(at));
        match r {
            Ok(t) => if 0 <= m && at + m < ts.len() && ts[at + m] is MapEnd {
                (Ok((None, Some(t))), at + m + 1)
            } else {
                (Err(ErrKind::Mismatch), 0)
            },
            Err(k) => (Err(k), 0),
        }
    } else {
        (Err(ErrKind::Custom), 0)
    }
}

/// The content-first adjacent layout, seen from the content value: the
/// content is skipped to find the tag, then re-read with the tag known,
/// and the tag entry and closing token are checked past the content.
pub open spec fn adj_content_first(ts: Seq<Token>) -> (Result<MsgT, ErrKind>, int) {
    match skip_len(ts) {
        None => (Err(ErrKind::Mismatch), 0),
        Some(m) => if 1 <= m <= ts.len() {
            if m < ts.len() && ts[m] is Str {
                if ts[m]->Str_0@ == "t"@ {
                    if m + 1 < ts.len() && ts[m + 1] is Str {
                        adj_cf_content(ts, ts[m + 1]->Str_0@)
                    } else {
                        (Err(ErrKind::Mismatch), 0)
                    }
                } else {
                    (Err(ErrKind::Mismatch), 0)
                }
            } else {
                (Err(ErrKind::Mismatch), 0)
            }
        } else {
            (Err(ErrKind::Mismatch), 0)
        },
    }
}

/// The re-read of the content with the tag known, then the tag entry and
/// the closing token once more.
pub open spec fn adj_cf_content(ts: Seq<Token>, name: Seq<char>) -> (Result<MsgT, ErrKind>, int) {
    if name == "Request"@ {
        let (r, m2) = req_payload_parse(ts);
        match r {
            Ok(t) => if 0 <= m2 && m2 + 2 < ts.len() && (ts[m2] matches Token::Str(k) && k@
                == "t"@) && ts[m2 + 1] is Str && ts[m2 + 2] is MapEnd {
                (Ok((Some(t), None)), m2 + 3)
            } else {
                (Err(ErrKind::Mismatch), 0)
            },
            Err(k) => (Err(k), 0),
        }
    } else if name == "Response"@ {
        let (r, m2) = resp_payload_parse(ts);
        match r {
            Ok(t) => if 0 <= m2 && m2 + 2 < ts.len() && (ts[m2] matches Token::Str(k) && k@
                == "t"@) && ts[m2 + 1] is Str && ts[m2 + 2] is MapEnd {
                (Ok((None, Some(t))), m2 + 3)
            } else {
                (Err(ErrKind::Mismatch), 0)
            },
            Err(k) => (Err(k), 0),
        }
    } else {
        (Err(ErrKind::Custom), 0)
    }
}

/// The untagged layout: each variant's structural decode is attempted in
/// declaration order and the first success is taken, so an input matching
/// several variants resolves to the earliest -- a deliberate, documented
/// order-dependence.
pub open spec fn untagged_parse(ts: Seq<Token>) -> (Result<MsgT, ErrKind>, int) {
    let (r1, m1) = req_payload_parse(ts);
    match r1 {
        Ok(t) => (Ok((Some(t), None)), m1),
        Err(_) => {
            let (r2, m2) = resp_payload_parse(ts);
            match r2 {
                Ok(t) => (Ok((None, Some(t))), m2),
                Err(_) => (Err(ErrKind::Custom), 0),
            }
        },
    }
}

/// The content-first adjacent path: skip the content to find the tag,
/// rewind, re-read the content with the tag known, then pass the tag entry
/// and the closing token.
fn decode_content_first(d: &mut Decoder) -> (r: Result<Message, DecodeError>)
    requires
        old(d).wf(),
    ensures
        advanced(*old(d), *final(d)),
        match adj_content_first(old(d).remaining()).0 {
            Ok(t) => r matches Ok(m) && msg_model(m, t),
            Err(k) => r matches Err(e) && e.kind() == k,
        },
        r is Ok ==> final(d).pos_spec() == old(d).pos_spec() + adj_content_first(
            old(d).remaining(),
        ).1,
{
    let ghost orig = d.remaining();
    let p = d.mark();
    match skip_value(d) {
        Ok(()) => (),
        Err(e) => return Err(e),
    }
    let ghost m = skip_len(orig)->Some_0;
    proof {
        lemma_skip_len_bounds(orig);
        assert(d.remaining() =~= orig.skip(m));
    }
    let k2 = match d.decode_identifier() {
        Ok(n) => n,
        Err(e) => return Err(e),
    };
    proof {
        assert(orig.skip(m)[0] == orig[m]);
        assert(d.remaining() =~= orig.skip(m + 1));
    }
    if !str_eq(k2.as_str(), "t") {
        return Err(DecodeError::ShapeMismatch {
            expected: "the tag entry".to_owned(),
            found: Shape::Text,
        });
    }
    let name = match d.decode_identifier() {
        Ok(n) => n,
        Err(e) => return Err(e),
    };
    proof {
        assert(orig.skip(m + 1)[0] == orig[m + 1]);
    }
    d.rewind(p);
    proof {
        assert(d.remaining() =~= orig);
    }
    let msg = if str_eq(name.as_str(), "Request") {
        match decode_request_payload(d) {
            Ok(v) => v,
            Err(e) => return Err(e),
        }
    } else if str_eq(name.as_str(), "Response") {
        match decode_response_payload(d) {
            Ok(v) => v,
            Err(e) => return Err(e),
        }
    } else {
        return Err(DecodeError::Custom { message: "unknown variant name".to_owned() });
    };
    let ghost m2 = d.pos_spec() - old(d).pos_spec();
    proof {
        assert(d.remaining() =~= orig.skip(m2));
    }
    let k3 = match d.decode_identifier() {
        Ok(n) => n,
        Err(e) => return Err(e),
    };
    proof {
        assert(orig.skip(m2)[0] == orig[m2]);
        assert(d.remaining() =~= orig.skip(m2 + 1));
    }
    if !str_eq(k3.as_str(), "t") {
        return Err(DecodeError::ShapeMismatch {
            expected: "the tag entry".to_owned(),
            found: Shape::Text,
        });
    }
    let _name_again = match d.decode_identifier() {
        Ok(n) => n,
        Err(e) => return Err(e),
    };
    proof {
        assert(orig.skip(m2 + 1)[0] == orig[m2 + 1]);
        assert(d.remaining() =~= orig.skip(m2 + 2));
    }
    let s2 = d.peek_shape();
    if !matches!(s2, Shape::MapClose) {
        return Err(DecodeError::ShapeMismatch {
            expected: "the end of the tagged map".to_owned(),
            found: s2,
        });
    }
    proof {
        assert(orig.skip(m2 + 2)[0] == orig[m2 + 2]);
    }
    d.advance();
    Ok(msg)
}

impl Message {
    /// Decodes the external layout: `{"Request": {...}}`.
    pub fn decode_external(d: &mut Decoder) -> (r: Result<Message, DecodeError>)
        requires
            old(d).wf(),
        ensures
            advanced(*old(d), *final(d)),
            match external_parse(old(d).remaining()).0 {
                Ok(t) => r matches Ok(m) && msg_model(m, t),
                Err(k) => r matches Err(e) && e.kind() == k,
            },
            r is Ok ==> final(d).pos_spec() == old(d).pos_spec() + external_parse(
                old(d).remaining(),
            ).1,
    {
        let ghost orig = d.remaining();
        let s = d.peek_shape();
        if !matches!(s, Shape::Mapping) {
            return Err(DecodeError::ShapeMismatch {
                expected: "an externally tagged enum".to_owned(),
                found: s,
            });
        }
        d.advance();
        proof {
            assert(d.remaining() =~= orig.skip(1));
        }
        let name = match d.decode_identifier() {
            Ok(n) => n,
            Err(e) => return Err(e),
        };
        proof {
            assert(orig.skip(1)[0] == orig[1]);
            assert(d.remaining() =~= orig.skip(2));
        }
        let msg = if str_eq(name.as_str(), "Request") {
            match decode_request_payload(d) {
                Ok(m) => m,
                Err(e) => return Err(e),
            }
        } else if str_eq(name.as_str(), "Response") {
            match decode_response_payload(d) {
                Ok(m) => m,
                Err(e) => return Err(e),
            }
        } else {
            return Err(DecodeError::Custom { message: "unknown variant name".to_owned() });
        };
        let s2 = d.peek_shape();
        if !matches!(s2, Shape::MapClose) {
            return Err(DecodeError::ShapeMismatch {
                expected: "the end of the variant map".to_owned(),
                found: s2,
            });
        }
        proof {
            assert(d.remaining()[0] == orig[d.pos_spec() - old(d).pos_spec()]);
        }
        d.advance();
        Ok(msg)
    }

    /// Decodes the internal layout: `{"type": "Request", ...fields}`, the
    /// tag read as the first entry of the payload's own map.
    pub fn decode_internal(d: &mut Decoder) -> (r: Result<Message, DecodeError>)
        requires
            old(d).wf(),
        ensures
            advanced(*old(d), *final(d)),
            match internal_parse(old(d).remaining()).0 {
                Ok(t) => r matches Ok(m) && msg_model(m, t),
                Err(k) => r matches Err(e) && e.kind() == k,
            },
            r is Ok ==> final(d).pos_spec() == old(d).pos_spec() + internal_parse(
                old(d).remaining(),
            ).1,
    {
        let ghost orig = d.remaining();
        let s = d.peek_shape();
        if !matches!(s, Shape::Mapping) {
            return Err(DecodeError::ShapeMismatch {
                expected: "an internally tagged enum".to_owned(),
                found: s,
            });
        }
        d.advance();
        proof {
            assert(d.remaining() =~= orig.skip(1));
        }
        let k1 = match d.decode_identifier() {
            Ok(n) => n,
            Err(e) => return Err(e),
        };
        proof {
            assert(orig.skip(1)[0] == orig[1]);
            assert(d.remaining() =~= orig.skip(2));
        }
        if !str_eq(k1.as_str(), "type") {
            return Err(DecodeError::ShapeMismatch {
                expected: "the variant tag as the first entry".to_owned(),
                found: Shape::Text,
            });
        }
        let name = match d.decode_identifier() {
            Ok(n) => n,
            Err(e) => return Err(e),
        };
        proof {
            assert(orig.skip(2)[0] == orig[2]);
            assert(d.remaining() =~= orig.skip(3));
        }
        if str_eq(name.as_str(), "Request") {
            decode_request_fields(d)
        } else if str_eq(name.as_str(), "Response") {
            decode_response_fields(d)
        } else {
            Err(DecodeError::Custom { message: "unknown variant name".to_owned() })
        }
    }

    /// Decodes the adjacent layout: `{"t": name, "c": payload}`, the two
    /// entries in either order.
    pub fn decode_adjacent(d: &mut Decoder) -> (r: Result<Message, DecodeError>)
        requires
            old(d).wf(),
        ensures
            advanced(*old(d), *final(d)),
            match adjacent_parse(old(d).remaining()).0 {
                Ok(t) => r matches Ok(m) && msg_model(m, t),
                Err(k) => r matches Err(e) && e.kind() == k,
            },
            r is Ok ==> final(d).pos_spec() == old(d).pos_spec() + adjacent_parse(
                old(d).remaining(),
            ).1,
    {
        let ghost orig = d.remaining();
        let s = d.peek_shape();
        if !matches!(s, Shape::Mapping) {
            return Err(DecodeError::ShapeMismatch {
                expected: "an adjacently tagged enum".to_owned(),
                found: s,
            });
        }
        d.advance();
        proof {
            assert(d.remaining() =~= orig.skip(1));
        }
        let k1 = match d.decode_identifier() {
            Ok(n) => n,
            Err(e) => return Err(e),
        };
        proof {
            assert(orig.skip(1)[0] == orig[1]);
            assert(d.remaining() =~= orig.skip(2));
        }
        if str_eq(k1.as_str(), "t") {
            let name = match d.decode_identifier() {
                Ok(n) => n,
                Err(e) => return Err(e),
            };
            proof {
                assert(orig.skip(2)[0] == orig[2]);
                assert(d.remaining() =~= orig.skip(3));
            }
            let k2 = match d.decode_identifier() {
                Ok(n) => n,
                Err(e) => return Err(e),
            };
            proof {
                assert(orig.skip(3)[0] == orig[3]);
                assert(d.remaining() =~= orig.skip(4));
            }
            if !str_eq(k2.as_str(), "c") {
                return Err(DecodeError::ShapeMismatch {
                    expected: "the content entry".to_owned(),
                    found: Shape::Text,
                });
            }
            let msg = if str_eq(name.as_str(), "Request") {
                match decode_request_payload(d) {
                    Ok(m) => m,
                    Err(e) => return Err(e),
                }
            } else if str_eq(name.as_str(), "Response") {
                match decode_response_payload(d) {
                    Ok(m) => m,
                    Err(e) => return Err(e),
                }
            } else {
                return Err(DecodeError::Custom { message: "unknown variant name".to_owned() });
            };
            let s2 = d.peek_shape();
            if !matches!(s2, Shape::MapClose) {
                return Err(DecodeError::ShapeMismatch {
                    expected: "the end of the tagged map".to_owned(),
                    found: s2,
                });
            }
            proof {
                assert(d.remaining()[0] == orig[d.pos_spec() - old(d).pos_spec()]);
            }
            d.advance();
            Ok(msg)
        } else if str_eq(k1.as_str(), "c") {
            let ghost before = d.remaining();
            let r = decode_content_first(d);
            proof {
                if r is Ok {
                    assert(before =~= orig.skip(2));
                }
            }
            r
        } else {
            Err(DecodeError::ShapeMismatch {
                expected: "a tag or content entry".to_owned(),
                found: Shape::Text,
            })
        }
    }

    /// Decodes the untagged layout: each variant is tried in declaration
    /// order from the same position, and the first success is taken.
    pub fn decode_untagged(d: &mut Decoder) -> (r: Result<Message, DecodeError>)
        requires
            old(d).wf(),
        ensures
            advanced(*old(d), *final(d)),
            match untagged_parse(old(d).remaining()).0 {
                Ok(t) => r matches Ok(m) && msg_model(m, t),
                Err(k) => r matches Err(e) && e.kind() == k,
            },
            r is Ok ==> final(d).pos_spec() == old(d).pos_spec() + untagged_parse(
                old(d).remaining(),
            ).1,
    {
        let ghost orig = d.remaining();
        let p = d.mark();
        match decode_request_payload(d) {
            Ok(m) => Ok(m),
            Err(_) => {
                d.rewind(p);
                proof {
                    assert(d.remaining() =~= orig);
                }
                match decode_response_payload(d) {
                    Ok(m) => Ok(m),
                    Err(_) => {
                        d.rewind(p);
                        Err(DecodeError::Custom {
                            message: "data did not match any variant".to_owned(),
                        })
                    },
                }
            },
        }
    }
}

/// The canonical map-shape encoding of a `Params`.
pub open spec fn params_encoding(p: Params, ts: Seq<Token>) -> bool {
    let l = p.field_3@.len() as int;
    &&& ts.len() == 9 + l
    &&& ts[0] is MapStart
    &&& (ts[1] matches Token::Str(k) && k@ == "field_1"@)
    &&& ts[2] == Token::Int(p.field_1 as i128)
    &&& (ts[3] matches Token::Str(k) && k@ == "field_2"@)
    &&& ts[4] == Token::Bool(p.field_2)
    &&& (ts[5] matches Token::Str(k) && k@ == "field_3"@)
    &&& ts[6] is SeqStart
    &&& (forall|i: int| 0 <= i < l ==> ts[7 + i] == Token::Int(p.field_3@[i] as i128))
    &&& ts[7 + l] is SeqEnd
    &&& ts[8 + l] is MapEnd
}

/// The canonical map-shape encoding of a `Value`.
pub open spec fn value_encoding(v: Value, ts: Seq<Token>) -> bool {
    &&& ts.len() == 6
    &&& ts[0] is MapStart
    &&& (ts[1] matches Token::Str(k) && k@ == "field_1"@)
    &&& ts[2] == Token::Bool(v.field_1)
    &&& (ts[3] matches Token::Str(k) && k@ == "field_2"@)
    &&& ts[4] == Token::Str(v.field_2)
    &&& ts[5] is MapEnd
}

/// The canonical encoding of a request payload.
pub open spec fn req_payload_encoding(id: String, method: String, p: Params, ts: Seq<Token>) -> bool {
    let l = p.field_3@.len() as int;
    &&& ts.len() == 16 + l
    &&& ts[0] is MapStart
    &&& (ts[1] matches Token::Str(k) && k@ == "id"@)
    &&& ts[2] == Token::Str(id)
    &&& (ts[3] matches Token::Str(k) && k@ == "method"@)
    &&& ts[4] == Token::Str(method)
    &&& (ts[5] matches Token::Str(k) && k@ == "params"@)
    &&& params_encoding(p, ts.subrange(6, 15 + l))
    &&& ts[15 + l] is MapEnd
}

/// The canonical encoding of a response payload.
pub open spec fn resp_payload_encoding(id: String, v: Value, ts: Seq<Token>) -> bool {
    &&& ts.len() == 11
    &&& ts[0] is MapStart
    &&& (ts[1] matches Token::Str(k) && k@ == "id"@)
    &&& ts[2] == Token::Str(id)
    &&& (ts[3] matches Token::Str(k) && k@ == "result"@)
    &&& value_encoding(v, ts.subrange(4, 10))
    &&& ts[10] is MapEnd
}

/// The canonical payload encoding of a message, per variant.
pub open spec fn msg_payload_encoding(m: Message, ts: Seq<Token>) -> bool {
    match m {
        Message::Request { id, method, params } => req_payload_encoding(id, method, params, ts),
        Message::Response { id, result } => resp_payload_encoding(id, result, ts),
    }
}

/// The variant name of a message.
pub open spec fn variant_name(m: Message) -> Seq<char> {
    match m {
        Message::Request { .. } => "Request"@,
        Message::Response { .. } => "Response"@,
    }
}

/// The canonical external wire shape: one key, the variant name.
pub open spec fn external_encoding(m: Message, ts: Seq<Token>) -> bool {
    &&& ts.len() >= 4
    &&& ts[0] is MapStart
    &&& (ts[1] matches Token::Str(k) && k@ == variant_name(m))
    &&& msg_payload_encoding(m, ts.subrange(2, ts.len() - 1))
    &&& ts[ts.len() - 1] is MapEnd
}

/// The canonical internal wire shape: the tag entry first, then the
/// payload's own fields in the same map.
pub open spec fn internal_encoding(m: Message, ts: Seq<Token>) -> bool {
    &&& ts.len() >= 3
    &&& ts[0] is MapStart
    &&& (ts[1] matches Token::Str(k) && k@ == "type"@)
    &&& (ts[2] matches Token::Str(k) && k@ == variant_name(m))
    &&& msg_payload_encoding(m, seq![Token::MapStart] + ts.skip(3))
}

/// The canonical adjacent wire shape: the tag entry, then the content.
pub open spec fn adjacent_encoding(m: Message, ts: Seq<Token>) -> bool {
    &&& ts.len() >= 6
    &&& ts[0] is MapStart
    &&& (ts[1] matches Token::Str(k) && k@ == "t"@)
    &&& (ts[2] matches Token::Str(k) && k@ == variant_name(m))
    &&& (ts[3] matches Token::Str(k) && k@ == "c"@)
    &&& msg_payload_encoding(m, ts.subrange(4, ts.len() - 1))
    &&& ts[ts.len() - 1] is MapEnd
}

/// A run of integer elements followed by the closing token folds to
/// exactly those elements, appended to what was accumulated.
pub proof fn lemma_ints_round(xs: Seq<i32>, tail: Seq<Token>, acc: Seq<i32>)
    ensures
        ints_rec(
            Seq::new(xs.len(), |i: int| Token::Int(xs[i] as i128)) + seq![Token::SeqEnd] + tail,
            acc,
        ) == (Ok::<Seq<i32>, ErrKind>(acc + xs), xs.len() as int + 1),
    decreases xs.len(),
{
    let its = Seq::new(xs.len(), |i: int| Token::Int(xs[i] as i128));
    let ts = its + seq![Token::SeqEnd] + tail;
    if xs.len() == 0 {
        assert(ts[0] is SeqEnd);
        assert(acc + xs =~= acc);
    } else {
        assert(ts[0] == Token::Int(xs[0] as i128));
        lemma_ints_round(xs.skip(1), tail, acc.push(xs[0]));
        assert(ts.skip(1) =~= Seq::new(xs.skip(1).len(), |i: int| Token::Int(xs.skip(1)[i] as i128))
            + seq![Token::SeqEnd] + tail);
        assert(acc.push(xs[0]) + xs.skip(1) =~= acc + xs);
    }
}

/// Round trip for `Params`: its canonical encoding, whatever follows it,
/// parses back to exactly its fields.
pub proof fn lemma_params_round(p: Params, ts: Seq<Token>, rest: Seq<Token>)
    requires
        params_encoding(p, ts),
    ensures
        params_parse(ts + rest) == (
            Ok::<(u32, bool, Seq<i32>), ErrKind>((p.field_1, p.field_2, p.field_3@)),
            ts.len() as int,
        ),
{
    reveal_strlit("field_1");
    reveal_strlit("field_2");
    reveal_strlit("field_3");
    assert("field_1"@.len() == 7 && "field_2"@.len() == 7 && "field_3"@.len() == 7);
    assert("field_1"@[6] != "field_2"@[6] && "field_1"@[6] != "field_3"@[6] && "field_2"@[6]
        != "field_3"@[6]);
    let l = p.field_3@.len() as int;
    let all = ts + rest;
    assert forall|i: int| 0 <= i < ts.len() implies all[i] == ts[i] by {}
    assert(all[0] is MapStart);
    let c1 = all.skip(1);
    let c3 = all.skip(3);
    let c5 = all.skip(5);
    assert(c1[0] == all[1]);
    assert(c3[0] == all[3]);
    assert(c5[0] == all[5]);
    assert(c1.skip(1) =~= all.skip(2));
    assert(c3.skip(1) =~= all.skip(4));
    assert(c5.skip(1) =~= all.skip(6));
    assert(c1.skip(2) =~= c3);
    assert(c3.skip(2) =~= c5);
    assert(all.skip(2)[0] == all[2]);
    assert(all.skip(4)[0] == all[4]);
    assert(all.skip(6)[0] == all[6]);
    assert(parse_u32(all.skip(2)) == (Ok::<u32, ErrKind>(p.field_1), 1int));
    assert(parse_bool(all.skip(4)) == (Ok::<bool, ErrKind>(p.field_2), 1int));
    let its = Seq::new(p.field_3@.len(), |i: int| Token::Int(p.field_3@[i] as i128));
    lemma_ints_round(p.field_3@, all.skip(8 + l), Seq::empty());
    assert(all.skip(7) =~= its + seq![Token::SeqEnd] + all.skip(8 + l));
    assert(Seq::<i32>::empty() + p.field_3@ =~= p.field_3@);
    assert(ints_rec(all.skip(7), Seq::empty()) == (Ok::<Seq<i32>, ErrKind>(p.field_3@), l + 1));
    assert(all.skip(6).skip(1) =~= all.skip(7));
    assert(ints_parse(all.skip(6)) == (Ok::<Seq<i32>, ErrKind>(p.field_3@), l + 2));
    assert(c5.skip(1 + (l + 2)) =~= all.skip(8 + l));
    assert(all.skip(8 + l)[0] == ts[8 + l]);
    assert(params_entries(all.skip(8 + l), Some(p.field_1), Some(p.field_2), Some(p.field_3@))
        == (Ok::<(u32, bool, Seq<i32>), ErrKind>((p.field_1, p.field_2, p.field_3@)), 1int));
    assert(params_entries(c5, Some(p.field_1), Some(p.field_2), None) == (
        Ok::<(u32, bool, Seq<i32>), ErrKind>((p.field_1, p.field_2, p.field_3@)),
        l + 4,
    ));
    assert(params_entries(c3, Some(p.field_1), None, None) == (
        Ok::<(u32, bool, Seq<i32>), ErrKind>((p.field_1, p.field_2, p.field_3@)),
        l + 6,
    ));
    assert(params_entries(c1, None, None, None) == (
        Ok::<(u32, bool, Seq<i32>), ErrKind>((p.field_1, p.field_2, p.field_3@)),
        l + 8,
    ));
}

/// Round trip for `Value`.
pub proof fn lemma_value_round(v: Value, ts: Seq<Token>, rest: Seq<Token>)
    requires
        value_encoding(v, ts),
    ensures
        value_parse(ts + rest) == (
            Ok::<(bool, String), ErrKind>((v.field_1, v.field_2)),
            6int,
        ),
{
    reveal_strlit("field_1");
    reveal_strlit("field_2");
    assert("field_1"@.len() == 7 && "field_2"@.len() == 7);
    assert("field_1"@[6] != "field_2"@[6]);
    let all = ts + rest;
    assert forall|i: int| 0 <= i < 6 implies all[i] == ts[i] by {}
    let c1 = all.skip(1);
    let c3 = all.skip(3);
    let c5 = all.skip(5);
    assert(c1[0] == all[1]);
    assert(c3[0] == all[3]);
    assert(c5[0] == all[5]);
    assert(c1.skip(1) =~= all.skip(2));
    assert(c3.skip(1) =~= all.skip(4));
    assert(c1.skip(2) =~= c3);
    assert(c3.skip(2) =~= c5);
    assert(all.skip(2)[0] == all[2]);
    assert(all.skip(4)[0] == all[4]);
    assert(parse_bool(all.skip(2)) == (Ok::<bool, ErrKind>(v.field_1), 1int));
    assert(parse_str(all.skip(4)) == (Ok::<String, ErrKind>(v.field_2), 1int));
    assert(value_entries(c5, Some(v.field_1), Some(v.field_2)) == (
        Ok::<(bool, String), ErrKind>((v.field_1, v.field_2)),
        1int,
    ));
    assert(value_entries(c3, Some(v.field_1), None) == (
        Ok::<(bool, String), ErrKind>((v.field_1, v.field_2)),
        3int,
    ));
    assert(value_entries(c1, None, None) == (
        Ok::<(bool, String), ErrKind>((v.field_1, v.field_2)),
        5int,
    ));
}

/// A canonically encoded `Value` is one whole skippable value of six
/// tokens, whatever follows it.
pub proof fn lemma_value_skip(v: Value, ts: Seq<Token>, rest: Seq<Token>)
    requires
        value_encoding(v, ts),
    ensures
        crate::discard::skip_len(ts + rest) == Some(6int),
{
    let all = ts + rest;
    assert forall|i: int| 0 <= i < 6 implies all[i] == ts[i] by {}
    assert(all[0] is MapStart);
    assert(all.skip(1)[0] == all[1]);
    assert(all.skip(2)[0] == all[2]);
    assert(all.skip(3)[0] == all[3]);
    assert(all.skip(4)[0] == all[4]);
    assert(all.skip(5)[0] == all[5]);
    assert(all[5] is MapEnd);
    assert(skip_len(all.skip(4)) == Some(1int));
    assert(skip_len(all.skip(3)) == Some(1int));
    assert(skip_len(all.skip(2)) == Some(1int));
    assert(skip_len(all.skip(1)) == Some(1int));
    assert(all.skip(1).skip(1) =~= all.skip(2));
    assert(all.skip(2).skip(1) =~= all.skip(3));
    assert(all.skip(3).skip(1) =~= all.skip(4));
    assert(all.skip(4).skip(1) =~= all.skip(5));
    assert(crate::discard::skip_items(all.skip(5), true) == Some(1int));
    assert(crate::discard::skip_items(all.skip(4), true) == Some(2int));
    assert(crate::discard::skip_items(all.skip(3), true) == Some(3int));
    assert(crate::discard::skip_items(all.skip(2), true) == Some(4int));
    assert(crate::discard::skip_items(all.skip(1), true) == Some(5int));
}

/// Round trip for a request payload.
pub proof fn lemma_req_payload_round(
    id: String,
    method: String,
    p: Params,
    ts: Seq<Token>,
    rest: Seq<Token>,
)
    requires
        req_payload_encoding(id, method, p, ts),
    ensures
        req_payload_parse(ts + rest) == (
            Ok::<ReqT, ErrKind>((id, method, (p.field_1, p.field_2, p.field_3@))),
            ts.len() as int,
        ),
{
    reveal_strlit("id");
    reveal_strlit("method");
    reveal_strlit("params");
    assert("id"@.len() == 2 && "method"@.len() == 6 && "params"@.len() == 6);
    assert("method"@[0] != "params"@[0]);
    let l = p.field_3@.len() as int;
    let all = ts + rest;
    assert forall|i: int| 0 <= i < ts.len() implies all[i] == ts[i] by {}
    let c1 = all.skip(1);
    let c3 = all.skip(3);
    let c5 = all.skip(5);
    assert(c1[0] == all[1]);
    assert(c3[0] == all[3]);
    assert(c5[0] == all[5]);
    assert(c1.skip(1) =~= all.skip(2));
    assert(c3.skip(1) =~= all.skip(4));
    assert(c5.skip(1) =~= all.skip(6));
    assert(c1.skip(2) =~= c3);
    assert(c3.skip(2) =~= c5);
    assert(all.skip(2)[0] == all[2]);
    assert(all.skip(4)[0] == all[4]);
    assert(parse_str(all.skip(2)) == (Ok::<String, ErrKind>(id), 1int));
    assert(parse_str(all.skip(4)) == (Ok::<String, ErrKind>(method), 1int));
    let region = ts.subrange(6, 15 + l);
    lemma_params_round(p, region, all.skip(15 + l));
    assert(all.skip(6) =~= region + all.skip(15 + l));
    assert(params_parse(all.skip(6)) == (
        Ok::<(u32, bool, Seq<i32>), ErrKind>((p.field_1, p.field_2, p.field_3@)),
        l + 9,
    ));
    assert(c5.skip(1 + (l + 9)) =~= all.skip(15 + l));
    assert(all.skip(15 + l)[0] == ts[15 + l]);
    let out = (id, method, (p.field_1, p.field_2, p.field_3@));
    assert(req_fields(all.skip(15 + l), Some(id), Some(method), Some(
        (p.field_1, p.field_2, p.field_3@),
    )) == (Ok::<ReqT, ErrKind>(out), 1int));
    assert(req_fields(c5, Some(id), Some(method), None) == (
        Ok::<ReqT, ErrKind>(out),
        l + 11,
    ));
    assert(req_fields(c3, Some(id), None, None) == (Ok::<ReqT, ErrKind>(out), l + 13));
    assert(req_fields(c1, None, None, None) == (Ok::<ReqT, ErrKind>(out), l + 15));
}

/// Round trip for a response payload.
pub proof fn lemma_resp_payload_round(id: String, v: Value, ts: Seq<Token>, rest: Seq<Token>)
    requires
        resp_payload_encoding(id, v, ts),
    ensures
        resp_payload_parse(ts + rest) == (
            Ok::<RespT, ErrKind>((id, (v.field_1, v.field_2))),
            11int,
        ),
{
    reveal_strlit("id");
    reveal_strlit("result");
    assert("id"@.len() == 2 && "result"@.len() == 6);
    let all = ts + rest;
    assert forall|i: int| 0 <= i < 11 implies all[i] == ts[i] by {}
    let c1 = all.skip(1);
    let c3 = all.skip(3);
    assert(c1[0] == all[1]);
    assert(c3[0] == all[3]);
    assert(c1.skip(1) =~= all.skip(2));
    assert(c3.skip(1) =~= all.skip(4));
    assert(c1.skip(2) =~= c3);
    assert(all.skip(2)[0] == all[2]);
    assert(parse_str(all.skip(2)) == (Ok::<String, ErrKind>(id), 1int));
    let region = ts.subrange(4, 10);
    lemma_value_round(v, region, all.skip(10));
    assert(all.skip(4) =~= region + all.skip(10));
    assert(value_parse(all.skip(4)) == (Ok::<(bool, String), ErrKind>((v.field_1, v.field_2)), 6int));
    assert(c3.skip(7int) =~= all.skip(10));
    assert(all.skip(10)[0] == ts[10]);
    let out = (id, (v.field_1, v.field_2));
    assert(resp_fields(all.skip(10), Some(id), Some((v.field_1, v.field_2))) == (
        Ok::<RespT, ErrKind>(out),
        1int,
    ));
    assert(resp_fields(c3, Some(id), None) == (Ok::<RespT, ErrKind>(out), 8int));
    assert(resp_fields(c1, None, None) == (Ok::<RespT, ErrKind>(out), 10int));
}

/// Round trip for any message payload, per its variant.
pub proof fn lemma_msg_payload_round(m: Message, ts: Seq<Token>, rest: Seq<Token>)
    requires
        msg_payload_encoding(m, ts),
    ensures
        m is Request ==> req_payload_parse(ts + rest) == (
            Ok::<ReqT, ErrKind>(msg_out(m).0->Some_0),
            ts.len() as int,
        ),
        m is Response ==> resp_payload_parse(ts + rest) == (
            Ok::<RespT, ErrKind>(msg_out(m).1->Some_0),
            ts.len() as int,
        ),
{
    match m {
        Message::Request { id, method, params } => {
            lemma_req_payload_round(id, method, params, ts, rest);
        },
        Message::Response { id, result } => {
            lemma_resp_payload_round(id, result, ts, rest);
        },
    }
}

/// Trying the request variant on a canonically encoded response payload
/// fails: the `result` entry is skipped as unknown, and the required
/// request fields are missing at the close. The untagged layout therefore
/// falls through to the response variant.
pub proof fn lemma_req_fails_on_resp(id: String, v: Value, ts: Seq<Token>)
    requires
        resp_payload_encoding(id, v, ts),
    ensures
        req_payload_parse(ts).0 == Err::<ReqT, ErrKind>(ErrKind::Missing("method"@)),
{
    reveal_strlit("id");
    reveal_strlit("method");
    reveal_strlit("params");
    reveal_strlit("result");
    assert("id"@.len() == 2 && "method"@.len() == 6 && "params"@.len() == 6 && "result"@.len()
        == 6);
    assert("result"@[0] != "method"@[0] && "result"@[0] != "params"@[0]);
    let all = ts;
    let c1 = all.skip(1);
    let c3 = all.skip(3);
    assert(c1[0] == all[1]);
    assert(c3[0] == all[3]);
    assert(c1.skip(1) =~= all.skip(2));
    assert(c3.skip(1) =~= all.skip(4));
    assert(c1.skip(2) =~= c3);
    assert(all.skip(2)[0] == all[2]);
    assert(parse_str(all.skip(2)) == (Ok::<String, ErrKind>(id), 1int));
    let region = ts.subrange(4, 10);
    lemma_value_skip(v, region, all.skip(10));
    assert(all.skip(4) =~= region + all.skip(10));
    assert(skip_len(all.skip(4)) == Some(6int));
    assert(c3.skip(7int) =~= all.skip(10));
    assert(all.skip(10)[0] == ts[10]);
    assert(req_fields(all.skip(10), Some(id), None, None).0 == Err::<ReqT, ErrKind>(
        ErrKind::Missing("method"@),
    ));
    assert(req_fields(c3, Some(id), None, None).0 == Err::<ReqT, ErrKind>(
        ErrKind::Missing("method"@),
    ));
    assert(req_fields(c1, None, None, None).0 == Err::<ReqT, ErrKind>(
        ErrKind::Missing("method"@),
    ));
}

/// All four tag layouts agree: fed its own canonical wire shape for the
/// same logical variant and payload, each decodes to the same in-memory
/// value, consuming its whole input.
pub proof fn lemma_enum_layouts_agree(
    m: Message,
    te: Seq<Token>,
    ti: Seq<Token>,
    ta: Seq<Token>,
    tu: Seq<Token>,
)
    requires
        external_encoding(m, te),
        internal_encoding(m, ti),
        adjacent_encoding(m, ta),
        msg_payload_encoding(m, tu),
    ensures
        external_parse(te) == (Ok::<MsgT, ErrKind>(msg_out(m)), te.len() as int),
        internal_parse(ti) == (Ok::<MsgT, ErrKind>(msg_out(m)), ti.len() as int),
        adjacent_parse(ta) == (Ok::<MsgT, ErrKind>(msg_out(m)), ta.len() as int),
        untagged_parse(tu) == (Ok::<MsgT, ErrKind>(msg_out(m)), tu.len() as int),
{
    reveal_strlit("Request");
    reveal_strlit("Response");
    reveal_strlit("type");
    reveal_strlit("t");
    reveal_strlit("c");
    assert("Request"@.len() == 7 && "Response"@.len() == 8 && "type"@.len() == 4 && "t"@.len()
        == 1 && "c"@.len() == 1);
    // external
    {
        let region = te.subrange(2, te.len() - 1);
        lemma_msg_payload_round(m, region, te.skip(te.len() - 1));
        assert(te.skip(2) =~= region + te.skip(te.len() - 1));
        assert(te.skip(te.len() - 1)[0] == te[te.len() - 1]);
        let mm = region.len() as int;
        assert(te[2 + mm] is MapEnd);
    }
    // internal
    {
        let pl = seq![Token::MapStart] + ti.skip(3);
        lemma_msg_payload_round(m, pl, Seq::empty());
        assert(pl + Seq::<Token>::empty() =~= pl);
        assert(pl[0] is MapStart);
        assert(pl.skip(1) =~= ti.skip(3));
        assert(pl.len() == ti.len() - 2);
    }
    // adjacent, tag first
    {
        let region = ta.subrange(4, ta.len() - 1);
        lemma_msg_payload_round(m, region, ta.skip(ta.len() - 1));
        assert(ta.skip(4) =~= region + ta.skip(ta.len() - 1));
        assert(ta.skip(ta.len() - 1)[0] == ta[ta.len() - 1]);
        let mm = region.len() as int;
        assert(ta[4 + mm] is MapEnd);
        assert("t"@[0] != "c"@[0]);
        assert("t"@ != "c"@);
    }
    // untagged: first match in declaration order
    {
        lemma_msg_payload_round(m, tu, Seq::empty());
        assert(tu + Seq::<Token>::empty() =~= tu);
        match m {
            Message::Request { .. } => {},
            Message::Response { id, result } => {
                lemma_req_fails_on_resp(id, result, tu);
            },
        }
    }
}

} // verus!

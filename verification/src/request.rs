//! A structural decode with per-field defaults and an unknown-key policy.
//!
//! `Request` has three fields, each with a default supplier consulted when
//! the key is absent: a fixed function for `resource`, the type's `Default`
//! for `timeout`, and a method for `priority`. Unknown keys are either
//! ignored -- consumed through the discard path -- or rejected, per
//! [`UnknownPolicy`]. The laws [`lemma_unknown_entry_ignored`] and
//! [`lemma_unknown_entry_rejected`] state the two policies for any unknown
//! entry, wherever it stands in the map; [`lemma_request_round_trip`] is the
//! round trip over the canonical encoding.

use vstd::prelude::*;

use crate::decoder::{advanced, parse_str, parse_u32, Decoder};
use crate::discard::{lemma_skip_len_bounds, lemma_skip_len_extend, skip_len, skip_value};
use crate::token::{str_eq, DecodeError, ErrKind, Shape, Token};

verus! {

/// Timeout in seconds.
#[derive(Debug, Clone, Copy, PartialEq, Eq, Structural)]
pub struct Timeout(pub u32);

impl Default for Timeout {
    /// The default timeout: thirty seconds.
    fn default() -> (t: Self)
        ensures
            t == Timeout(30u32),
    {
        Timeout(30)
    }
}

/// Priority level of a `Request`.
#[derive(Debug, Clone, Copy, PartialEq, Eq, Structural)]
pub enum Priority {
    ExtraHigh,
    High,
    Normal,
    Low,
    ExtraLow,
}

impl Priority {
    /// The lowest priority, used as the default when the key is absent.
    pub fn lowest() -> (p: Self)
        ensures
            p == Priority::ExtraLow,
    {
        Priority::ExtraLow
    }
}

/// The default resource path.
pub fn default_resource() -> (s: String)
    ensures
        s@ == "/"@,
{
    "/".to_owned()
}

/// The variant a priority name denotes, if any.
pub open spec fn priority_of(s: Seq<char>) -> Option<Priority> {
    if s == "ExtraHigh"@ {
        Some(Priority::ExtraHigh)
    } else if s == "High"@ {
        Some(Priority::High)
    } else if s == "Normal"@ {
        Some(Priority::Normal)
    } else if s == "Low"@ {
        Some(Priority::Low)
    } else if s == "ExtraLow"@ {
        Some(Priority::ExtraLow)
    } else {
        None
    }
}

/// The name of a priority variant.
pub open spec fn priority_name(p: Priority) -> Seq<char> {
    match p {
        Priority::ExtraHigh => "ExtraHigh"@,
        Priority::High => "High"@,
        Priority::Normal => "Normal"@,
        Priority::Low => "Low"@,
        Priority::ExtraLow => "ExtraLow"@,
    }
}

/// Each priority name denotes its own variant.
pub proof fn lemma_priority_name_round(p: Priority)
    ensures
        priority_of(priority_name(p)) == Some(p),
{
    reveal_strlit("ExtraHigh");
    reveal_strlit("High");
    reveal_strlit("Normal");
    reveal_strlit("Low");
    reveal_strlit("ExtraLow");
    assert("ExtraHigh"@.len() == 9);
    assert("High"@.len() == 4);
    assert("Normal"@.len() == 6);
    assert("Low"@.len() == 3);
    assert("ExtraLow"@.len() == 8);
}

/// Parses one priority: a string holding a variant name. A name that is no
/// variant is a custom error, as a hand-written conversion reports it.
pub open spec fn parse_priority(ts: Seq<Token>) -> (Result<Priority, ErrKind>, int) {
    if ts.len() == 0 {
        (Err(ErrKind::Mismatch), 0)
    } else {
        match ts[0] {
            Token::Str(s) => match priority_of(s@) {
                Some(p) => (Ok(p), 1),
                None => (Err(ErrKind::Custom), 1),
            },
            _ => (Err(ErrKind::Mismatch), 0),
        }
    }
}

/// Decodes one priority from its variant name.
pub fn decode_priority(d: &mut Decoder) -> (r: Result<Priority, DecodeError>)
    requires
        old(d).wf(),
    ensures
        advanced(*old(d), *final(d)),
        crate::token::agrees(r, parse_priority(old(d).remaining()).0),
        r is Ok ==> final(d).pos_spec() == old(d).pos_spec() + parse_priority(
            old(d).remaining(),
        ).1,
{
    let name = match d.decode_identifier() {
        Ok(s) => s,
        Err(e) => return Err(e),
    };
    if str_eq(name.as_str(), "ExtraHigh") {
        Ok(Priority::ExtraHigh)
    } else if str_eq(name.as_str(), "High") {
        Ok(Priority::High)
    } else if str_eq(name.as_str(), "Normal") {
        Ok(Priority::Normal)
    } else if str_eq(name.as_str(), "Low") {
        Ok(Priority::Low)
    } else if str_eq(name.as_str(), "ExtraLow") {
        Ok(Priority::ExtraLow)
    } else {
        Err(DecodeError::Custom { message: "unknown priority variant".to_owned() })
    }
}

/// What to do with a key that matches no declared field.
#[derive(Debug, Clone, Copy, PartialEq, Eq, Structural)]
pub enum UnknownPolicy {
    /// Consume the entry through the discard path and go on (the default).
    Ignore,
    /// Fail at once with an unknown-field error (strict mode).
    Reject,
}

/// A request: a resource path, a timeout, and a priority, each with a
/// default supplier consulted when its key is absent from the input.
#[derive(Debug, Clone, PartialEq, Eq)]
pub struct Request {
    pub resource: String,
    pub timeout: Timeout,
    pub priority: Priority,
}

/// The map-body parser for `Request`, entry by entry; at the closing token
/// it yields the fields that were actually seen, defaults not yet applied.
pub open spec fn req_entries(
    ts: Seq<Token>,
    ro: Option<String>,
    to: Option<Timeout>,
    po: Option<Priority>,
    pol: UnknownPolicy,
) -> (Result<(Option<String>, Option<Timeout>, Option<Priority>), ErrKind>, int)
    decreases ts.len(),
{
    if ts.len() == 0 {
        (Err(ErrKind::Mismatch), 0)
    } else {
        match ts[0] {
            Token::MapEnd => (Ok((ro, to, po)), 1),
            Token::Str(k) => if k@ == "resource"@ {
                if ro is Some {
                    (Err(ErrKind::Duplicate(k@)), 0)
                } else {
                    let (r, m) = parse_str(ts.skip(1));
                    match r {
                        Ok(v) => if 0 <= m <= ts.len() - 1 {
                            let t = req_entries(ts.skip(1 + m), Some(v), to, po, pol);
                            (t.0, 1 + m + t.1)
                        } else {
                            (Err(ErrKind::Mismatch), 0)
                        },
                        Err(k2) => (Err(k2), 0),
                    }
                }
            } else if k@ == "timeout"@ {
                if to is Some {
                    (Err(ErrKind::Duplicate(k@)), 0)
                } else {
                    let (r, m) = parse_u32(ts.skip(1));
                    match r {
                        Ok(v) => if 0 <= m <= ts.len() - 1 {
                            let t = req_entries(ts.skip(1 + m), ro, Some(Timeout(v)), po, pol);
                            (t.0, 1 + m + t.1)
                        } else {
                            (Err(ErrKind::Mismatch), 0)
                        },
                        Err(k2) => (Err(k2), 0),
                    }
                }
            } else if k@ == "priority"@ {
                if po is Some {
                    (Err(ErrKind::Duplicate(k@)), 0)
                } else {
                    let (r, m) = parse_priority(ts.skip(1));
                    match r {
                        Ok(v) => if 0 <= m <= ts.len() - 1 {
                            let t = req_entries(ts.skip(1 + m), ro, to, Some(v), pol);
                            (t.0, 1 + m + t.1)
                        } else {
                            (Err(ErrKind::Mismatch), 0)
                        },
                        Err(k2) => (Err(k2), 0),
                    }
                }
            } else {
                match pol {
                    UnknownPolicy::Reject => (Err(ErrKind::Unknown(k@)), 0),
                    UnknownPolicy::Ignore => match skip_len(ts.skip(1)) {
                        Some(m) => if 1 <= m <= ts.len() - 1 {
                            let t = req_entries(ts.skip(1 + m), ro, to, po, pol);
                            (t.0, 1 + m + t.1)
                        } else {
                            (Err(ErrKind::Mismatch), 0)
                        },
                        None => (Err(ErrKind::Mismatch), 0),
                    },
                }
            },
            _ => (Err(ErrKind::Mismatch), 0),
        }
    }
}

/// The whole decode of a `Request`: a map shape.
pub open spec fn req_parse(ts: Seq<Token>, pol: UnknownPolicy) -> (Result<
    (Option<String>, Option<Timeout>, Option<Priority>),
    ErrKind,
>, int) {
    if ts.len() == 0 {
        (Err(ErrKind::Mismatch), 0)
    } else {
        match ts[0] {
            Token::MapStart => {
                let t = req_entries(ts.skip(1), None, None, None, pol);
                (t.0, 1 + t.1)
            },
            _ => (Err(ErrKind::Mismatch), 0),
        }
    }
}

/// The request built from the fields that were seen, with each absent field
/// taken from its default supplier.
pub open spec fn req_built(
    ro: Option<String>,
    to: Option<Timeout>,
    po: Option<Priority>,
    q: Request,
) -> bool {
    &&& match ro {
        Some(s) => q.resource == s,
        None => q.resource@ == "/"@,
    }
    &&& q.timeout == match to {
        Some(t) => t,
        None => Timeout(30u32),
    }
    &&& q.priority == match po {
        Some(p) => p,
        None => Priority::ExtraLow,
    }
}

impl Request {
    /// Decodes a request under the given unknown-key policy.
    pub fn decode_with(d: &mut Decoder, pol: UnknownPolicy) -> (r: Result<Request, DecodeError>)
        requires
            old(d).wf(),
        ensures
            advanced(*old(d), *final(d)),
            match req_parse(old(d).remaining(), pol).0 {
                Ok(acc) => r matches Ok(q) && req_built(acc.0, acc.1, acc.2, q),
                Err(k) => r matches Err(e) && e.kind() == k,
            },
            r is Ok ==> final(d).pos_spec() == old(d).pos_spec() + req_parse(
                old(d).remaining(),
                pol,
            ).1,
    {
        let ghost orig0 = d.remaining();
        let s = d.peek_shape();
        if !matches!(s, Shape::Mapping) {
            return Err(DecodeError::ShapeMismatch {
                expected: "struct Request".to_owned(),
                found: s,
            });
        }
        d.advance();
        let ghost orig = d.remaining();
        proof {
            assert(orig =~= orig0.skip(1));
        }
        let ghost t0 = d.toks();
        let ghost p0 = d.pos_spec();
        let mut res_val: Option<String> = None;
        let mut tim_val: Option<Timeout> = None;
        let mut pri_val: Option<Priority> = None;
        loop
            invariant
                d.wf(),
                d.toks() == t0,
                p0 <= d.pos_spec(),
                0 <= p0,
                orig == t0.skip(p0),
                t0 == old(d).toks(),
                old(d).wf(),
                orig0 == old(d).remaining(),
                orig0.len() > 0,
                orig0[0] is MapStart,
                p0 == old(d).pos_spec() + 1,
                orig == orig0.skip(1),
                req_entries(orig, None, None, None, pol).0 == req_entries(
                    d.remaining(),
                    res_val,
                    tim_val,
                    pri_val,
                    pol,
                ).0,
                req_entries(d.remaining(), res_val, tim_val, pri_val, pol).0 is Ok
                    ==> req_entries(orig, None, None, None, pol).1 == (d.pos_spec() - p0)
                    + req_entries(d.remaining(), res_val, tim_val, pri_val, pol).1,
            decreases d.toks().len() - d.pos_spec(),
        {
            let ghost cur = d.remaining();
            let s = d.peek_shape();
            match s {
                Shape::MapClose => {
                    d.advance();
                    let resource = match res_val {
                        Some(v) => v,
                        None => default_resource(),
                    };
                    let timeout = match tim_val {
                        Some(v) => v,
                        None => Timeout::default(),
                    };
                    let priority = match pri_val {
                        Some(v) => v,
                        None => Priority::lowest(),
                    };
                    return Ok(Request { resource, timeout, priority });
                },
                Shape::Text => {
                    let key = match d.decode_identifier() {
                        Ok(k) => k,
                        Err(e) => return Err(e),
                    };
                    proof {
                        assert(d.remaining() =~= cur.skip(1));
                    }
                    if str_eq(key.as_str(), "resource") {
                        if res_val.is_some() {
                            return Err(DecodeError::DuplicateField { field: key });
                        }
                        let v = match d.decode_str() {
                            Ok(v) => v,
                            Err(e) => return Err(e),
                        };
                        proof {
                            assert(d.remaining() =~= cur.skip(2));
                        }
                        res_val = Some(v);
                    } else if str_eq(key.as_str(), "timeout") {
                        if tim_val.is_some() {
                            return Err(DecodeError::DuplicateField { field: key });
                        }
                        let v = match d.decode_u32() {
                            Ok(v) => v,
                            Err(e) => return Err(e),
                        };
                        proof {
                            assert(d.remaining() =~= cur.skip(2));
                        }
                        tim_val = Some(Timeout(v));
                    } else if str_eq(key.as_str(), "priority") {
                        if pri_val.is_some() {
                            return Err(DecodeError::DuplicateField { field: key });
                        }
                        let v = match decode_priority(d) {
                            Ok(v) => v,
                            Err(e) => return Err(e),
                        };
                        proof {
                            assert(d.remaining() =~= cur.skip(2));
                        }
                        pri_val = Some(v);
                    } else {
                        match pol {
                            UnknownPolicy::Reject => {
                                return Err(DecodeError::UnknownField { field: key });
                            },
                            UnknownPolicy::Ignore => {
                                match skip_value(d) {
                                    Ok(()) => (),
                                    Err(e) => return Err(e),
                                }
                                proof {
                                    lemma_skip_len_bounds(cur.skip(1));
                                    if skip_len(cur.skip(1)) is Some {
                                        let m = skip_len(cur.skip(1))->Some_0;
                                        assert(d.remaining() =~= cur.skip(1).skip(m));
                                        assert(cur.skip(1).skip(m) =~= cur.skip(1 + m));
                                    }
                                }
                            },
                        }
                    }
                },
                _ => {
                    return Err(DecodeError::ShapeMismatch {
                        expected: "struct Request".to_owned(),
                        found: s,
                    });
                },
            }
        }
    }

    /// Decodes a request, ignoring unknown keys (the default policy).
    pub fn decode(d: &mut Decoder) -> (r: Result<Request, DecodeError>)
        requires
            old(d).wf(),
        ensures
            advanced(*old(d), *final(d)),
            match req_parse(old(d).remaining(), UnknownPolicy::Ignore).0 {
                Ok(acc) => r matches Ok(q) && req_built(acc.0, acc.1, acc.2, q),
                Err(k) => r matches Err(e) && e.kind() == k,
            },
            r is Ok ==> final(d).pos_spec() == old(d).pos_spec() + req_parse(
                old(d).remaining(),
                UnknownPolicy::Ignore,
            ).1,
    {
        Request::decode_with(d, UnknownPolicy::Ignore)
    }
}

/// The name of a priority variant, as a string.
pub fn priority_label(p: Priority) -> (s: String)
    ensures
        s@ == priority_name(p),
{
    match p {
        Priority::ExtraHigh => "ExtraHigh".to_owned(),
        Priority::High => "High".to_owned(),
        Priority::Normal => "Normal".to_owned(),
        Priority::Low => "Low".to_owned(),
        Priority::ExtraLow => "ExtraLow".to_owned(),
    }
}

impl Request {
    /// The canonical map-shape encoding of this value: all three fields,
    /// in declaration order.
    pub open spec fn map_encoding(self, ts: Seq<Token>) -> bool {
        &&& ts.len() == 8
        &&& ts[0] is MapStart
        &&& (ts[1] matches Token::Str(k) && k@ == "resource"@)
        &&& ts[2] == Token::Str(self.resource)
        &&& (ts[3] matches Token::Str(k) && k@ == "timeout"@)
        &&& ts[4] == Token::Int(self.timeout.0 as i128)
        &&& (ts[5] matches Token::Str(k) && k@ == "priority"@)
        &&& (ts[6] matches Token::Str(k) && k@ == priority_name(self.priority))
        &&& ts[7] is MapEnd
    }

    /// Appends the canonical map-shape encoding of this value.
    pub fn encode(&self, out: &mut Vec<Token>)
        ensures
            final(out)@.len() == old(out)@.len() + 8,
            final(out)@.subrange(0, old(out)@.len() as int) == old(out)@,
            self.map_encoding(final(out)@.skip(old(out)@.len() as int)),
    {
        let ghost n0 = out@.len() as int;
        out.push(Token::MapStart);
        out.push(Token::Str("resource".to_owned()));
        out.push(Token::Str(self.resource.clone()));
        out.push(Token::Str("timeout".to_owned()));
        out.push(Token::Int(self.timeout.0 as i128));
        out.push(Token::Str("priority".to_owned()));
        out.push(Token::Str(priority_label(self.priority)));
        out.push(Token::MapEnd);
        proof {
            assert(out@.subrange(0, n0) =~= old(out)@);
            assert(out@.skip(n0).len() == 8);
            assert forall|i: int| 0 <= i < 8 implies out@.skip(n0)[i] == out@[n0 + i] by {}
        }
    }
}

/// Round trip: decoding the canonical encoding of any `Request`, under
/// either policy and whatever follows it, yields exactly its own fields --
/// so the built value equals the encoded one.
pub proof fn lemma_request_round_trip(
    v: Request,
    ts: Seq<Token>,
    rest: Seq<Token>,
    pol: UnknownPolicy,
)
    requires
        v.map_encoding(ts),
    ensures
        req_parse(ts + rest, pol) == (
            Ok::<(Option<String>, Option<Timeout>, Option<Priority>), ErrKind>(
                (Some(v.resource), Some(v.timeout), Some(v.priority)),
            ),
            8int,
        ),
        forall|q: Request|
            req_built(Some(v.resource), Some(v.timeout), Some(v.priority), q) ==> q == v,
{
    reveal_strlit("resource");
    reveal_strlit("timeout");
    reveal_strlit("priority");
    lemma_priority_name_round(v.priority);
    let all = ts + rest;
    assert forall|i: int| 0 <= i < 8 implies all[i] == ts[i] by {}
    let c1 = all.skip(1);
    let c3 = all.skip(3);
    let c5 = all.skip(5);
    let c7 = all.skip(7);
    assert(c1[0] == all[1]);
    assert(c3[0] == all[3]);
    assert(c5[0] == all[5]);
    assert(c7[0] == all[7]);
    assert(c1.skip(1) =~= all.skip(2));
    assert(c3.skip(1) =~= all.skip(4));
    assert(c5.skip(1) =~= all.skip(6));
    assert(c1.skip(2) =~= c3);
    assert(c3.skip(2) =~= c5);
    assert(c5.skip(2) =~= c7);
    assert(all.skip(2)[0] == all[2]);
    assert(all.skip(4)[0] == all[4]);
    assert(all.skip(6)[0] == all[6]);
    assert("resource"@.len() == 8);
    assert("timeout"@.len() == 7);
    assert("priority"@.len() == 8);
    assert("resource"@[0] != "priority"@[0]);
    assert("resource"@ != "timeout"@ && "resource"@ != "priority"@ && "timeout"@
        != "priority"@);
    assert(priority_of(priority_name(v.priority)) is Some);
    assert(parse_str(all.skip(2)) == (Ok::<String, ErrKind>(v.resource), 1int));
    assert(parse_u32(all.skip(4)) == (Ok::<u32, ErrKind>(v.timeout.0), 1int));
    assert(parse_priority(all.skip(6)) == (Ok::<Priority, ErrKind>(v.priority), 1int));
    assert(req_entries(c7, Some(v.resource), Some(v.timeout), Some(v.priority), pol) == (
        Ok::<(Option<String>, Option<Timeout>, Option<Priority>), ErrKind>(
            (Some(v.resource), Some(v.timeout), Some(v.priority)),
        ),
        1int,
    ));
    assert(req_entries(c5, Some(v.resource), Some(v.timeout), None, pol).0 == Ok::<
        (Option<String>, Option<Timeout>, Option<Priority>),
        ErrKind,
    >((Some(v.resource), Some(v.timeout), Some(v.priority))));
    assert(req_entries(c3, Some(v.resource), None, None, pol).0 == Ok::<
        (Option<String>, Option<Timeout>, Option<Priority>),
        ErrKind,
    >((Some(v.resource), Some(v.timeout), Some(v.priority))));
    assert(req_entries(c1, None, None, None, pol) == (
        Ok::<(Option<String>, Option<Timeout>, Option<Priority>), ErrKind>(
            (Some(v.resource), Some(v.timeout), Some(v.priority)),
        ),
        7int,
    ));
    assert(v.timeout == Timeout(v.timeout.0));
}

/// Under the ignoring policy, an unknown entry anywhere in the map body has
/// no effect at all: the decode continues exactly as if the entry were not
/// there, whatever fields were seen before it and whatever follows it.
pub proof fn lemma_unknown_entry_ignored(
    k: String,
    vts: Seq<Token>,
    rest: Seq<Token>,
    ro: Option<String>,
    to: Option<Timeout>,
    po: Option<Priority>,
)
    requires
        k@ != "resource"@,
        k@ != "timeout"@,
        k@ != "priority"@,
        skip_len(vts) == Some(vts.len() as int),
    ensures
        req_entries(seq![Token::Str(k)] + vts + rest, ro, to, po, UnknownPolicy::Ignore).0
            == req_entries(rest, ro, to, po, UnknownPolicy::Ignore).0,
        req_entries(rest, ro, to, po, UnknownPolicy::Ignore).0 is Ok ==> req_entries(
            seq![Token::Str(k)] + vts + rest,
            ro,
            to,
            po,
            UnknownPolicy::Ignore,
        ).1 == 1 + vts.len() + req_entries(rest, ro, to, po, UnknownPolicy::Ignore).1,
{
    let full = seq![Token::Str(k)] + vts + rest;
    assert(full[0] == Token::Str(k));
    assert(full.skip(1) =~= vts + rest);
    lemma_skip_len_bounds(vts);
    lemma_skip_len_extend(vts, rest);
    assert(skip_len(vts + rest) == Some(vts.len() as int));
    assert(full.skip(1 + vts.len() as int) =~= rest);
}

/// Under the rejecting policy, the same unknown entry fails the decode at
/// once with an unknown-field error.
pub proof fn lemma_unknown_entry_rejected(
    k: String,
    vts: Seq<Token>,
    rest: Seq<Token>,
    ro: Option<String>,
    to: Option<Timeout>,
    po: Option<Priority>,
)
    requires
        k@ != "resource"@,
        k@ != "timeout"@,
        k@ != "priority"@,
    ensures
        req_entries(seq![Token::Str(k)] + vts + rest, ro, to, po, UnknownPolicy::Reject).0
            == Err::<(Option<String>, Option<Timeout>, Option<Priority>), ErrKind>(
            ErrKind::Unknown(k@),
        ),
{
    let full = seq![Token::Str(k)] + vts + rest;
    assert(full[0] == Token::Str(k));
}

} // verus!

//! Adapting a foreign type: a shadow definition plus a conversion.
//!
//! `Duration` here stands for a type owned by another module: its fields
//! are private, it offers only a constructor and read-only accessors.
//! Decode logic cannot be written on it directly, so [`DurationDef`] is a
//! structurally identical shadow that carries the structural decode, and
//! `From` converts the shadow into the real type. The shadow never reaches
//! callers: the delegated field of [`Process`] decodes through the shadow
//! and stores the real type.

use vstd::prelude::*;

use crate::decoder::{advanced, parse_i64, parse_str, Decoder};
use crate::decode::parse_i32;
use crate::discard::{lemma_skip_len_bounds, skip_len, skip_value};
use crate::token::{str_eq, DecodeError, ErrKind, Shape, Token};

verus! {

/// A foreign duration: private fields, a constructor, two accessors.
#[derive(Debug, Clone, Copy, PartialEq, Eq, Structural)]
pub struct Duration {
    secs: i64,
    nanos: i32,
}

impl Duration {
    /// The whole seconds.
    pub closed spec fn secs_spec(self) -> i64 {
        self.secs
    }

    /// The sub-second nanoseconds.
    pub closed spec fn nanos_spec(self) -> i32 {
        self.nanos
    }

    /// Builds a duration.
    pub fn new(secs: i64, nanos: i32) -> (d: Self)
        ensures
            d.secs_spec() == secs,
            d.nanos_spec() == nanos,
    {
        Duration { secs, nanos }
    }

    /// Reads the whole seconds.
    pub fn seconds(&self) -> (s: i64)
        ensures
            s == self.secs_spec(),
    {
        self.secs
    }

    /// Reads the sub-second nanoseconds.
    pub fn subsec_nanos(&self) -> (n: i32)
        ensures
            n == self.nanos_spec(),
    {
        self.nanos
    }
}

/// The shadow of the foreign duration: the same fields, but owned here,
/// so the structural decode can be written on it.
#[derive(Debug, Clone, Copy, PartialEq, Eq, Structural)]
pub struct DurationDef {
    pub secs: i64,
    pub nanos: i32,
}

impl From<DurationDef> for Duration {
    /// Converts the decoded shadow into the foreign type.
    fn from(def: DurationDef) -> (d: Duration) {
        Duration::new(def.secs, def.nanos)
    }
}

impl vstd::std_specs::convert::FromSpecImpl<DurationDef> for Duration {
    open spec fn obeys_from_spec() -> bool {
        true
    }

    closed spec fn from_spec(def: DurationDef) -> Duration {
        Duration { secs: def.secs, nanos: def.nanos }
    }
}

/// What converting the shadow yields, field by field.
pub proof fn lemma_duration_from_def(def: DurationDef)
    ensures
        <Duration as vstd::std_specs::convert::FromSpec<DurationDef>>::from_spec(
            def,
        ).secs_spec() == def.secs,
        <Duration as vstd::std_specs::convert::FromSpec<DurationDef>>::from_spec(
            def,
        ).nanos_spec() == def.nanos,
{
}

/// The map-body parser for the shadow: `secs` and `nanos`, both required,
/// unknown keys ignored.
pub open spec fn def_entries(ts: Seq<Token>, so: Option<i64>, no: Option<i32>) -> (Result<
    (i64, i32),
    ErrKind,
>, int)
    decreases ts.len(),
{
    if ts.len() == 0 {
        (Err(ErrKind::Mismatch), 0)
    } else {
        match ts[0] {
            Token::MapEnd => match (so, no) {
                (Some(s), Some(n)) => (Ok((s, n)), 1),
                (None, _) => (Err(ErrKind::Missing("secs"@)), 0),
                _ => (Err(ErrKind::Missing("nanos"@)), 0),
            },
            Token::Str(k) => if k@ == "secs"@ {
                if so is Some {
                    (Err(ErrKind::Duplicate(k@)), 0)
                } else {
                    let (r, m) = parse_i64(ts.skip(1));
                    match r {
                        Ok(v) => if 0 <= m <= ts.len() - 1 {
                            let t = def_entries(ts.skip(1 + m), Some(v), no);
                            (t.0, 1 + m + t.1)
                        } else {
                            (Err(ErrKind::Mismatch), 0)
                        },
                        Err(k2) => (Err(k2), 0),
                    }
                }
            } else if k@ == "nanos"@ {
                if no is Some {
                    (Err(ErrKind::Duplicate(k@)), 0)
                } else {
                    let (r, m) = parse_i32(ts.skip(1));
                    match r {
                        Ok(v) => if 0 <= m <= ts.len() - 1 {
                            let t = def_entries(ts.skip(1 + m), so, Some(v));
                            (t.0, 1 + m + t.1)
                        } else {
                            (Err(ErrKind::Mismatch), 0)
                        },
                        Err(k2) => (Err(k2), 0),
                    }
                }
            } else {
                match skip_len(ts.skip(1)) {
                    Some(m) => if 1 <= m <= ts.len() - 1 {
                        let t = def_entries(ts.skip(1 + m), so, no);
                        (t.0, 1 + m + t.1)
                    } else {
                        (Err(ErrKind::Mismatch), 0)
                    },
                    None => (Err(ErrKind::Mismatch), 0),
                }
            },
            _ => (Err(ErrKind::Mismatch), 0),
        }
    }
}

/// The whole decode of the shadow: a map shape.
pub open spec fn def_parse(ts: Seq<Token>) -> (Result<(i64, i32), ErrKind>, int) {
    if ts.len() == 0 {
        (Err(ErrKind::Mismatch), 0)
    } else {
        match ts[0] {
            Token::MapStart => {
                let t = def_entries(ts.skip(1), None, None);
                (t.0, 1 + t.1)
            },
            _ => (Err(ErrKind::Mismatch), 0),
        }
    }
}

impl DurationDef {
    /// Decodes the shadow from a map shape, both fields required.
    pub fn decode(d: &mut Decoder) -> (r: Result<DurationDef, DecodeError>)
        requires
            old(d).wf(),
        ensures
            advanced(*old(d), *final(d)),
            match def_parse(old(d).remaining()).0 {
                Ok(t) => r == Ok::<DurationDef, DecodeError>(
                    DurationDef { secs: t.0, nanos: t.1 },
                ),
                Err(k) => r matches Err(e) && e.kind() == k,
            },
            r is Ok ==> final(d).pos_spec() == old(d).pos_spec() + def_parse(
                old(d).remaining(),
            ).1,
    {
        let ghost orig0 = d.remaining();
        let s = d.peek_shape();
        if !matches!(s, Shape::Mapping) {
            return Err(DecodeError::ShapeMismatch {
                expected: "struct Duration".to_owned(),
                found: s,
            });
        }
        d.advance();
        let ghost orig = d.remaining();
        proof {
            assert(orig =~= orig0.skip(1));
        }
        let ghost t0 = d.toks();
        let ghost p0 = d.pos_spec();
        let mut secs_val: Option<i64> = None;
        let mut nanos_val: Option<i32> = None;
        loop
            invariant
                d.wf(),
                d.toks() == t0,
                t0 == old(d).toks(),
                old(d).wf(),
                p0 <= d.pos_spec(),
                0 <= p0,
                orig == t0.skip(p0),
                orig0 == old(d).remaining(),
                orig0.len() > 0,
                orig0[0] is MapStart,
                p0 == old(d).pos_spec() + 1,
                orig == orig0.skip(1),
                def_entries(orig, None, None).0 == def_entries(
                    d.remaining(),
                    secs_val,
                    nanos_val,
                ).0,
                def_entries(d.remaining(), secs_val, nanos_val).0 is Ok ==> def_entries(
                    orig,
                    None,
                    None,
                ).1 == (d.pos_spec() - p0) + def_entries(d.remaining(), secs_val, nanos_val).1,
            decreases d.toks().len() - d.pos_spec(),
        {
            let ghost cur = d.remaining();
            let s = d.peek_shape();
            match s {
                Shape::MapClose => {
                    d.advance();
                    match (secs_val, nanos_val) {
                        (Some(sv), Some(nv)) => {
                            return Ok(DurationDef { secs: sv, nanos: nv });
                        },
                        (None, _) => {
                            return Err(DecodeError::MissingField { field: "secs".to_owned() });
                        },
                        _ => {
                            return Err(
                                DecodeError::MissingField { field: "nanos".to_owned() },
                            );
                        },
                    }
                },
                Shape::Text => {
                    let key = match d.decode_identifier() {
                        Ok(k) => k,
                        Err(e) => return Err(e),
                    };
                    proof {
                        assert(d.remaining() =~= cur.skip(1));
                    }
                    if str_eq(key.as_str(), "secs") {
                        if secs_val.is_some() {
                            return Err(DecodeError::DuplicateField { field: key });
                        }
                        let v = match d.decode_i64() {
                            Ok(v) => v,
                            Err(e) => return Err(e),
                        };
                        proof {
                            assert(d.remaining() =~= cur.skip(2));
                        }
                        secs_val = Some(v);
                    } else if str_eq(key.as_str(), "nanos") {
                        if nanos_val.is_some() {
                            return Err(DecodeError::DuplicateField { field: key });
                        }
                        let v = match <i32 as crate::decode::Decode>::decode(d) {
                            Ok(v) => v,
                            Err(e) => return Err(e),
                        };
                        proof {
                            assert(d.remaining() =~= cur.skip(2));
                        }
                        nanos_val = Some(v);
                    } else {
                        match skip_value(d) {
                            Ok(()) => (),
                            Err(e) => return Err(e),
                        }
                        proof {
                            lemma_skip_len_bounds(cur.skip(1));
                            if skip_len(cur.skip(1)) is Some {
                                let m = skip_len(cur.skip(1))->Some_0;
                                assert(d.remaining() =~= cur.skip(1).skip(m));
                                assert(cur.skip(1).skip(m) =~= cur.skip(1 + m));
                            }
                        }
                    }
                },
                _ => {
                    return Err(DecodeError::ShapeMismatch {
                        expected: "struct Duration".to_owned(),
                        found: s,
                    });
                },
            }
        }
    }

    /// Decodes the foreign type through the shadow: the shadow's decode,
    /// then the conversion. The shadow itself never escapes.
    pub fn decode_remote(d: &mut Decoder) -> (r: Result<Duration, DecodeError>)
        requires
            old(d).wf(),
        ensures
            advanced(*old(d), *final(d)),
            match def_parse(old(d).remaining()).0 {
                Ok(t) => r matches Ok(w) && w.secs_spec() == t.0 && w.nanos_spec() == t.1,
                Err(k) => r matches Err(e) && e.kind() == k,
            },
            r is Ok ==> final(d).pos_spec() == old(d).pos_spec() + def_parse(
                old(d).remaining(),
            ).1,
    {
        match DurationDef::decode(d) {
            Ok(def) => {
                proof {
                    lemma_duration_from_def(def);
                }
                Ok(Duration::from(def))
            },
            Err(e) => Err(e),
        }
    }
}

/// A process record whose `wall_time` field delegates its decode to the
/// shadow definition of the foreign duration.
#[derive(Debug, Clone, PartialEq, Eq)]
pub struct Process {
    pub command_line: String,
    pub wall_time: Duration,
}

/// The map-body parser for `Process`: `command_line` is a string and
/// `wall_time` decodes through the shadow; both required, unknown keys
/// ignored.
pub open spec fn process_entries(ts: Seq<Token>, co: Option<String>, wo: Option<(i64, i32)>) -> (
    Result<(String, (i64, i32)), ErrKind>,
    int,
)
    decreases ts.len(),
{
    if ts.len() == 0 {
        (Err(ErrKind::Mismatch), 0)
    } else {
        match ts[0] {
            Token::MapEnd => match (co, wo) {
                (Some(c), Some(w)) => (Ok((c, w)), 1),
                (None, _) => (Err(ErrKind::Missing("command_line"@)), 0),
                _ => (Err(ErrKind::Missing("wall_time"@)), 0),
            },
            Token::Str(k) => if k@ == "command_line"@ {
                if co is Some {
                    (Err(ErrKind::Duplicate(k@)), 0)
                } else {
                    let (r, m) = parse_str(ts.skip(1));
                    match r {
                        Ok(v) => if 0 <= m <= ts.len() - 1 {
                            let t = process_entries(ts.skip(1 + m), Some(v), wo);
                            (t.0, 1 + m + t.1)
                        } else {
                            (Err(ErrKind::Mismatch), 0)
                        },
                        Err(k2) => (Err(k2), 0),
                    }
                }
            } else if k@ == "wall_time"@ {
                if wo is Some {
                    (Err(ErrKind::Duplicate(k@)), 0)
                } else {
                    let (r, m) = def_parse(ts.skip(1));
                    match r {
                        Ok(v) => if 0 <= m <= ts.len() - 1 {
                            let t = process_entries(ts.skip(1 + m), co, Some(v));
                            (t.0, 1 + m + t.1)
                        } else {
                            (Err(ErrKind::Mismatch), 0)
                        },
                        Err(k2) => (Err(k2), 0),
                    }
                }
            } else {
                match skip_len(ts.skip(1)) {
                    Some(m) => if 1 <= m <= ts.len() - 1 {
                        let t = process_entries(ts.skip(1 + m), co, wo);
                        (t.0, 1 + m + t.1)
                    } else {
                        (Err(ErrKind::Mismatch), 0)
                    },
                    None => (Err(ErrKind::Mismatch), 0),
                }
            },
            _ => (Err(ErrKind::Mismatch), 0),
        }
    }
}

/// The whole decode of a `Process`: a map shape.
pub open spec fn process_parse(ts: Seq<Token>) -> (Result<(String, (i64, i32)), ErrKind>, int) {
    if ts.len() == 0 {
        (Err(ErrKind::Mismatch), 0)
    } else {
        match ts[0] {
            Token::MapStart => {
                let t = process_entries(ts.skip(1), None, None);
                (t.0, 1 + t.1)
            },
            _ => (Err(ErrKind::Mismatch), 0),
        }
    }
}

impl Process {
    /// Decodes a process record, the `wall_time` field through the shadow.
    pub fn decode(d: &mut Decoder) -> (r: Result<Process, DecodeError>)
        requires
            old(d).wf(),
        ensures
            advanced(*old(d), *final(d)),
            match process_parse(old(d).remaining()).0 {
                Ok(t) => r matches Ok(p) && p.command_line == t.0 && p.wall_time.secs_spec()
                    == t.1.0 && p.wall_time.nanos_spec() == t.1.1,
                Err(k) => r matches Err(e) && e.kind() == k,
            },
            r is Ok ==> final(d).pos_spec() == old(d).pos_spec() + process_parse(
                old(d).remaining(),
            ).1,
    {
        let ghost orig0 = d.remaining();
        let s = d.peek_shape();
        if !matches!(s, Shape::Mapping) {
            return Err(DecodeError::ShapeMismatch {
                expected: "struct Process".to_owned(),
                found: s,
            });
        }
        d.advance();
        let ghost orig = d.remaining();
        proof {
            assert(orig =~= orig0.skip(1));
        }
        let ghost t0 = d.toks();
        let ghost p0 = d.pos_spec();
        let mut cmd_val: Option<String> = None;
        let mut wall_val: Option<Duration> = None;
        loop
            invariant
                d.wf(),
                d.toks() == t0,
                t0 == old(d).toks(),
                old(d).wf(),
                p0 <= d.pos_spec(),
                0 <= p0,
                orig == t0.skip(p0),
                orig0 == old(d).remaining(),
                orig0.len() > 0,
                orig0[0] is MapStart,
                p0 == old(d).pos_spec() + 1,
                orig == orig0.skip(1),
                process_entries(orig, None, None).0 == process_entries(
                    d.remaining(),
                    cmd_val,
                    opt_dur(wall_val),
                ).0,
                process_entries(d.remaining(), cmd_val, opt_dur(wall_val)).0 is Ok
                    ==> process_entries(orig, None, None).1 == (d.pos_spec() - p0)
                    + process_entries(d.remaining(), cmd_val, opt_dur(wall_val)).1,
            decreases d.toks().len() - d.pos_spec(),
        {
            let ghost cur = d.remaining();
            let s = d.peek_shape();
            match s {
                Shape::MapClose => {
                    d.advance();
                    match (cmd_val, wall_val) {
                        (Some(c), Some(w)) => {
                            return Ok(Process { command_line: c, wall_time: w });
                        },
                        (None, _) => {
                            return Err(
                                DecodeError::MissingField { field: "command_line".to_owned() },
                            );
                        },
                        _ => {
                            return Err(
                                DecodeError::MissingField { field: "wall_time".to_owned() },
                            );
                        },
                    }
                },
                Shape::Text => {
                    let key = match d.decode_identifier() {
                        Ok(k) => k,
                        Err(e) => return Err(e),
                    };
                    proof {
                        assert(d.remaining() =~= cur.skip(1));
                    }
                    if str_eq(key.as_str(), "command_line") {
                        if cmd_val.is_some() {
                            return Err(DecodeError::DuplicateField { field: key });
                        }
                        let v = match d.decode_str() {
                            Ok(v) => v,
                            Err(e) => return Err(e),
                        };
                        proof {
                            assert(d.remaining() =~= cur.skip(2));
                        }
                        cmd_val = Some(v);
                    } else if str_eq(key.as_str(), "wall_time") {
                        if wall_val.is_some() {
                            return Err(DecodeError::DuplicateField { field: key });
                        }
                        let ghost before = d.remaining();
                        let v = match DurationDef::decode_remote(d) {
                            Ok(v) => v,
                            Err(e) => return Err(e),
                        };
                        proof {
                            let m = def_parse(before).1;
                            assert(d.remaining() =~= cur.skip(1).skip(m));
                            assert(cur.skip(1).skip(m) =~= cur.skip(1 + m));
                        }
                        wall_val = Some(v);
                    } else {
                        match skip_value(d) {
                            Ok(()) => (),
                            Err(e) => return Err(e),
                        }
                        proof {
                            lemma_skip_len_bounds(cur.skip(1));
                            if skip_len(cur.skip(1)) is Some {
                                let m = skip_len(cur.skip(1))->Some_0;
                                assert(d.remaining() =~= cur.skip(1).skip(m));
                                assert(cur.skip(1).skip(m) =~= cur.skip(1 + m));
                            }
                        }
                    }
                },
                _ => {
                    return Err(DecodeError::ShapeMismatch {
                        expected: "struct Process".to_owned(),
                        found: s,
                    });
                },
            }
        }
    }
}

/// The seconds-and-nanoseconds pair a decoded duration stands for, if one
/// was seen yet.
pub open spec fn opt_dur(o: Option<Duration>) -> Option<(i64, i32)> {
    match o {
        Some(w) => Some((w.secs_spec(), w.nanos_spec())),
        None => None,
    }
}

} // verus!

//! Map splicing: a flattened catch-all for leftover entries.
//!
//! `User` declares two fields, `id` and `username`; every other entry of
//! the input map belongs to the flattened catch-all `extra`, which holds
//! each leftover entry's value as its raw token region, still
//! self-describing. The catch-all is specified as a mathematical map from
//! key to value region, so which keys land in it cannot depend on the order
//! the input presents them in; [`lemma_user_entry_swap`] proves that
//! swapping two adjacent entries with different keys leaves any successful
//! decode unchanged, and transpositions compose to any reordering.

use vstd::prelude::*;

use crate::decoder::{advanced, parse_str, Decoder};
use crate::discard::{lemma_skip_len_bounds, lemma_skip_len_extend, skip_len, skip_value};
use crate::mymap::MyMap;
use crate::token::{str_eq, DecodeError, ErrKind, Shape, Token};

verus! {

/// A user record with a flattened catch-all for unrecognized keys.
#[derive(Debug, Clone, PartialEq, Eq)]
pub struct User {
    pub id: String,
    pub username: String,
    pub extra: MyMap<String, Vec<Token>>,
}

/// The catch-all as a mathematical map: each buffered entry's key, in
/// character form, to its raw value region. A key seen twice keeps the
/// later value.
pub open spec fn entries_map(s: Seq<(String, Vec<Token>)>) -> Map<Seq<char>, Seq<Token>>
    decreases s.len(),
{
    if s.len() == 0 {
        Map::empty()
    } else {
        entries_map(s.drop_last()).insert(s.last().0@, s.last().1@)
    }
}

/// The map-body parser for `User`: `id` and `username` decode as strings,
/// any other entry's whole value region is buffered under its key.
pub open spec fn user_entries(
    ts: Seq<Token>,
    io: Option<String>,
    uo: Option<String>,
    ex: Map<Seq<char>, Seq<Token>>,
) -> (Result<(String, String, Map<Seq<char>, Seq<Token>>), ErrKind>, int)
    decreases ts.len(),
{
    if ts.len() == 0 {
        (Err(ErrKind::Mismatch), 0)
    } else {
        match ts[0] {
            Token::MapEnd => match (io, uo) {
                (Some(i), Some(u)) => (Ok((i, u, ex)), 1),
                (None, _) => (Err(ErrKind::Missing("id"@)), 0),
                _ => (Err(ErrKind::Missing("username"@)), 0),
            },
            Token::Str(k) => if k@ == "id"@ {
                if io is Some {
                    (Err(ErrKind::Duplicate(k@)), 0)
                } else {
                    let (r, m) = parse_str(ts.skip(1));
                    match r {
                        Ok(v) => if 0 <= m <= ts.len() - 1 {
                            let t = user_entries(ts.skip(1 + m), Some(v), uo, ex);
                            (t.0, 1 + m + t.1)
                        } else {
                            (Err(ErrKind::Mismatch), 0)
                        },
                        Err(k2) => (Err(k2), 0),
                    }
                }
            } else if k@ == "username"@ {
                if uo is Some {
                    (Err(ErrKind::Duplicate(k@)), 0)
                } else {
                    let (r, m) = parse_str(ts.skip(1));
                    match r {
                        Ok(v) => if 0 <= m <= ts.len() - 1 {
                            let t = user_entries(ts.skip(1 + m), io, Some(v), ex);
                            (t.0, 1 + m + t.1)
                        } else {
                            (Err(ErrKind::Mismatch), 0)
                        },
                        Err(k2) => (Err(k2), 0),
                    }
                }
            } else {
                match skip_len(ts.skip(1)) {
                    Some(m) => if 1 <= m <= ts.len() - 1 {
                        let t = user_entries(
                            ts.skip(1 + m),
                            io,
                            uo,
                            ex.insert(k@, ts.subrange(1, 1 + m)),
                        );
                        (t.0, 1 + m + t.1)
                    } else {
                        (Err(ErrKind::Mismatch), 0)
                    },
                    None => (Err(ErrKind::Mismatch), 0),
                }
            },
            _ => (Err(ErrKind::Mismatch), 0),
        }
    }
}

/// The whole decode of a `User`: a map shape.
pub open spec fn user_parse(ts: Seq<Token>) -> (Result<
    (String, String, Map<Seq<char>, Seq<Token>>),
    ErrKind,
>, int) {
    if ts.len() == 0 {
        (Err(ErrKind::Mismatch), 0)
    } else {
        match ts[0] {
            Token::MapStart => {
                let t = user_entries(ts.skip(1), None, None, Map::empty());
                (t.0, 1 + t.1)
            },
            _ => (Err(ErrKind::Mismatch), 0),
        }
    }
}

/// Each buffered key occurs at most once.
pub open spec fn distinct_keys(s: Seq<(String, Vec<Token>)>) -> bool {
    forall|i: int, j: int| 0 <= i < j < s.len() ==> s[i].0@ != s[j].0@
}

/// Replacing the value of the one entry holding a key updates the reduced
/// map exactly as an insert does.
proof fn lemma_entries_map_update(s: Seq<(String, Vec<Token>)>, i: int, k: String, v: Vec<Token>)
    requires
        0 <= i < s.len(),
        s[i].0@ == k@,
        forall|j: int| i < j < s.len() ==> s[j].0@ != k@,
    ensures
        entries_map(s.update(i, (k, v))) == entries_map(s).insert(k@, v@),
    decreases s.len(),
{
    let s2 = s.update(i, (k, v));
    assert(s2.len() == s.len());
    if i == s.len() - 1 {
        assert(s2.drop_last() =~= s.drop_last());
        assert(s2.last() == (k, v));
        assert(entries_map(s.drop_last()).insert(s.last().0@, s.last().1@).insert(k@, v@)
            =~= entries_map(s.drop_last()).insert(k@, v@));
    } else {
        assert(s2.drop_last() =~= s.drop_last().update(i, (k, v)));
        assert(s2.last() == s.last());
        lemma_entries_map_update(s.drop_last(), i, k, v);
        assert(s.last().0@ != k@);
        assert(entries_map(s.drop_last()).insert(k@, v@).insert(s.last().0@, s.last().1@)
            =~= entries_map(s.drop_last()).insert(s.last().0@, s.last().1@).insert(k@, v@));
    }
}

/// Buffers one leftover entry: one entry per key, the later value winning,
/// exactly as the reduced map says.
fn put_extra(m: &mut MyMap<String, Vec<Token>>, k: String, v: Vec<Token>)
    requires
        distinct_keys(old(m)@),
    ensures
        entries_map(final(m)@) == entries_map(old(m)@).insert(k@, v@),
        distinct_keys(final(m)@),
{
    let ghost ev = m@;
    let ghost kv = k@;
    let ghost rv = v@;
    let n = m.len();
    let mut i: usize = 0;
    while i < n
        invariant
            i <= n,
            n == m@.len(),
            m@ == ev,
            ev == old(m)@,
            distinct_keys(ev),
            kv == k@,
            rv == v@,
            forall|j: int| 0 <= j < i ==> ev[j].0@ != kv,
        decreases n - i,
    {
        let hit = str_eq(m.items()[i].0.as_str(), k.as_str());
        if hit {
            proof {
                assert(ev[i as int].0@ == kv);
                assert forall|j: int| i < j < ev.len() implies ev[j].0@ != kv by {
                    assert(ev[i as int].0@ != ev[j].0@ || !(i < j));
                }
            }
            m.set_entry(i, k, v);
            proof {
                lemma_entries_map_update(ev, i as int, (m@[i as int].0), (m@[i as int].1));
                assert(m@[i as int].0@ == kv && m@[i as int].1@ == rv);
                assert(entries_map(m@) =~= entries_map(ev).insert(kv, rv));
                assert forall|a: int, b: int| 0 <= a < b < m@.len() implies m@[a].0@
                    != m@[b].0@ by {
                    assert(a != i as int ==> m@[a] == ev[a]);
                    assert(b != i as int ==> m@[b] == ev[b]);
                }
            }
            return;
        }
        i = i + 1;
    }
    m.insert(k, v);
    proof {
        assert(m@.drop_last() =~= ev);
        assert(m@.last().0@ == kv && m@.last().1@ == rv);
        assert(entries_map(m@) == entries_map(ev).insert(kv, rv));
        assert forall|a: int, b: int| 0 <= a < b < m@.len() implies m@[a].0@ != m@[b].0@ by {
            assert(a < ev.len() ==> m@[a] == ev[a]);
            assert(b < ev.len() ==> m@[b] == ev[b]);
            assert(b == ev.len() ==> m@[b].0@ == kv);
        }
    }
}

impl User {
    /// Decodes a user: both declared fields required, every other entry
    /// buffered into the flattened catch-all under its own key.
    pub fn decode(d: &mut Decoder) -> (r: Result<User, DecodeError>)
        requires
            old(d).wf(),
        ensures
            advanced(*old(d), *final(d)),
            match user_parse(old(d).remaining()).0 {
                Ok(t) => r matches Ok(u) && u.id == t.0 && u.username == t.1 && entries_map(
                    u.extra@,
                ) == t.2,
                Err(k) => r matches Err(e) && e.kind() == k,
            },
            r is Ok ==> final(d).pos_spec() == old(d).pos_spec() + user_parse(
                old(d).remaining(),
            ).1,
    {
        let ghost orig0 = d.remaining();
        let s = d.peek_shape();
        if !matches!(s, Shape::Mapping) {
            return Err(DecodeError::ShapeMismatch {
                expected: "struct User".to_owned(),
                found: s,
            });
        }
        d.advance();
        let ghost orig = d.remaining();
        proof {
            assert(orig =~= orig0.skip(1));
        }
        let ghost t0 = d.toks();
        let ghost p0 = d.pos_spec();
        let mut id_val: Option<String> = None;
        let mut user_val: Option<String> = None;
        let mut extra: MyMap<String, Vec<Token>> = MyMap::with_capacity(0);
        proof {
            assert(entries_map(extra@) =~= Map::<Seq<char>, Seq<Token>>::empty());
        }
        loop
            invariant
                d.wf(),
                d.toks() == t0,
                t0 == old(d).toks(),
                old(d).wf(),
                p0 <= d.pos_spec(),
                0 <= p0,
                orig == t0.skip(p0),
                orig0 == old(d).remaining(),
                orig0.len() > 0,
                orig0[0] is MapStart,
                p0 == old(d).pos_spec() + 1,
                orig == orig0.skip(1),
                user_entries(orig, None, None, Map::empty()).0 == user_entries(
                    d.remaining(),
                    id_val,
                    user_val,
                    entries_map(extra@),
                ).0,
                user_entries(d.remaining(), id_val, user_val, entries_map(extra@)).0 is Ok
                    ==> user_entries(orig, None, None, Map::empty()).1 == (d.pos_spec() - p0)
                    + user_entries(d.remaining(), id_val, user_val, entries_map(extra@)).1,
                distinct_keys(extra@),
            decreases d.toks().len() - d.pos_spec(),
        {
            let ghost cur = d.remaining();
            let ghost ex_now = entries_map(extra@);
            let s = d.peek_shape();
            match s {
                Shape::MapClose => {
                    d.advance();
                    let id = match id_val {
                        Some(v) => v,
                        None => {
                            return Err(DecodeError::MissingField { field: "id".to_owned() });
                        },
                    };
                    let username = match user_val {
                        Some(v) => v,
                        None => {
                            return Err(
                                DecodeError::MissingField { field: "username".to_owned() },
                            );
                        },
                    };
                    return Ok(User { id, username, extra });
                },
                Shape::Text => {
                    let key = match d.decode_identifier() {
                        Ok(k) => k,
                        Err(e) => return Err(e),
                    };
                    proof {
                        assert(d.remaining() =~= cur.skip(1));
                    }
                    if str_eq(key.as_str(), "id") {
                        if id_val.is_some() {
                            return Err(DecodeError::DuplicateField { field: key });
                        }
                        let v = match d.decode_str() {
                            Ok(v) => v,
                            Err(e) => return Err(e),
                        };
                        proof {
                            assert(d.remaining() =~= cur.skip(2));
                        }
                        id_val = Some(v);
                    } else if str_eq(key.as_str(), "username") {
                        if user_val.is_some() {
                            return Err(DecodeError::DuplicateField { field: key });
                        }
                        let v = match d.decode_str() {
                            Ok(v) => v,
                            Err(e) => return Err(e),
                        };
                        proof {
                            assert(d.remaining() =~= cur.skip(2));
                        }
                        user_val = Some(v);
                    } else {
                        let start = d.mark();
                        match skip_value(d) {
                            Ok(()) => (),
                            Err(e) => return Err(e),
                        }
                        let stop = d.mark();
                        let region = d.excerpt(start, stop);
                        proof {
                            lemma_skip_len_bounds(cur.skip(1));
                            let m = skip_len(cur.skip(1))->Some_0;
                            assert(d.remaining() =~= cur.skip(1).skip(m));
                            assert(cur.skip(1).skip(m) =~= cur.skip(1 + m));
                            assert(region@ =~= cur.subrange(1, 1 + m));
                        }
                        put_extra(&mut extra, key, region);
                    }
                },
                _ => {
                    return Err(DecodeError::ShapeMismatch {
                        expected: "struct User".to_owned(),
                        found: s,
                    });
                },
            }
        }
    }
}

/// Page bookkeeping, flattened into its parent's map.
#[derive(Debug, Clone, Copy, PartialEq, Eq, Structural)]
pub struct Pagination {
    pub limit: u64,
    pub offset: u64,
    pub total: u64,
}

/// A page of users whose `pagination` field is not one entry of the parent
/// map: each of its own fields is spliced in as a parent entry. The key
/// ownership is decided per key -- `users` belongs to the parent, `limit`,
/// `offset` and `total` to the flattened struct, and anything else is
/// ignored.
#[derive(Debug, Clone, PartialEq, Eq)]
pub struct Users {
    pub users: Vec<User>,
    pub pagination: Pagination,
}

/// The element fold of a sequence of users.
pub open spec fn users_rec(
    ts: Seq<Token>,
    acc: Seq<(String, String, Map<Seq<char>, Seq<Token>>)>,
) -> (Result<Seq<(String, String, Map<Seq<char>, Seq<Token>>)>, ErrKind>, int)
    decreases ts.len(),
{
    if ts.len() == 0 {
        (Err(ErrKind::Mismatch), 0)
    } else if ts[0] is SeqEnd {
        (Ok(acc), 1)
    } else {
        let (r, m) = user_parse(ts);
        match r {
            Err(k) => (Err(k), 0),
            Ok(t) => if 1 <= m <= ts.len() {
                let rest = users_rec(ts.skip(m), acc.push(t));
                (rest.0, m + rest.1)
            } else {
                (Err(ErrKind::Mismatch), 0)
            },
        }
    }
}

/// The whole decode of a sequence of users.
pub open spec fn users_seq_parse(ts: Seq<Token>) -> (Result<
    Seq<(String, String, Map<Seq<char>, Seq<Token>>)>,
    ErrKind,
>, int) {
    if ts.len() == 0 {
        (Err(ErrKind::Mismatch), 0)
    } else {
        match ts[0] {
            Token::SeqStart => {
                let t = users_rec(ts.skip(1), Seq::empty());
                (t.0, 1 + t.1)
            },
            _ => (Err(ErrKind::Mismatch), 0),
        }
    }
}

/// A decoded user matches a parse output.
pub open spec fn user_models(u: User, t: (String, String, Map<Seq<char>, Seq<Token>>)) -> bool {
    &&& u.id == t.0
    &&& u.username == t.1
    &&& entries_map(u.extra@) == t.2
}

/// The parse outputs a vector of users stands for.
pub open spec fn users_model(v: Seq<User>) -> Seq<(String, String, Map<Seq<char>, Seq<Token>>)> {
    v.map_values(|u: User| (u.id, u.username, entries_map(u.extra@)))
}

/// Decodes a sequence of users into a vector.
fn decode_users_vec(d: &mut Decoder) -> (r: Result<Vec<User>, DecodeError>)
    requires
        old(d).wf(),
    ensures
        advanced(*old(d), *final(d)),
        r matches Ok(v) ==> users_seq_parse(old(d).remaining()).0 == Ok::<
            Seq<(String, String, Map<Seq<char>, Seq<Token>>)>,
            ErrKind,
        >(users_model(v@)) && final(d).pos_spec() == old(d).pos_spec() + users_seq_parse(
            old(d).remaining(),
        ).1,
        r matches Err(e) ==> (users_seq_parse(old(d).remaining()).0 matches Err(k) && e.kind()
            == k),
{
    let ghost orig0 = d.remaining();
    let s = d.peek_shape();
    if !matches!(s, Shape::Sequence) {
        return Err(DecodeError::ShapeMismatch {
            expected: "a sequence of users".to_owned(),
            found: s,
        });
    }
    d.advance();
    let ghost orig = d.remaining();
    proof {
        assert(orig =~= orig0.skip(1));
        assert(users_model(Seq::<User>::empty()) =~= Seq::<
            (String, String, Map<Seq<char>, Seq<Token>>),
        >::empty());
    }
    let ghost t0 = d.toks();
    let ghost p0 = d.pos_spec();
    let mut out: Vec<User> = Vec::new();
    loop
        invariant
            d.wf(),
            d.toks() == t0,
            t0 == old(d).toks(),
            old(d).wf(),
            p0 <= d.pos_spec(),
            0 <= p0,
            orig == t0.skip(p0),
            orig0 == old(d).remaining(),
            orig0.len() > 0,
            orig0[0] is SeqStart,
            p0 == old(d).pos_spec() + 1,
            orig == orig0.skip(1),
            users_rec(orig, Seq::empty()).0 == users_rec(d.remaining(), users_model(out@)).0,
            users_rec(d.remaining(), users_model(out@)).0 is Ok ==> users_rec(
                orig,
                Seq::empty(),
            ).1 == (d.pos_spec() - p0) + users_rec(d.remaining(), users_model(out@)).1,
        decreases d.toks().len() - d.pos_spec(),
    {
        let ghost cur = d.remaining();
        let s = d.peek_shape();
        if matches!(s, Shape::SeqClose) {
            d.advance();
            return Ok(out);
        }
        if matches!(s, Shape::Eof) {
            return Err(DecodeError::ShapeMismatch {
                expected: "a sequence of users".to_owned(),
                found: Shape::Eof,
            });
        }
        let p_before = d.mark();
        let u = match User::decode(d) {
            Ok(u) => u,
            Err(e) => return Err(e),
        };
        let ghost m = user_parse(cur).1;
        proof {
            assert(d.remaining() =~= cur.skip(m));
        }
        if d.mark() == p_before {
            // a decode that consumed nothing would loop forever; no user
            // occupies zero tokens
            return Err(DecodeError::ShapeMismatch {
                expected: "a progressing sequence of users".to_owned(),
                found: s,
            });
        }
        let ghost before = out@;
        out.push(u);
        proof {
            assert(users_model(out@) =~= users_model(before).push(
                (out@.last().id, out@.last().username, entries_map(out@.last().extra@)),
            ));
        }
    }
}

/// The map-body parser for `Users`: `users` belongs to the parent, the
/// three pagination keys to the flattened struct, and any other key is
/// ignored. All four are required: a flattened field's keys are as
/// mandatory as the parent's own.
pub open spec fn users_entries(
    ts: Seq<Token>,
    uo: Option<Seq<(String, String, Map<Seq<char>, Seq<Token>>)>>,
    lo: Option<u64>,
    oo: Option<u64>,
    to: Option<u64>,
) -> (Result<
    (Seq<(String, String, Map<Seq<char>, Seq<Token>>)>, (u64, u64, u64)),
    ErrKind,
>, int)
    decreases ts.len(),
{
    if ts.len() == 0 {
        (Err(ErrKind::Mismatch), 0)
    } else {
        match ts[0] {
            Token::MapEnd => match (uo, lo, oo, to) {
                (Some(u), Some(l), Some(o), Some(t)) => (Ok((u, (l, o, t))), 1),
                (None, _, _, _) => (Err(ErrKind::Missing("users"@)), 0),
                (_, None, _, _) => (Err(ErrKind::Missing("limit"@)), 0),
                (_, _, None, _) => (Err(ErrKind::Missing("offset"@)), 0),
                _ => (Err(ErrKind::Missing("total"@)), 0),
            },
            Token::Str(k) => if k@ == "users"@ {
                if uo is Some {
                    (Err(ErrKind::Duplicate(k@)), 0)
                } else {
                    let (r, m) = users_seq_parse(ts.skip(1));
                    match r {
                        Ok(v) => if 0 <= m <= ts.len() - 1 {
                            let t = users_entries(ts.skip(1 + m), Some(v), lo, oo, to);
                            (t.0, 1 + m + t.1)
                        } else {
                            (Err(ErrKind::Mismatch), 0)
                        },
                        Err(k2) => (Err(k2), 0),
                    }
                }
            } else if k@ == "limit"@ {
                if lo is Some {
                    (Err(ErrKind::Duplicate(k@)), 0)
                } else {
                    let (r, m) = crate::decoder::parse_u64(ts.skip(1));
                    match r {
                        Ok(v) => if 0 <= m <= ts.len() - 1 {
                            let t = users_entries(ts.skip(1 + m), uo, Some(v), oo, to);
                            (t.0, 1 + m + t.1)
                        } else {
                            (Err(ErrKind::Mismatch), 0)
                        },
                        Err(k2) => (Err(k2), 0),
                    }
                }
            } else if k@ == "offset"@ {
                if oo is Some {
                    (Err(ErrKind::Duplicate(k@)), 0)
                } else {
                    let (r, m) = crate::decoder::parse_u64(ts.skip(1));
                    match r {
                        Ok(v) => if 0 <= m <= ts.len() - 1 {
                            let t = users_entries(ts.skip(1 + m), uo, lo, Some(v), to);
                            (t.0, 1 + m + t.1)
                        } else {
                            (Err(ErrKind::Mismatch), 0)
                        },
                        Err(k2) => (Err(k2), 0),
                    }
                }
            } else if k@ == "total"@ {
                if to is Some {
                    (Err(ErrKind::Duplicate(k@)), 0)
                } else {
                    let (r, m) = crate::decoder::parse_u64(ts.skip(1));
                    match r {
                        Ok(v) => if 0 <= m <= ts.len() - 1 {
                            let t = users_entries(ts.skip(1 + m), uo, lo, oo, Some(v));
                            (t.0, 1 + m + t.1)
                        } else {
                            (Err(ErrKind::Mismatch), 0)
                        },
                        Err(k2) => (Err(k2), 0),
                    }
                }
            } else {
                match skip_len(ts.skip(1)) {
                    Some(m) => if 1 <= m <= ts.len() - 1 {
                        let t = users_entries(ts.skip(1 + m), uo, lo, oo, to);
                        (t.0, 1 + m + t.1)
                    } else {
                        (Err(ErrKind::Mismatch), 0)
                    },
                    None => (Err(ErrKind::Mismatch), 0),
                }
            },
            _ => (Err(ErrKind::Mismatch), 0),
        }
    }
}

/// The whole decode of a `Users` page: a map shape.
pub open spec fn users_parse(ts: Seq<Token>) -> (Result<
    (Seq<(String, String, Map<Seq<char>, Seq<Token>>)>, (u64, u64, u64)),
    ErrKind,
>, int) {
    if ts.len() == 0 {
        (Err(ErrKind::Mismatch), 0)
    } else {
        match ts[0] {
            Token::MapStart => {
                let t = users_entries(ts.skip(1), None, None, None, None);
                (t.0, 1 + t.1)
            },
            _ => (Err(ErrKind::Mismatch), 0),
        }
    }
}

impl Users {
    /// Decodes a page: the `users` entry for the parent, the three
    /// pagination entries spliced out of the same map for the flattened
    /// field, in any key order.
    pub fn decode(d: &mut Decoder) -> (r: Result<Users, DecodeError>)
        requires
            old(d).wf(),
        ensures
            advanced(*old(d), *final(d)),
            match users_parse(old(d).remaining()).0 {
                Ok(t) => r matches Ok(us) && users_model(us.users@) == t.0 && us.pagination
                    == (Pagination { limit: t.1.0, offset: t.1.1, total: t.1.2 }),
                Err(k) => r matches Err(e) && e.kind() == k,
            },
            r is Ok ==> final(d).pos_spec() == old(d).pos_spec() + users_parse(
                old(d).remaining(),
            ).1,
    {
        let ghost orig0 = d.remaining();
        let s = d.peek_shape();
        if !matches!(s, Shape::Mapping) {
            return Err(DecodeError::ShapeMismatch {
                expected: "struct Users".to_owned(),
                found: s,
            });
        }
        d.advance();
        let ghost orig = d.remaining();
        proof {
            assert(orig =~= orig0.skip(1));
        }
        let ghost t0 = d.toks();
        let ghost p0 = d.pos_spec();
        let mut users_val: Option<Vec<User>> = None;
        let mut limit_val: Option<u64> = None;
        let mut offset_val: Option<u64> = None;
        let mut total_val: Option<u64> = None;
        loop
            invariant
                d.wf(),
                d.toks() == t0,
                t0 == old(d).toks(),
                old(d).wf(),
                p0 <= d.pos_spec(),
                0 <= p0,
                orig == t0.skip(p0),
                orig0 == old(d).remaining(),
                orig0.len() > 0,
                orig0[0] is MapStart,
                p0 == old(d).pos_spec() + 1,
                orig == orig0.skip(1),
                users_entries(orig, None, None, None, None).0 == users_entries(
                    d.remaining(),
                    opt_users(users_val),
                    limit_val,
                    offset_val,
                    total_val,
                ).0,
                users_entries(
                    d.remaining(),
                    opt_users(users_val),
                    limit_val,
                    offset_val,
                    total_val,
                ).0 is Ok ==> users_entries(orig, None, None, None, None).1 == (d.pos_spec()
                    - p0) + users_entries(
                    d.remaining(),
                    opt_users(users_val),
                    limit_val,
                    offset_val,
                    total_val,
                ).1,
            decreases d.toks().len() - d.pos_spec(),
        {
            let ghost cur = d.remaining();
            let s = d.peek_shape();
            match s {
                Shape::MapClose => {
                    d.advance();
                    let users = match users_val {
                        Some(v) => v,
                        None => {
                            return Err(
                                DecodeError::MissingField { field: "users".to_owned() },
                            );
                        },
                    };
                    let limit = match limit_val {
                        Some(v) => v,
                        None => {
                            return Err(
                                DecodeError::MissingField { field: "limit".to_owned() },
                            );
                        },
                    };
                    let offset = match offset_val {
                        Some(v) => v,
                        None => {
                            return Err(
                                DecodeError::MissingField { field: "offset".to_owned() },
                            );
                        },
                    };
                    let total = match total_val {
                        Some(v) => v,
                        None => {
                            return Err(
                                DecodeError::MissingField { field: "total".to_owned() },
                            );
                        },
                    };
                    return Ok(Users { users, pagination: Pagination { limit, offset, total } });
                },
                Shape::Text => {
                    let key = match d.decode_identifier() {
                        Ok(k) => k,
                        Err(e) => return Err(e),
                    };
                    proof {
                        assert(d.remaining() =~= cur.skip(1));
                    }
                    if str_eq(key.as_str(), "users") {
                        if users_val.is_some() {
                            return Err(DecodeError::DuplicateField { field: key });
                        }
                        let ghost before = d.remaining();
                        let v = match decode_users_vec(d) {
                            Ok(v) => v,
                            Err(e) => return Err(e),
                        };
                        proof {
                            let m = users_seq_parse(before).1;
                            assert(d.remaining() =~= cur.skip(1).skip(m));
                            assert(cur.skip(1).skip(m) =~= cur.skip(1 + m));
                        }
                        users_val = Some(v);
                    } else if str_eq(key.as_str(), "limit") {
                        if limit_val.is_some() {
                            return Err(DecodeError::DuplicateField { field: key });
                        }
                        let v = match d.decode_u64() {
                            Ok(v) => v,
                            Err(e) => return Err(e),
                        };
                        proof {
                            assert(d.remaining() =~= cur.skip(2));
                        }
                        limit_val = Some(v);
                    } else if str_eq(key.as_str(), "offset") {
                        if offset_val.is_some() {
                            return Err(DecodeError::DuplicateField { field: key });
                        }
                        let v = match d.decode_u64() {
                            Ok(v) => v,
                            Err(e) => return Err(e),
                        };
                        proof {
                            assert(d.remaining() =~= cur.skip(2));
                        }
                        offset_val = Some(v);
                    } else if str_eq(key.as_str(), "total") {
                        if total_val.is_some() {
                            return Err(DecodeError::DuplicateField { field: key });
                        }
                        let v = match d.decode_u64() {
                            Ok(v) => v,
                            Err(e) => return Err(e),
                        };
                        proof {
                            assert(d.remaining() =~= cur.skip(2));
                        }
                        total_val = Some(v);
                    } else {
                        match skip_value(d) {
                            Ok(()) => (),
                            Err(e) => return Err(e),
                        }
                        proof {
                            lemma_skip_len_bounds(cur.skip(1));
                            if skip_len(cur.skip(1)) is Some {
                                let m = skip_len(cur.skip(1))->Some_0;
                                assert(d.remaining() =~= cur.skip(1).skip(m));
                                assert(cur.skip(1).skip(m) =~= cur.skip(1 + m));
                            }
                        }
                    }
                },
                _ => {
                    return Err(DecodeError::ShapeMismatch {
                        expected: "struct Users".to_owned(),
                        found: s,
                    });
                },
            }
        }
    }
}

/// The parse outputs a seen user vector stands for, if one was seen yet.
pub open spec fn opt_users(o: Option<Vec<User>>) -> Option<
    Seq<(String, String, Map<Seq<char>, Seq<Token>>)>,
> {
    match o {
        Some(v) => Some(users_model(v@)),
        None => None,
    }
}

/// One whole map entry as tokens: a key and exactly one whole value.
pub open spec fn is_entry(b: Seq<Token>) -> bool {
    &&& b.len() >= 2
    &&& b[0] is Str
    &&& skip_len(b.skip(1)) == Some(b.len() - 1)
}

/// The key of an entry, in character form.
pub open spec fn entry_key(b: Seq<Token>) -> Seq<char> {
    b[0]->Str_0@
}

/// The effect of one entry on the parser's state: an error, or the updated
/// fields and catch-all.
pub open spec fn entry_step(
    b: Seq<Token>,
    io: Option<String>,
    uo: Option<String>,
    ex: Map<Seq<char>, Seq<Token>>,
) -> Result<(Option<String>, Option<String>, Map<Seq<char>, Seq<Token>>), ErrKind> {
    let k = entry_key(b);
    if k == "id"@ {
        if io is Some {
            Err(ErrKind::Duplicate(k))
        } else {
            match parse_str(b.skip(1)).0 {
                Ok(s) => Ok((Some(s), uo, ex)),
                Err(kk) => Err(kk),
            }
        }
    } else if k == "username"@ {
        if uo is Some {
            Err(ErrKind::Duplicate(k))
        } else {
            match parse_str(b.skip(1)).0 {
                Ok(s) => Ok((io, Some(s), ex)),
                Err(kk) => Err(kk),
            }
        }
    } else {
        Ok((io, uo, ex.insert(k, b.skip(1))))
    }
}

/// Processing one whole entry at the head of the input either fails with
/// that entry's own error, or suspends the parse at the rest of the input
/// with the state the entry's effect gives.
pub proof fn lemma_user_entry_step(
    b: Seq<Token>,
    rest: Seq<Token>,
    io: Option<String>,
    uo: Option<String>,
    ex: Map<Seq<char>, Seq<Token>>,
)
    requires
        is_entry(b),
    ensures
        entry_step(b, io, uo, ex) matches Err(k) ==> user_entries(b + rest, io, uo, ex).0
            == Err::<(String, String, Map<Seq<char>, Seq<Token>>), ErrKind>(k),
        entry_step(b, io, uo, ex) matches Ok(st) ==> {
            &&& user_entries(b + rest, io, uo, ex).0 == user_entries(rest, st.0, st.1, st.2).0
            &&& (user_entries(rest, st.0, st.1, st.2).0 is Ok ==> user_entries(
                b + rest,
                io,
                uo,
                ex,
            ).1 == b.len() + user_entries(rest, st.0, st.1, st.2).1)
        },
{
    let full = b + rest;
    assert(full[0] == b[0]);
    assert(full.skip(1) =~= b.skip(1) + rest);
    lemma_skip_len_bounds(b.skip(1));
    lemma_skip_len_extend(b.skip(1), rest);
    let k = entry_key(b);
    assert(skip_len(full.skip(1)) == Some(b.len() - 1));
    if k == "id"@ || k == "username"@ {
        if (k == "id"@ && io is None) || (k == "username"@ && uo is None) {
            let (r, m) = parse_str(full.skip(1));
            assert(full.skip(1)[0] == b[1]);
            assert(parse_str(b.skip(1)).0 == r);
            match r {
                Ok(s) => {
                    // a single string token is the whole value
                    assert(b[1] is Str);
                    assert(skip_len(b.skip(1)) == Some(1int));
                    assert(b.len() == 2);
                    assert(full.skip(2) =~= rest);
                },
                Err(kk) => {},
            }
        }
    } else {
        assert(full.subrange(1, b.len() as int) =~= b.skip(1));
        assert(full.skip(b.len() as int) =~= rest);
    }
}

/// Two adjacent entries with different keys can stand in either order: any
/// decode that succeeds in one order succeeds in the other, with the same
/// result and the same consumption. Repeated swaps reorder a whole map, so
/// the order of keys in the input does not affect a successful result.
pub proof fn lemma_user_entry_swap(
    b1: Seq<Token>,
    b2: Seq<Token>,
    rest: Seq<Token>,
    io: Option<String>,
    uo: Option<String>,
    ex: Map<Seq<char>, Seq<Token>>,
)
    requires
        is_entry(b1),
        is_entry(b2),
        entry_key(b1) != entry_key(b2),
        user_entries(b1 + b2 + rest, io, uo, ex).0 is Ok || user_entries(
            b2 + b1 + rest,
            io,
            uo,
            ex,
        ).0 is Ok,
    ensures
        user_entries(b1 + b2 + rest, io, uo, ex) == user_entries(b2 + b1 + rest, io, uo, ex),
{
    assert(b1 + b2 + rest =~= b1 + (b2 + rest));
    assert(b2 + b1 + rest =~= b2 + (b1 + rest));
    lemma_user_entry_step(b1, b2 + rest, io, uo, ex);
    lemma_user_entry_step(b2, b1 + rest, io, uo, ex);
    let s1 = entry_step(b1, io, uo, ex);
    let s2 = entry_step(b2, io, uo, ex);
    if user_entries(b1 + b2 + rest, io, uo, ex).0 is Ok {
        let st1 = s1->Ok_0;
        lemma_user_entry_step(b2, rest, st1.0, st1.1, st1.2);
        let st12 = entry_step(b2, st1.0, st1.1, st1.2)->Ok_0;
        // the first entry neither sets nor reads what the second touches
        let st2 = s2->Ok_0;
        lemma_user_entry_step(b1, rest, st2.0, st2.1, st2.2);
        let st21 = entry_step(b1, st2.0, st2.1, st2.2)->Ok_0;
        assert(st12.2 =~= st21.2);
        assert(st12 == st21);
    } else {
        let st2 = s2->Ok_0;
        lemma_user_entry_step(b1, rest, st2.0, st2.1, st2.2);
        let st21 = entry_step(b1, st2.0, st2.1, st2.2)->Ok_0;
        let st1 = s1->Ok_0;
        lemma_user_entry_step(b2, rest, st1.0, st1.1, st1.2);
        let st12 = entry_step(b2, st1.0, st1.1, st1.2)->Ok_0;
        assert(st12.2 =~= st21.2);
        assert(st12 == st21);
    }
}

} // verus!

//! Discarding one value: consume it fully, keep nothing.
//!
//! Skipping a value still has to consume it completely, so that the cursor
//! stays correctly positioned for whatever follows at the same nesting
//! level. [`skip_len`] is the specification: the length of the unique
//! well-formed value at the head of a token sequence, if there is one.
//! [`skip_value`] is the executable counterpart; it succeeds exactly where
//! `skip_len` is defined and consumes exactly that many tokens.

use vstd::prelude::*;

use crate::decoder::{advanced, Decoder};
use crate::token::{DecodeError, ErrKind, Shape, Token};

verus! {

/// The number of tokens making up the single value at the head of `ts`,
/// or `None` if no well-formed value starts there.
pub open spec fn skip_len(ts: Seq<Token>) -> Option<int>
    decreases ts.len(), 0int,
{
    if ts.len() == 0 {
        None
    } else {
        match ts[0] {
            Token::Bool(_) => Some(1),
            Token::Int(_) => Some(1),
            Token::Str(_) => Some(1),
            Token::Unit => Some(1),
            Token::SeqStart => match skip_items(ts.skip(1), false) {
                Some(n) => Some(1 + n),
                None => None,
            },
            Token::MapStart => match skip_items(ts.skip(1), true) {
                Some(n) => Some(1 + n),
                None => None,
            },
            Token::SeqEnd => None,
            Token::MapEnd => None,
        }
    }
}

/// The number of tokens from the inside of an open aggregate up to and
/// including its closing token: a run of whole values, then the close.
pub open spec fn skip_items(ts: Seq<Token>, in_map: bool) -> Option<int>
    decreases ts.len(), 1int,
{
    if ts.len() == 0 {
        None
    } else if in_map && ts[0] is MapEnd {
        Some(1)
    } else if !in_map && ts[0] is SeqEnd {
        Some(1)
    } else {
        match skip_len(ts) {
            None => None,
            Some(n) => if 1 <= n <= ts.len() {
                match skip_items(ts.skip(n), in_map) {
                    None => None,
                    Some(m) => Some(n + m),
                }
            } else {
                None
            },
        }
    }
}

/// A value occupies at least one token and no more than the whole input.
pub proof fn lemma_skip_len_bounds(ts: Seq<Token>)
    ensures
        skip_len(ts) matches Some(n) ==> 1 <= n <= ts.len(),
    decreases ts.len(), 0int,
{
    if ts.len() > 0 {
        match ts[0] {
            Token::SeqStart => lemma_skip_items_bounds(ts.skip(1), false),
            Token::MapStart => lemma_skip_items_bounds(ts.skip(1), true),
            _ => (),
        }
    }
}

/// The run of items of an open aggregate spans at least its closing token.
pub proof fn lemma_skip_items_bounds(ts: Seq<Token>, in_map: bool)
    ensures
        skip_items(ts, in_map) matches Some(n) ==> 1 <= n <= ts.len(),
    decreases ts.len(), 1int,
{
    if ts.len() == 0 {
    } else if in_map && ts[0] is MapEnd {
    } else if !in_map && ts[0] is SeqEnd {
    } else {
        lemma_skip_len_bounds(ts);
        match skip_len(ts) {
            Some(n) => if 1 <= n <= ts.len() {
                lemma_skip_items_bounds(ts.skip(n), in_map);
            },
            None => (),
        }
    }
}

/// What a value at the head of a sequence occupies does not depend on what
/// follows it: extending the input cannot change a successful skip.
pub proof fn lemma_skip_len_extend(ts: Seq<Token>, rest: Seq<Token>)
    ensures
        skip_len(ts) matches Some(n) ==> skip_len(ts + rest) == Some(n),
    decreases ts.len(), 0int,
{
    if skip_len(ts) matches Some(n) {
        assert(ts.len() > 0);
        assert((ts + rest)[0] == ts[0]);
        match ts[0] {
            Token::SeqStart => {
                lemma_skip_items_extend(ts.skip(1), rest, false);
                assert(ts.skip(1) + rest =~= (ts + rest).skip(1));
            },
            Token::MapStart => {
                lemma_skip_items_extend(ts.skip(1), rest, true);
                assert(ts.skip(1) + rest =~= (ts + rest).skip(1));
            },
            _ => (),
        }
    }
}

/// The companion of `lemma_skip_len_extend` for a run of aggregate items.
pub proof fn lemma_skip_items_extend(ts: Seq<Token>, rest: Seq<Token>, in_map: bool)
    ensures
        skip_items(ts, in_map) matches Some(n) ==> skip_items(ts + rest, in_map) == Some(n),
    decreases ts.len(), 1int,
{
    if skip_items(ts, in_map) matches Some(total) {
        assert(ts.len() > 0);
        assert((ts + rest)[0] == ts[0]);
        if in_map && ts[0] is MapEnd {
        } else if !in_map && ts[0] is SeqEnd {
        } else {
            lemma_skip_len_extend(ts, rest);
            let n = skip_len(ts)->Some_0;
            assert(1 <= n <= ts.len());
            lemma_skip_items_extend(ts.skip(n), rest, in_map);
            assert(ts.skip(n) + rest =~= (ts + rest).skip(n));
            lemma_skip_items_bounds(ts.skip(n), in_map);
        }
    }
}

/// Consumes exactly one whole value, of any shape, and discards it.
///
/// This is the universal skip path: it succeeds exactly when a well-formed
/// value starts at the cursor, and then consumes exactly that value.
pub fn skip_value(d: &mut Decoder) -> (r: Result<(), DecodeError>)
    requires
        old(d).wf(),
    ensures
        advanced(*old(d), *final(d)),
        match skip_len(old(d).remaining()) {
            Some(n) => r is Ok && final(d).pos_spec() == old(d).pos_spec() + n,
            None => r is Err && (r matches Err(e) ==> e.kind() == ErrKind::Mismatch),
        },
    decreases old(d).toks().len() - old(d).pos_spec(), 0int,
{
    let ghost ts = d.remaining();
    let s = d.peek_shape();
    match s {
        Shape::Bool | Shape::Integer | Shape::Text | Shape::Unit => {
            d.advance();
            Ok(())
        },
        Shape::Sequence => {
            d.advance();
            proof {
                assert(d.remaining() =~= ts.skip(1));
            }
            skip_run(d, false)
        },
        Shape::Mapping => {
            d.advance();
            proof {
                assert(d.remaining() =~= ts.skip(1));
            }
            skip_run(d, true)
        },
        Shape::SeqClose | Shape::MapClose | Shape::Eof => Err(DecodeError::ShapeMismatch {
            expected: "a value to discard".to_owned(),
            found: s,
        }),
    }
}

/// Discards the rest of an open aggregate: whole values until (and
/// including) the matching closing token.
pub fn skip_run(d: &mut Decoder, in_map: bool) -> (r: Result<(), DecodeError>)
    requires
        old(d).wf(),
    ensures
        advanced(*old(d), *final(d)),
        match skip_items(old(d).remaining(), in_map) {
            Some(n) => r is Ok && final(d).pos_spec() == old(d).pos_spec() + n,
            None => r is Err && (r matches Err(e) ==> e.kind() == ErrKind::Mismatch),
        },
    decreases old(d).toks().len() - old(d).pos_spec(), 1int,
{
    let ghost ts = d.remaining();
    let s = d.peek_shape();
    if (in_map && matches!(s, Shape::MapClose)) || (!in_map && matches!(s, Shape::SeqClose)) {
        d.advance();
        Ok(())
    } else if matches!(s, Shape::Eof) {
        Err(DecodeError::ShapeMismatch {
            expected: "the end of an aggregate".to_owned(),
            found: s,
        })
    } else {
        match skip_value(d) {
            Ok(()) => {
                proof {
                    lemma_skip_len_bounds(ts);
                    if skip_len(ts) is Some {
                        let n = skip_len(ts)->Some_0;
                        assert(d.remaining() =~= ts.skip(n));
                    }
                }
                skip_run(d, in_map)
            },
            Err(e) => Err(e),
        }
    }
}

/// The universal discarding visitor: it accepts any shape, consumes it
/// fully, and keeps nothing. Used to skip elements and entries that are not
/// of interest while leaving the cursor correctly positioned.
pub struct Discard;

impl crate::visitor::Visitor for Discard {
    type Value = ();

    open spec fn bool_spec(self, b: bool) -> Result<(), ErrKind> {
        Ok(())
    }

    open spec fn int_spec(self, i: i128) -> Result<(), ErrKind> {
        Ok(())
    }

    open spec fn str_spec(self, s: String) -> Result<(), ErrKind> {
        Ok(())
    }

    open spec fn unit_spec(self) -> Result<(), ErrKind> {
        Ok(())
    }

    open spec fn seq_ok(self, ts: Seq<Token>, v: (), n: int) -> bool {
        skip_items(ts, false) == Some(n)
    }

    open spec fn seq_err(self, ts: Seq<Token>, k: ErrKind) -> bool {
        skip_items(ts, false) is None && k == ErrKind::Mismatch
    }

    open spec fn map_ok(self, ts: Seq<Token>, v: (), n: int) -> bool {
        skip_items(ts, true) == Some(n)
    }

    open spec fn map_err(self, ts: Seq<Token>, k: ErrKind) -> bool {
        skip_items(ts, true) is None && k == ErrKind::Mismatch
    }

    open spec fn expecting_spec(self) -> Seq<char> {
        "any value, to be discarded"@
    }

    fn expecting(&self) -> (r: String) {
        "any value, to be discarded".to_owned()
    }

    fn visit_bool(self, b: bool) -> (r: Result<(), DecodeError>) {
        Ok(())
    }

    fn visit_int(self, i: i128) -> (r: Result<(), DecodeError>) {
        Ok(())
    }

    fn visit_str(self, s: String) -> (r: Result<(), DecodeError>) {
        Ok(())
    }

    fn visit_unit(self) -> (r: Result<(), DecodeError>) {
        Ok(())
    }

    fn visit_seq(self, d: &mut Decoder) -> (r: Result<(), DecodeError>) {
        skip_run(d, false)
    }

    fn visit_map(self, d: &mut Decoder) -> (r: Result<(), DecodeError>) {
        skip_run(d, true)
    }
}

} // verus!


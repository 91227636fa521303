//! Custom decodes that sidestep the usual entry points.
//!
//! [`deserialize_from_str`] decodes a value by reading a string and then
//! interpreting it as a decimal number -- the hand-written strategy for
//! types whose wire form is text. [`Ptr`] is a pointer that may or may not
//! own its data; decoding always produces owned data.

use vstd::prelude::*;
use vstd::string::StrSliceExecFns;

use crate::decode::Decode;
use crate::decoder::{advanced, parse_str, Decoder};
use crate::token::{DecodeError, ErrKind};

verus! {

/// A decimal digit, by code point.
pub open spec fn is_dec_digit(c: char) -> bool {
    48 <= c as u32 <= 57
}

/// The number a string of decimal digits denotes.
pub open spec fn dec_val(s: Seq<char>) -> int
    decreases s.len(),
{
    if s.len() == 0 {
        0
    } else {
        dec_val(s.drop_last()) * 10 + (s.last() as u32 - 48)
    }
}

/// The digits of a numeral: everything after one optional leading plus
/// sign, which an unsigned from-string conversion accepts.
pub open spec fn num_body(s: Seq<char>) -> Seq<char> {
    if s.len() >= 1 && s[0] as u32 == 43 {
        s.skip(1)
    } else {
        s
    }
}

/// A string that denotes a `u64`: an optional leading plus sign, then a
/// nonempty run of digits whose value fits.
pub open spec fn dec_str_valid(s: Seq<char>) -> bool {
    &&& num_body(s).len() > 0
    &&& (forall|i: int| 0 <= i < num_body(s).len() ==> is_dec_digit(num_body(s)[i]))
    &&& dec_val(num_body(s)) <= u64::MAX
}

/// A digit string's value is never negative.
pub proof fn lemma_dec_val_nonneg(s: Seq<char>)
    requires
        forall|i: int| 0 <= i < s.len() ==> is_dec_digit(s[i]),
    ensures
        dec_val(s) >= 0,
    decreases s.len(),
{
    if s.len() > 0 {
        lemma_dec_val_nonneg(s.drop_last());
    }
}

/// Extending a digit string can only grow its value.
pub proof fn lemma_dec_val_prefix(s: Seq<char>, i: int)
    requires
        forall|j: int| 0 <= j < s.len() ==> is_dec_digit(s[j]),
        0 <= i <= s.len(),
    ensures
        dec_val(s.take(i)) <= dec_val(s),
    decreases s.len() - i,
{
    if i < s.len() {
        lemma_dec_val_prefix(s, i + 1);
        lemma_dec_val_nonneg(s.take(i));
        assert(s.take(i + 1).drop_last() =~= s.take(i));
        assert(s.take(i + 1).last() == s[i]);
        assert(dec_val(s.take(i)) <= dec_val(s.take(i + 1)));
    } else {
        assert(s.take(i) =~= s);
    }
}

/// Reads a whole string as a decimal `u64`. Succeeds exactly on an
/// optional leading plus sign followed by a nonempty run of digits whose
/// value fits; anything else is a conversion failure.
pub fn parse_dec_u64(s: &str) -> (r: Result<u64, DecodeError>)
    ensures
        dec_str_valid(s@) ==> r == Ok::<u64, DecodeError>((dec_val(num_body(s@)) as u64)),
        !dec_str_valid(s@) ==> (r matches Err(e) && e.kind() == ErrKind::Custom),
{
    let n = s.unicode_len();
    let mut start: usize = 0;
    if n >= 1 {
        let c0 = s.get_char(0);
        if c0 as u32 == 43 {
            start = 1;
        }
    }
    let ghost body = num_body(s@);
    proof {
        if start == 1 {
            assert(body =~= s@.skip(1));
        } else {
            assert(body =~= s@);
        }
    }
    if start == n {
        return Err(DecodeError::Custom {
            message: "no digits in the number".to_owned(),
        });
    }
    let mut acc: u64 = 0;
    let mut i: usize = start;
    proof {
        assert(body.take(0) =~= Seq::<char>::empty());
    }
    while i < n
        invariant
            start <= i <= n,
            start <= 1,
            n as nat == s@.len(),
            body == num_body(s@),
            body.len() == n - start,
            forall|j: int| start <= j < i ==> #[trigger] s@[j] == body[j - start],
            forall|j: int| 0 <= j < i - start ==> is_dec_digit(body[j]),
            acc as int == dec_val(body.take(i - start)),
        decreases n - i,
    {
        proof {
            if start == 1 {
                assert(s@[i as int] == s@.skip(1)[i - 1]);
            }
        }
        let c = s.get_char(i);
        let x = c as u32;
        if !(48 <= x && x <= 57) {
            proof {
                assert(!is_dec_digit(body[i - start]));
            }
            return Err(DecodeError::Custom { message: "not a decimal digit".to_owned() });
        }
        let digit = (x - 48) as u64;
        proof {
            assert(is_dec_digit(body[i - start]));
            assert(body.take(i - start + 1).drop_last() =~= body.take(i - start));
            assert(body.take(i - start + 1).last() == body[i - start]);
            lemma_dec_val_nonneg(body.take(i - start));
        }
        if acc > (u64::MAX - digit) / 10 {
            proof {
                assert(acc as int * 10 + digit as int > u64::MAX);
                assert(dec_val(body.take(i - start + 1)) > u64::MAX);
                if forall|j: int| 0 <= j < body.len() ==> is_dec_digit(body[j]) {
                    lemma_dec_val_prefix(body, i - start + 1);
                }
            }
            return Err(DecodeError::Custom {
                message: "the number does not fit in the target".to_owned(),
            });
        }
        acc = acc * 10 + digit;
        i = i + 1;
    }
    proof {
        assert(body.take(n - start) =~= body);
        lemma_dec_val_nonneg(body);
    }
    Ok(acc)
}

/// Decodes a `u64` from a string token: the text-to-value strategy. The
/// string is read first; interpreting it as a number is the hand-written
/// conversion, and its failure is reported as a custom error.
pub fn deserialize_from_str(d: &mut Decoder) -> (r: Result<u64, DecodeError>)
    requires
        old(d).wf(),
    ensures
        advanced(*old(d), *final(d)),
        match parse_str(old(d).remaining()).0 {
            Ok(s) => if dec_str_valid(s@) {
                r == Ok::<u64, DecodeError>((dec_val(num_body(s@)) as u64))
                    && final(d).pos_spec() == old(d).pos_spec() + 1
            } else {
                r matches Err(e) && e.kind() == ErrKind::Custom
            },
            Err(k) => r matches Err(e) && e.kind() == k,
        },
{
    let s = match d.decode_str() {
        Ok(s) => s,
        Err(e) => return Err(e),
    };
    parse_dec_u64(s.as_str())
}

/// A pointer to `T` that may or may not own its data.
#[derive(Debug)]
pub enum Ptr<'a, T> {
    Ref(&'a T),
    Owned(Box<T>),
}

impl<'a, T: Decode> Ptr<'a, T> {
    /// Decoding always produces owned data: one plain decode of `T`,
    /// boxed.
    pub fn decode(d: &mut Decoder) -> (r: Result<Ptr<'a, T>, DecodeError>)
        requires
            old(d).wf(),
        ensures
            advanced(*old(d), *final(d)),
            match T::parse(old(d).remaining()).0 {
                Ok(v) => r matches Ok(p) && (p matches Ptr::Owned(b) && *b == v)
                    && final(d).pos_spec() == old(d).pos_spec() + T::parse(
                    old(d).remaining(),
                ).1,
                Err(k) => r matches Err(e) && e.kind() == k,
            },
    {
        match T::decode(d) {
            Ok(v) => Ok(Ptr::Owned(Box::new(v))),
            Err(e) => Err(e),
        }
    }
}

} // verus!

//! An enum carried on the wire as its underlying number.
//!
//! `SmallPrime` travels as a plain integer token rather than a variant
//! name; decoding maps the number back to the variant and rejects any
//! other value.

use vstd::prelude::*;

use crate::decoder::{advanced, parse_int, Decoder};
use crate::token::{DecodeError, ErrKind, Token};

verus! {

/// The smallest prime numbers, as a unit enum.
#[derive(Debug, Clone, Copy, PartialEq, Eq, Structural)]
pub enum SmallPrime {
    Two,
    Three,
    Five,
    Seven,
}

/// The number a variant stands for.
pub open spec fn prime_repr(p: SmallPrime) -> int {
    match p {
        SmallPrime::Two => 2,
        SmallPrime::Three => 3,
        SmallPrime::Five => 5,
        SmallPrime::Seven => 7,
    }
}

/// The variant a number stands for, if any.
pub open spec fn prime_of(n: int) -> Option<SmallPrime> {
    if n == 2 {
        Some(SmallPrime::Two)
    } else if n == 3 {
        Some(SmallPrime::Three)
    } else if n == 5 {
        Some(SmallPrime::Five)
    } else if n == 7 {
        Some(SmallPrime::Seven)
    } else {
        None
    }
}

/// Every variant's number maps back to that variant.
pub proof fn lemma_prime_repr_round(p: SmallPrime)
    ensures
        prime_of(prime_repr(p)) == Some(p),
{
}

impl SmallPrime {
    /// The number this variant travels as.
    pub fn to_number(&self) -> (n: u8)
        ensures
            n as int == prime_repr(*self),
    {
        match self {
            SmallPrime::Two => 2,
            SmallPrime::Three => 3,
            SmallPrime::Five => 5,
            SmallPrime::Seven => 7,
        }
    }

    /// Appends this variant's encoding: a single integer token.
    pub fn encode(&self, out: &mut Vec<Token>)
        ensures
            final(out)@ == old(out)@.push(Token::Int(prime_repr(*self) as i128)),
    {
        let n = self.to_number();
        out.push(Token::Int(n as i128));
    }

    /// Decodes a variant from its number; any other value is rejected
    /// with a custom error, as a handwritten conversion reports it.
    pub fn decode(d: &mut Decoder) -> (r: Result<SmallPrime, DecodeError>)
        requires
            old(d).wf(),
        ensures
            advanced(*old(d), *final(d)),
            match parse_int(old(d).remaining()).0 {
                Ok(i) => match prime_of(i as int) {
                    Some(p) => r == Ok::<SmallPrime, DecodeError>(p) && final(d).pos_spec()
                        == old(d).pos_spec() + 1,
                    None => r matches Err(e) && e.kind() == ErrKind::Custom,
                },
                Err(k) => r matches Err(e) && e.kind() == k,
            },
    {
        let i = match d.decode_int() {
            Ok(i) => i,
            Err(e) => return Err(e),
        };
        if i == 2 {
            Ok(SmallPrime::Two)
        } else if i == 3 {
            Ok(SmallPrime::Three)
        } else if i == 5 {
            Ok(SmallPrime::Five)
        } else if i == 7 {
            Ok(SmallPrime::Seven)
        } else {
            Err(DecodeError::Custom { message: "not one of the small primes".to_owned() })
        }
    }
}

} // verus!

//! The encode direction, written by hand: a color as a three-entry map.
//!
//! Encoding mirrors the structural decode: one entry per field, in
//! declaration order. The encoding predicate pins every token.

use vstd::prelude::*;

use crate::token::Token;

verus! {

/// An RGB color, each channel one byte.
#[derive(Debug, Clone, Copy, PartialEq, Eq, Structural)]
pub struct Color {
    pub r: u8,
    pub g: u8,
    pub b: u8,
}

impl Color {
    /// The canonical map-shape encoding of this color.
    pub open spec fn map_encoding(self, ts: Seq<Token>) -> bool {
        &&& ts.len() == 8
        &&& ts[0] is MapStart
        &&& (ts[1] matches Token::Str(k) && k@ == "r"@)
        &&& ts[2] == Token::Int(self.r as i128)
        &&& (ts[3] matches Token::Str(k) && k@ == "g"@)
        &&& ts[4] == Token::Int(self.g as i128)
        &&& (ts[5] matches Token::Str(k) && k@ == "b"@)
        &&& ts[6] == Token::Int(self.b as i128)
        &&& ts[7] is MapEnd
    }

    /// Appends this color's encoding: one field per entry, in order.
    pub fn encode(&self, out: &mut Vec<Token>)
        ensures
            final(out)@.len() == old(out)@.len() + 8,
            final(out)@.subrange(0, old(out)@.len() as int) == old(out)@,
            self.map_encoding(final(out)@.skip(old(out)@.len() as int)),
    {
        let ghost n0 = out@.len() as int;
        out.push(Token::MapStart);
        out.push(Token::Str("r".to_owned()));
        out.push(Token::Int(self.r as i128));
        out.push(Token::Str("g".to_owned()));
        out.push(Token::Int(self.g as i128));
        out.push(Token::Str("b".to_owned()));
        out.push(Token::Int(self.b as i128));
        out.push(Token::MapEnd);
        proof {
            assert(out@.subrange(0, n0) =~= old(out)@);
            assert(out@.skip(n0).len() == 8);
            assert forall|i: int| 0 <= i < 8 implies out@.skip(n0)[i] == out@[n0 + i] by {}
        }
    }
}

} // verus!

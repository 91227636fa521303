//! Skipping fields when encoding.
//!
//! A `Resource` never writes its `hash` field to the wire, and writes its
//! `metadata` map only when the skip predicate -- the map being empty --
//! does not hold. The encoding predicate states both cases exactly, so a
//! decode of the output would find `hash` missing: skipped fields are gone
//! from the wire, not merely empty.

use vstd::prelude::*;

use crate::mymap::MyMap;
use crate::token::Token;

verus! {

/// A named resource: a content hash that stays local, and optional
/// metadata entries.
#[derive(Debug, Clone, PartialEq, Eq)]
pub struct Resource {
    pub name: String,
    pub hash: String,
    pub metadata: MyMap<String, String>,
}

impl Resource {
    /// The wire shape of this resource: `name` always, `hash` never, and
    /// `metadata` only when it has entries.
    pub open spec fn map_encoding(self, ts: Seq<Token>) -> bool {
        let l = self.metadata@.len() as int;
        if l == 0 {
            &&& ts.len() == 4
            &&& ts[0] is MapStart
            &&& (ts[1] matches Token::Str(k) && k@ == "name"@)
            &&& ts[2] == Token::Str(self.name)
            &&& ts[3] is MapEnd
        } else {
            &&& ts.len() == 7 + 2 * l
            &&& ts[0] is MapStart
            &&& (ts[1] matches Token::Str(k) && k@ == "name"@)
            &&& ts[2] == Token::Str(self.name)
            &&& (ts[3] matches Token::Str(k) && k@ == "metadata"@)
            &&& ts[4] is MapStart
            &&& (forall|i: int|
                0 <= i < l ==> ts[5 + 2 * i] == Token::Str(#[trigger] self.metadata@[i].0))
            &&& (forall|i: int|
                0 <= i < l ==> ts[6 + 2 * i] == Token::Str(#[trigger] self.metadata@[i].1))
            &&& ts[5 + 2 * l] is MapEnd
            &&& ts[6 + 2 * l] is MapEnd
        }
    }

    /// Appends this resource's encoding, skipping what stays local.
    pub fn encode(&self, out: &mut Vec<Token>)
        ensures
            final(out)@.subrange(0, old(out)@.len() as int) == old(out)@,
            self.map_encoding(final(out)@.skip(old(out)@.len() as int)),
    {
        let ghost n0 = out@.len() as int;
        out.push(Token::MapStart);
        out.push(Token::Str("name".to_owned()));
        out.push(Token::Str(self.name.clone()));
        let entries = self.metadata.items();
        let l = entries.len();
        if l > 0 {
            out.push(Token::Str("metadata".to_owned()));
            out.push(Token::MapStart);
            let mut i: usize = 0;
            while i < l
                invariant
                    i <= l,
                    l == self.metadata@.len(),
                    entries@ == self.metadata@,
                    out@.len() == n0 + 5 + 2 * i,
                    n0 >= 0,
                    out@.subrange(0, n0) == old(out)@,
                    out@[n0] is MapStart,
                    (out@[n0 + 1] matches Token::Str(k) && k@ == "name"@),
                    out@[n0 + 2] == Token::Str(self.name),
                    (out@[n0 + 3] matches Token::Str(k) && k@ == "metadata"@),
                    out@[n0 + 4] is MapStart,
                    forall|j: int|
                        0 <= j < i ==> out@[n0 + 5 + 2 * j] == Token::Str(
                            #[trigger] self.metadata@[j].0,
                        ),
                    forall|j: int|
                        0 <= j < i ==> out@[n0 + 6 + 2 * j] == Token::Str(
                            #[trigger] self.metadata@[j].1,
                        ),
                decreases l - i,
            {
                let ghost pre = out@;
                out.push(Token::Str(entries[i].0.clone()));
                out.push(Token::Str(entries[i].1.clone()));
                proof {
                    assert(out@.subrange(0, n0) =~= pre.subrange(0, n0));
                }
                i = i + 1;
            }
            out.push(Token::MapEnd);
            out.push(Token::MapEnd);
            proof {
                assert(out@.subrange(0, n0) =~= old(out)@);
                assert forall|j: int| 0 <= j < out@.len() - n0 implies out@.skip(n0)[j] == out@[n0
                    + j] by {}
                assert(self.map_encoding(out@.skip(n0)));
            }
        } else {
            out.push(Token::MapEnd);
            proof {
                assert(out@.subrange(0, n0) =~= old(out)@);
                assert(out@.skip(n0).len() == 4);
                assert forall|j: int| 0 <= j < 4 implies out@.skip(n0)[j] == out@[n0 + j] by {}
            }
        }
    }
}

} // verus!

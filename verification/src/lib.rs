//! A format-agnostic structured decoding protocol.
//!
//! Self-describing input (scalars, sequences, maps, nested combinations) is
//! presented as a stream of tokens. A [`decoder::Decoder`] is a single-pass
//! cursor over that stream; it discovers the shape of the next piece of
//! input and drives a [`visitor::Visitor`], which holds the type-specific
//! construction logic and is consumed by exactly one visitation call.
//! Target types offer a decode entry point ([`decode::Decode`]), optionally
//! a seeded variant carrying caller context ([`decode::DecodeSeed`],
//! [`nth::NthElement`]), and a universal discard path that consumes a value
//! fully while keeping nothing ([`discard`]).
//!
//! On top of the protocol sit the usual policy layers: structural decodes
//! with required fields, per-field defaults and renames ([`duration`],
//! [`request`], [`stream_max`]), a generic map built entry by entry
//! ([`mymap`]), map splicing with a flattened catch-all ([`flatten`]), the
//! four enum tag layouts ([`message`]), a shadow definition for a foreign
//! type ([`remote`]), a hand-written encode ([`color`]), and an enum
//! carried as its underlying number ([`repr`]).
//!
//! Every decoder is specified against a specification-level parser over the
//! token sequence, so the exact result -- value, consumption, and error --
//! is pinned down for every input, and the laws (round trips, the two
//! unknown-key policies, order-independence of map splicing, agreement of
//! the four tag layouts) are proved against those parsers.

pub mod token;
pub mod decoder;
pub mod discard;
pub mod visitor;
pub mod decode;
pub mod duration;
pub mod nth;
pub mod request;
pub mod stream_max;
pub mod mymap;
pub mod flatten;
pub mod message;
pub mod remote;
pub mod color;
pub mod repr;
pub mod bounds;
pub mod resource;

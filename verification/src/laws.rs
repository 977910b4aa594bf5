//! What holds of the codec as a whole, proved from the layout alone.
//!
//! `round_trip` shows that a header is read back from its own bytes.
//! `framing` shows that reading never looks past what it consumes, so that
//! a buffer with bytes in excess, or with bytes missing, holds no header.
//! `inverse` shows that a buffer that holds a header is made of the bytes
//! of that header and of nothing else.

pub mod framing;
pub mod inverse;
pub mod round_trip;

use vstd::prelude::*;

verus! {

/// Seven parts followed by a rest are the first part followed by all that
/// comes after it, and so on.
pub(crate) proof fn lemma_regroup(
    a: Seq<u8>,
    b: Seq<u8>,
    c: Seq<u8>,
    d: Seq<u8>,
    e: Seq<u8>,
    f: Seq<u8>,
    g: Seq<u8>,
    rest: Seq<u8>,
)
    ensures
        (a + b + c + d + e + f + g) + rest == a + (b + (c + (d + (e + (f + (g + rest)))))),
{
    assert((a + b + c + d + e + f + g) + rest =~= a + (b + (c + (d + (e + (f + (g + rest)))))));
}

/// The six parts of a room followed by a rest are the name followed by all
/// that comes after it, and so on, with each count kept with its records.
pub(crate) proof fn lemma_regroup_room(
    a: Seq<u8>,
    b: Seq<u8>,
    c: Seq<u8>,
    d: Seq<u8>,
    e: Seq<u8>,
    f: Seq<u8>,
    rest: Seq<u8>,
)
    ensures
        (a + b + c + d + e + f) + rest == a + (b + (c + d + (e + f + rest))),
{
    assert((a + b + c + d + e + f) + rest =~= a + (b + (c + d + (e + f + rest))));
}

} // verus!

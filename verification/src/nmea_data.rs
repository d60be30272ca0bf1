//! The first sentence parsers: the same field layouts as in [`crate::data`],
//! read without checking the checksum, the talker kept as the sentence's
//! navigation system.
use vstd::prelude::*;

use crate::data::Talker;
use crate::error::ParseError;
use crate::str_parser::StrParserContext;

mod dhv;
mod gga;
mod rmc;
mod zda;

pub use dhv::Dhv;
pub use gga::Gga;
pub use rmc::Rmc;
pub use zda::Zda;

verus! {

/// A sentence type that is read from a parsing context, for a talker,
/// without the checksum check.
pub trait INmeaData: Sized {
    /// What reading the text `b` from `p` gives, for the talker `talker`.
    spec fn spec_parsed(b: Seq<u8>, p: int, talker: Talker, r: Result<Self, ParseError>) -> bool;

    /// Reads the sentence from where the context stands; the text stays as
    /// it is.
    fn new(ctx: &mut StrParserContext, navigation_system: Talker) -> (r: Result<Self, ParseError>)
        ensures
            Self::spec_parsed(old(ctx).full_bytes(), old(ctx).pos(), navigation_system, r),
            final(ctx).full_bytes() == old(ctx).full_bytes(),
    ;
}

impl INmeaData for Dhv {
    open spec fn spec_parsed(b: Seq<u8>, p: int, talker: Talker, r: Result<Self, ParseError>) -> bool {
        Dhv::spec_new(b, p, talker, r)
    }

    fn new(ctx: &mut StrParserContext, navigation_system: Talker) -> (r: Result<Self, ParseError>) {
        Dhv::new(ctx, navigation_system)
    }
}

impl INmeaData for Gga {
    open spec fn spec_parsed(b: Seq<u8>, p: int, talker: Talker, r: Result<Self, ParseError>) -> bool {
        Gga::spec_new(b, p, talker, r)
    }

    fn new(ctx: &mut StrParserContext, navigation_system: Talker) -> (r: Result<Self, ParseError>) {
        Gga::new(ctx, navigation_system)
    }
}

} // verus!

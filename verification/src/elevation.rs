//! How elevation is packed into the red, green and blue bytes of a terrain tile.
use vstd::prelude::*;
use crate::text::{is_text, lower_trimmed, lowercase, trim};

verus! {

/// How elevation is packed into RGB. Both schemes are fixed-point; neither is parameterised.
#[derive(Debug, Clone, Copy, PartialEq, Eq, Structural)]
pub enum Encoding {
    /// `(R * 256 + G + B / 256) - 32768`
    Terrarium,
    /// `-10000 + (R * 65536 + G * 256 + B) * 0.1`
    Mapbox,
}

/// The encoding a name stands for, ignoring case and surrounding white space.
pub open spec fn encoding_named(raw: Seq<char>) -> Option<Encoding> {
    let key = lowercase(trim(raw));
    if key == "terrarium"@ {
        Some(Encoding::Terrarium)
    } else if key == "mapbox"@ {
        Some(Encoding::Mapbox)
    } else {
        None
    }
}

impl Encoding {
    pub fn parse(raw: &str) -> (r: Option<Self>)
        ensures
            r == encoding_named(raw@),
    {
        let key = lower_trimmed(raw);
        if is_text(&key, "terrarium") {
            Some(Encoding::Terrarium)
        } else if is_text(&key, "mapbox") {
            Some(Encoding::Mapbox)
        } else {
            None
        }
    }
}

} // verus!

//! The quantisation ramp of the terrain renderer.
//!
//! Detail is only needed where it can be seen, so each step down from the maximum zoom adds one
//! to the quantisation exponent - doubling the vertical step - until a cap.
use vstd::prelude::*;
use crate::elevation::{encoding_named, Encoding};
use crate::steps::StepId;

verus! {

pub open spec fn ramp_digits(zoom: u8, maxzoom: u8, round_digits: u32, max_round_digits: u32) -> int {
    let ramp = round_digits + (if maxzoom > zoom { maxzoom - zoom } else { 0 });
    let cap = if max_round_digits > round_digits { max_round_digits as int } else { round_digits as int };
    if ramp < cap {
        ramp
    } else {
        cap
    }
}

/// Quantisation exponent for a zoom: `round_digits` at `maxzoom`, one more per zoom below it,
/// capped at `max_round_digits` - or at `round_digits`, when the cap is below it.
pub fn round_digits_for(zoom: u8, maxzoom: u8, round_digits: u32, max_round_digits: u32) -> (d: u32)
    requires
        round_digits + (if maxzoom > zoom { maxzoom - zoom } else { 0 }) <= u32::MAX,
    ensures
        d == ramp_digits(zoom, maxzoom, round_digits, max_round_digits),
{
    let below: u32 = if maxzoom > zoom { (maxzoom - zoom) as u32 } else { 0 };
    let ramp = round_digits + below;
    let cap = if max_round_digits > round_digits { max_round_digits } else { round_digits };
    if ramp < cap {
        ramp
    } else {
        cap
    }
}

/// The encoding a terrain build packs elevation in: the one its form names, or else Mapbox for
/// the hillshade step (this pipeline's older terrain, which the app still reads) and Terrarium
/// for the others. A name that is no encoding is refused with a message saying so.
pub fn terrain_encoding(step: StepId, named: Option<&str>) -> (r: Result<Encoding, String>)
    ensures
        match named {
            Some(n) => match encoding_named(n@) {
                Some(e) => r == Ok::<Encoding, String>(e),
                None => (r matches Err(m) && m@ == "unknown encoding `"@ + n@ + "`"@),
            },
            None => r == Ok::<Encoding, String>(if step == StepId::Hillshade {
                Encoding::Mapbox
            } else {
                Encoding::Terrarium
            }),
        },
{
    match named {
        Some(n) => match Encoding::parse(n) {
            Some(e) => Ok(e),
            None => {
                let head = crate::text::concat_str("unknown encoding `", n);
                let m = crate::text::concat_str(head.as_str(), "`");
                Err(m)
            },
        },
        None => if step == StepId::Hillshade {
            Ok(Encoding::Mapbox)
        } else {
            Ok(Encoding::Terrarium)
        },
    }
}

} // verus!

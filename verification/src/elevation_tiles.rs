//! Naming the `.hgt` elevation tiles of the public Skadi mirror.
//!
//! Tiles come from the mirror as `skadi/N45/N45E006.hgt.gz`: one file per 1° square, gzipped,
//! grouped in a directory per degree of latitude.
use vstd::prelude::*;
use crate::text::{chars_of, decimal, join, path_join, push_all, push_padded, string_of, zero_pad};

verus! {

pub const SKADI: &'static str = "https://elevation-tiles-prod.s3.us-east-1.amazonaws.com/skadi";

/// One 1°×1° tile: the directory it lives in and its file name.
#[derive(Debug, Clone, PartialEq, Eq, PartialOrd, Ord, Hash)]
pub struct Tile {
    pub dir: String,
    pub name: String,
}

/// `N45` or `S34`: the latitude letter and the absolute latitude in two digits.
pub open spec fn lat_dir(lat: int) -> Seq<char> {
    seq![if lat < 0 { 'S' } else { 'N' }] + zero_pad(decimal((if lat < 0 { -lat } else { lat }) as nat), 2)
}

/// `E006` or `W070`: the longitude letter and the absolute longitude in three digits.
pub open spec fn lon_part(lon: int) -> Seq<char> {
    seq![if lon < 0 { 'W' } else { 'E' }] + zero_pad(decimal((if lon < 0 { -lon } else { lon }) as nat), 3)
}

/// What a fetch did with one tile.
#[derive(Debug, Clone, Copy, PartialEq, Eq)]
pub enum Fetched {
    /// Already on disk, left alone.
    Present,
    Downloaded,
}

impl Tile {
    /// The tile whose south-west corner is at `(lon, lat)`, both whole degrees. Southern and
    /// western hemispheres use the absolute value after the letter, so -1 is `W001`.
    pub fn at(lon: i32, lat: i32) -> (t: Self)
        requires
            lon != i32::MIN,
            lat != i32::MIN,
        ensures
            t.dir@ == lat_dir(lat as int),
            t.name@ == lat_dir(lat as int) + lon_part(lon as int) + ".hgt"@,
    {
        let mut dir: Vec<char> = Vec::new();
        dir.push(if lat < 0 { 'S' } else { 'N' });
        push_padded(&mut dir, (if lat < 0 { -lat } else { lat }) as u64, 2);
        let mut name = dir.clone();
        name.push(if lon < 0 { 'W' } else { 'E' });
        push_padded(&mut name, (if lon < 0 { -lon } else { lon }) as u64, 3);
        let ext = chars_of(".hgt");
        push_all(&mut name, ext.as_slice());
        assert(dir@ =~= lat_dir(lat as int));
        assert(name@ =~= lat_dir(lat as int) + lon_part(lon as int) + ".hgt"@);
        Tile { dir: string_of(dir.as_slice()), name: string_of(name.as_slice()) }
    }

    /// Where it lands under the elevation directory, with `.gz` when kept compressed.
    pub fn path(&self, root: &str, gzipped: bool) -> (p: String)
        ensures
            p@ == path_join(
                path_join(root@, self.dir@),
                if gzipped {
                    self.name@ + ".gz"@
                } else {
                    self.name@
                },
            ),
    {
        let name = if gzipped {
            crate::text::concat_str(self.name.as_str(), ".gz")
        } else {
            self.name.clone()
        };
        let dir = join(root, self.dir.as_str());
        join(dir.as_str(), name.as_str())
    }

    /// The mirror's URL for the tile.
    pub fn url(&self) -> (u: String)
        ensures
            u@ == SKADI@ + "/"@ + self.dir@ + "/"@ + self.name@ + ".gz"@,
    {
        let mut v = chars_of(SKADI);
        let parts = [chars_of("/"), chars_of(self.dir.as_str()), chars_of("/"), chars_of(self.name.as_str()), chars_of(".gz")];
        push_all(&mut v, parts[0].as_slice());
        push_all(&mut v, parts[1].as_slice());
        push_all(&mut v, parts[2].as_slice());
        push_all(&mut v, parts[3].as_slice());
        push_all(&mut v, parts[4].as_slice());
        string_of(v.as_slice())
    }
}

} // verus!

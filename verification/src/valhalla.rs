//! Valhalla graph tiles.
//!
//! A routing package is an mbtiles-shaped SQLite file holding gzipped Valhalla graph tiles. The
//! `zoom_level` column is Valhalla's hierarchy level, not a map zoom, and the column/row are its
//! graph tile coordinates. Level 0 tiles are 4 degrees on a side, level 1 one degree and level 2
//! a quarter degree, over the whole world from 180W 90S.
use vstd::prelude::*;
use crate::text::{decimal, digit_char, lemma_decimal_len, push_all, push_decimal, push_padded, string_of, zero_pad};

verus! {

/// One graph tile: column, row, level.
#[derive(Debug, Clone, Copy, PartialEq, Eq, Structural, PartialOrd, Ord, Hash)]
pub struct GraphTile {
    pub x: u32,
    pub y: u32,
    pub level: u8,
}

/// Tiles across the world at a level: 360 degrees over the tile size, levels above 2 counting
/// as level 2.
pub open spec fn columns(level: u8) -> nat {
    if level == 0 {
        90
    } else if level == 1 {
        360
    } else {
        1440
    }
}

/// A tile's id: row-major over the level's grid.
pub open spec fn tile_id(t: GraphTile) -> nat {
    t.y as nat * columns(t.level) + t.x as nat
}

/// The last `g` three-digit groups of `id`, most significant first, separated by `/`.
pub open spec fn id_groups(id: nat, g: nat) -> Seq<char>
    decreases g,
{
    if g <= 1 {
        zero_pad(decimal(id % 1000), 3)
    } else {
        id_groups(id / 1000, (g - 1) as nat) + seq!['/'] + zero_pad(decimal(id % 1000), 3)
    }
}

/// The relative path of a tile's `.gph` file: level, then the id as `max(level, 1) + 1` groups.
pub open spec fn tile_path(t: GraphTile) -> Seq<char> {
    let groups: nat = if t.level >= 1 {
        t.level as nat + 1
    } else {
        2
    };
    decimal(t.level as nat) + seq!['/'] + id_groups(tile_id(t), groups) + seq!['.', 'g', 'p', 'h']
}

fn push_groups(out: &mut Vec<char>, id: u64, g: u64)
    requires
        g >= 1,
    ensures
        final(out)@ == old(out)@ + id_groups(id as nat, g as nat),
    decreases g,
{
    if g > 1 {
        push_groups(out, id / 1000, g - 1);
        out.push('/');
    }
    push_padded(out, id % 1000, 3);
    proof {
        if g > 1 {
            assert(old(out)@ + id_groups(id as nat, g as nat) =~= old(out)@ + id_groups(
                (id / 1000) as nat,
                (g - 1) as nat,
            ) + seq!['/'] + zero_pad(decimal((id % 1000) as nat), 3));
        }
    }
}

impl GraphTile {
    pub fn new(x: u32, y: u32, level: u8) -> (t: Self)
        ensures
            t == (GraphTile { x, y, level }),
    {
        Self { x, y, level }
    }

    /// Relative path of the `.gph` file holding this tile.
    ///
    /// The id is `y * columns + x`, rendered as zero-padded three-digit groups, most significant
    /// first, prefixed by the level: level 2 tile id 1_036_800 becomes `2/001/036/800.gph`.
    /// Integer division is used throughout, so no id loses precision.
    pub fn path(self) -> (p: String)
        ensures
            p@ == tile_path(self),
    {
        let columns: u64 = if self.level == 0 {
            90
        } else if self.level == 1 {
            360
        } else {
            1440
        };
        let id: u64 = self.y as u64 * columns + self.x as u64;
        let groups: u64 = if self.level >= 1 {
            self.level as u64 + 1
        } else {
            2
        };
        let mut out: Vec<char> = Vec::new();
        push_decimal(&mut out, self.level as u64);
        out.push('/');
        push_groups(&mut out, id, groups);
        out.push('.');
        out.push('g');
        out.push('p');
        out.push('h');
        assert(out@ =~= tile_path(self));
        string_of(out.as_slice())
    }
}

} // verus!

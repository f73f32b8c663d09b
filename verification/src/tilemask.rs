//! Decoding the base64 quadtree tilemask that selects which graph tiles a package carries.
//!
//! The mask is a bitstream walked depth-first over a web-mercator quadtree, most significant
//! bit of each byte first. Each node spends two bits: the first says whether four children
//! follow, the second whether the node itself is inside the area. A node marked inside with no
//! children stands for its whole subtree, which is filled in down to the requested zoom.
//! Children are visited row by row: `(0,0)`, `(1,0)`, `(0,1)`, `(1,1)` in `(dx, dy)`.
use vstd::prelude::*;
use vstd::arithmetic::power2::pow2;
use base64::Engine;
use crate::text::{chars_of, decimal, push_all, push_decimal, string_of, trim, trim_vec};

verus! {

#[verifier::external_type_specification]
#[verifier::external_body]
pub struct ExDecodeError(base64::DecodeError);

/// What base64's standard engine (`+/` alphabet, canonical `=` padding) decodes a text to,
/// `None` when it rejects it.
pub uninterp spec fn base64_standard(text: Seq<char>) -> Option<Seq<u8>>;

/// Wraps `base64::engine::general_purpose::STANDARD.decode`. The outcome, bytes or refusal, is
/// a function of the text alone.
#[verifier::external_body]
fn decode_standard(text: &str) -> (r: Result<Vec<u8>, base64::DecodeError>)
    ensures
        match r {
            Ok(bytes) => base64_standard(text@) == Some(bytes@),
            Err(_) => base64_standard(text@) is None,
        },
{
    base64::engine::general_purpose::STANDARD.decode(text)
}

/// Wraps `base64::DecodeError`'s `Display`; nothing is stated of the text.
#[verifier::external_body]
fn decode_error_text(e: &base64::DecodeError) -> String {
    e.to_string()
}

/// One quadtree node's coordinates.
#[derive(Debug, Clone, Copy, PartialEq, Eq, Structural)]
pub struct QuadTile {
    pub z: u8,
    pub x: u32,
    pub y: u32,
}

#[derive(Debug, Clone, PartialEq)]
pub enum TilemaskError {
    /// The mask is not base64; the text is the decoder's own message.
    NotBase64(String),
    /// The bits ran out at this position before the tree was complete.
    EndedEarly { at: usize },
    /// The tree nests deeper than tile coordinates can express.
    TooDeep,
}

impl TilemaskError {
    /// The error as a sentence.
    pub fn message(&self) -> (m: String)
        ensures
            m@ == match self {
                TilemaskError::NotBase64(e) => "tilemask is not base64: "@ + e@,
                TilemaskError::EndedEarly { at } => "tilemask ended early at bit "@ + decimal(*at as nat),
                TilemaskError::TooDeep => "tilemask nests deeper than tile coordinates allow"@,
            },
    {
        match self {
            TilemaskError::NotBase64(e) => crate::text::concat_str("tilemask is not base64: ", e.as_str()),
            TilemaskError::EndedEarly { at } => {
                let mut v = chars_of("tilemask ended early at bit ");
                push_decimal(&mut v, *at as u64);
                string_of(v.as_slice())
            },
            TilemaskError::TooDeep => String::from_str("tilemask nests deeper than tile coordinates allow"),
        }
    }
}

/// The eight bits of a byte, most significant first.
pub open spec fn byte_bits(b: u8) -> Seq<u8> {
    seq![(b >> 7u8) & 1, (b >> 6u8) & 1, (b >> 5u8) & 1, (b >> 4u8) & 1, (b >> 3u8) & 1, (b >> 2u8) & 1, (b >> 1u8) & 1, b & 1]
}

pub open spec fn bits_of(bytes: Seq<u8>) -> Seq<u8>
    decreases bytes.len(),
{
    if bytes.len() == 0 {
        Seq::empty()
    } else {
        bits_of(bytes.drop_last()) + byte_bits(bytes.last())
    }
}

/// Child `k` of a node: `dx = k % 2`, `dy = k / 2`.
pub open spec fn child(t: QuadTile, k: int) -> QuadTile {
    QuadTile { z: (t.z + 1) as u8, x: (t.x * 2 + k % 2) as u32, y: (t.y * 2 + k / 2) as u32 }
}

/// A node and every node below it down to `max_zoom`, depth first.
pub open spec fn fill_tile(t: QuadTile, max_zoom: u8) -> Seq<QuadTile>
    decreases max_zoom + 1 - t.z, 5int,
{
    if t.z > max_zoom {
        Seq::empty()
    } else {
        seq![t] + fill_kids(t, max_zoom, 0)
    }
}

/// The filled subtrees of children `k..4` of a node.
pub open spec fn fill_kids(t: QuadTile, max_zoom: u8, k: int) -> Seq<QuadTile>
    decreases max_zoom + 1 - t.z, 4 - k,
{
    if k < 0 || k >= 4 || t.z > max_zoom || t.z >= 255 {
        Seq::empty()
    } else {
        fill_tile(child(t, k), max_zoom) + fill_kids(t, max_zoom, k + 1)
    }
}

/// Coordinates fit the node's zoom.
pub open spec fn in_grid(t: QuadTile) -> bool {
    t.x < pow2(t.z as nat) && t.y < pow2(t.z as nat)
}

/// Why a walk stopped early.
pub enum WalkStop {
    EndedEarly,
    TooDeep,
}

/// Reads the node at bit `at` and everything below it: where reading stopped and the nodes it
/// contributes. `fuel` bounds the nesting, which the length of the bits already bounds.
pub open spec fn walk_node(bits: Seq<u8>, at: int, t: QuadTile, max_zoom: u8, fuel: nat) -> Result<(int, Seq<QuadTile>), WalkStop>
    decreases fuel, 0int,
{
    if fuel == 0 {
        Err(WalkStop::TooDeep)
    } else if at < 0 || at + 2 > bits.len() {
        Err(WalkStop::EndedEarly)
    } else {
        let has_children = bits[at] == 1;
        let inside = bits[at + 1] == 1;
        let own = if inside {
            seq![t]
        } else {
            Seq::empty()
        };
        if has_children {
            if t.z >= 255 || t.x >= 0x8000_0000 || t.y >= 0x8000_0000 {
                Err(WalkStop::TooDeep)
            } else {
                walk_kids(bits, at + 2, t, 0, max_zoom, (fuel - 1) as nat, own)
            }
        } else if inside && t.z < max_zoom {
            Ok((at + 2, own + fill_kids(t, max_zoom, 0)))
        } else {
            Ok((at + 2, own))
        }
    }
}

/// Reads children `k..4` of `parent` from bit `at`, after the nodes `acc`.
pub open spec fn walk_kids(bits: Seq<u8>, at: int, parent: QuadTile, k: int, max_zoom: u8, fuel: nat, acc: Seq<QuadTile>) -> Result<(int, Seq<QuadTile>), WalkStop>
    decreases fuel, 5 - k,
{
    if k < 0 || k >= 4 {
        Ok((at, acc))
    } else {
        match walk_node(bits, at, child(parent, k), max_zoom, fuel) {
            Err(e) => Err(e),
            Ok((p, ts)) => walk_kids(bits, p, parent, k + 1, max_zoom, fuel, acc + ts),
        }
    }
}

/// The tiles a mask's bytes select, down to `max_zoom`.
pub open spec fn mask_tiles(bytes: Seq<u8>, max_zoom: u8) -> Result<Seq<QuadTile>, WalkStop> {
    let bits = bits_of(bytes);
    if bits.len() == 0 {
        Ok(Seq::empty())
    } else {
        match walk_node(bits, 0, QuadTile { z: 0, x: 0, y: 0 }, max_zoom, bits.len() + 1) {
            Ok((_, ts)) => Ok(ts),
            Err(e) => Err(e),
        }
    }
}

proof fn lemma_walk_kids_keeps_acc(bits: Seq<u8>, at: int, parent: QuadTile, k: int, max_zoom: u8, fuel: nat, acc: Seq<QuadTile>)
    ensures
        walk_kids(bits, at, parent, k, max_zoom, fuel, acc) matches Ok((_, ts)) ==> ts.len() >= acc.len() && ts.subrange(0, acc.len() as int) == acc,
    decreases 5 - k,
{
    if 0 <= k < 4 {
        match walk_node(bits, at, child(parent, k), max_zoom, fuel) {
            Err(_) => {},
            Ok((p, ts)) => {
                lemma_walk_kids_keeps_acc(bits, p, parent, k + 1, max_zoom, fuel, acc + ts);
                match walk_kids(bits, at, parent, k, max_zoom, fuel, acc) {
                    Ok((_, out)) => {
                        assert(out.subrange(0, (acc + ts).len() as int) == acc + ts);
                        assert(out.subrange(0, acc.len() as int) =~= (acc + ts).subrange(0, acc.len() as int));
                        assert((acc + ts).subrange(0, acc.len() as int) =~= acc);
                    },
                    Err(_) => {},
                }
            },
        }
    } else {
        assert(acc.subrange(0, acc.len() as int) =~= acc);
    }
}

/// Every node read as inside is selected, whether or not children follow it: the tiles a node
/// contributes start with the node itself when its inside bit is set. A node that is neither
/// inside nor has children contributes nothing, and takes exactly its two bits.
pub proof fn an_inside_node_is_selected(bits: Seq<u8>, at: int, t: QuadTile, max_zoom: u8, fuel: nat)
    requires
        0 <= at,
        at + 2 <= bits.len(),
        walk_node(bits, at, t, max_zoom, fuel) is Ok,
    ensures
        bits[at + 1] == 1 ==> (walk_node(bits, at, t, max_zoom, fuel) matches Ok((_, ts)) && ts.len() > 0 && ts[0] == t),
        bits[at] != 1 && bits[at + 1] != 1 ==> walk_node(bits, at, t, max_zoom, fuel) == Ok::<(int, Seq<QuadTile>), WalkStop>((at + 2, Seq::empty())),
{
    if bits[at] == 1 && fuel > 0 {
        let own = if bits[at + 1] == 1 { seq![t] } else { Seq::<QuadTile>::empty() };
        lemma_walk_kids_keeps_acc(bits, at + 2, t, 0, max_zoom, (fuel - 1) as nat, own);
        if bits[at + 1] == 1 {
            match walk_node(bits, at, t, max_zoom, fuel) {
                Ok((_, ts)) => {
                    assert(ts.subrange(0, 1) == own);
                    assert(ts[0] == ts.subrange(0, 1)[0]);
                },
                Err(_) => {},
            }
        }
    }
}

/// A mask whose root is read as inside selects the root first, whatever follows it.
pub proof fn an_inside_root_comes_first(bytes: Seq<u8>, max_zoom: u8)
    requires
        bits_of(bytes).len() >= 2,
        bits_of(bytes)[1] == 1,
        mask_tiles(bytes, max_zoom) is Ok,
    ensures
        mask_tiles(bytes, max_zoom) matches Ok(ts) && ts.len() > 0 && ts[0] == (QuadTile { z: 0, x: 0, y: 0 }),
{
    let bits = bits_of(bytes);
    an_inside_node_is_selected(bits, 0, QuadTile { z: 0, x: 0, y: 0 }, max_zoom, bits.len() + 1);
}

/// A node marked inside with no children stands for its whole subtree: a mask that is just such
/// a root selects every tile down to `max_zoom`.
pub proof fn inside_leaf_covers_its_subtree(bytes: Seq<u8>, max_zoom: u8)
    requires
        bits_of(bytes).len() >= 2,
        bits_of(bytes)[0] == 0,
        bits_of(bytes)[1] == 1,
    ensures
        mask_tiles(bytes, max_zoom) == Ok::<Seq<QuadTile>, WalkStop>(fill_tile(QuadTile { z: 0, x: 0, y: 0 }, max_zoom)),
{
    let root = QuadTile { z: 0, x: 0, y: 0 };
    if max_zoom == 0 {
        assert(fill_kids(root, 0, 0) =~= Seq::<QuadTile>::empty()) by {
            assert(fill_tile(child(root, 0), 0) =~= Seq::<QuadTile>::empty());
            assert(fill_tile(child(root, 1), 0) =~= Seq::<QuadTile>::empty());
            assert(fill_tile(child(root, 2), 0) =~= Seq::<QuadTile>::empty());
            assert(fill_tile(child(root, 3), 0) =~= Seq::<QuadTile>::empty());
            assert(fill_kids(root, 0, 4) =~= Seq::<QuadTile>::empty());
            assert(fill_kids(root, 0, 3) =~= Seq::<QuadTile>::empty());
            assert(fill_kids(root, 0, 2) =~= Seq::<QuadTile>::empty());
            assert(fill_kids(root, 0, 1) =~= Seq::<QuadTile>::empty());
        }
        assert(seq![root] + Seq::<QuadTile>::empty() =~= seq![root]);
    }
}

struct BitReader {
    bits: Vec<u8>,
    at: usize,
}

impl BitReader {
    fn next(&mut self) -> (r: Result<u8, TilemaskError>)
        ensures
            final(self).bits == old(self).bits,
            old(self).at < old(self).bits@.len() ==> r == Ok::<u8, TilemaskError>(old(self).bits@[old(self).at as int])
                && final(self).at == old(self).at + 1,
            old(self).at >= old(self).bits@.len() ==> r == Err::<u8, TilemaskError>(TilemaskError::EndedEarly { at: old(self).at })
                && final(self).at == old(self).at,
    {
        if self.at < self.bits.len() {
            let bit = self.bits[self.at];
            self.at = self.at + 1;
            Ok(bit)
        } else {
            Err(TilemaskError::EndedEarly { at: self.at })
        }
    }
}

proof fn lemma_child_in_grid(t: QuadTile, k: int)
    requires
        in_grid(t),
        t.z < 255,
        0 <= k < 4,
        t.x < 0x8000_0000,
        t.y < 0x8000_0000,
    ensures
        in_grid(child(t, k)),
        child(t, k).z == t.z + 1,
        child(t, k).x == t.x * 2 + k % 2,
        child(t, k).y == t.y * 2 + k / 2,
{
    vstd::arithmetic::power2::lemma_pow2_unfold((t.z + 1) as nat);
}

fn child_exec(t: QuadTile, k: u32) -> (c: QuadTile)
    requires
        t.z < 255,
        t.x < 0x8000_0000,
        t.y < 0x8000_0000,
        k < 4,
    ensures
        c == child(t, k as int),
{
    QuadTile { z: t.z + 1, x: t.x * 2 + k % 2, y: t.y * 2 + k / 2 }
}

fn fill(tile: QuadTile, max_zoom: u8, out: &mut Vec<QuadTile>)
    requires
        max_zoom <= 31,
        tile.z <= max_zoom + 1,
        in_grid(tile),
    ensures
        final(out)@ == old(out)@ + fill_tile(tile, max_zoom),
    decreases max_zoom + 1 - tile.z, 5int,
{
    if tile.z > max_zoom {
        assert(old(out)@ + fill_tile(tile, max_zoom) =~= old(out)@);
        return;
    }
    out.push(tile);
    fill_children(tile, max_zoom, out);
    assert(old(out)@ + fill_tile(tile, max_zoom) =~= old(out)@.push(tile) + fill_kids(tile, max_zoom, 0));
}

fn fill_children(tile: QuadTile, max_zoom: u8, out: &mut Vec<QuadTile>)
    requires
        max_zoom <= 31,
        tile.z <= max_zoom,
        in_grid(tile),
    ensures
        final(out)@ == old(out)@ + fill_kids(tile, max_zoom, 0),
    decreases max_zoom + 1 - tile.z, 4int,
{
    proof {
        vstd::arithmetic::power2::lemma2_to64();
        if tile.z < 31 {
            vstd::arithmetic::power2::lemma_pow2_strictly_increases(tile.z as nat, 31);
        }
    }
    let ghost start = out@;
    let mut k: u32 = 0;
    while k < 4
        invariant
            k <= 4,
            max_zoom <= 31,
            tile.z <= max_zoom,
            in_grid(tile),
            tile.x < 0x8000_0000,
            tile.y < 0x8000_0000,
            start + fill_kids(tile, max_zoom, 0) == out@ + fill_kids(tile, max_zoom, k as int),
        decreases 4 - k,
    {
        proof {
            lemma_child_in_grid(tile, k as int);
        }
        let c = child_exec(tile, k);
        let ghost before = out@;
        fill(c, max_zoom, out);
        assert(before + fill_kids(tile, max_zoom, k as int) =~= out@ + fill_kids(tile, max_zoom, k + 1));
        k = k + 1;
    }
    assert(out@ + fill_kids(tile, max_zoom, 4) =~= out@);
}

fn walk(reader: &mut BitReader, tile: QuadTile, max_zoom: u8, out: &mut Vec<QuadTile>, Ghost(fuel): Ghost<nat>) -> (r: Result<(), TilemaskError>)
    requires
        max_zoom <= 31,
        in_grid(tile),
        old(reader).at <= old(reader).bits@.len(),
        fuel > old(reader).bits@.len() - old(reader).at,
    ensures
        final(reader).bits == old(reader).bits,
        r is Ok ==> final(reader).at >= old(reader).at + 2 && final(reader).at <= final(reader).bits@.len(),
        match walk_node(old(reader).bits@, old(reader).at as int, tile, max_zoom, fuel) {
            Ok((p, ts)) => r is Ok && final(reader).at == p && final(out)@ == old(out)@ + ts,
            Err(WalkStop::EndedEarly) => r == Err::<(), TilemaskError>(TilemaskError::EndedEarly { at: old(reader).bits@.len() as usize }),
            Err(WalkStop::TooDeep) => r == Err::<(), TilemaskError>(TilemaskError::TooDeep),
        },
    decreases fuel, 0int,
{
    let has_children = match reader.next() {
        Ok(b) => b == 1,
        Err(e) => return Err(e),
    };
    let inside = match reader.next() {
        Ok(b) => b == 1,
        Err(e) => return Err(e),
    };
    if inside {
        out.push(tile);
    }
    let ghost own = if inside {
        seq![tile]
    } else {
        Seq::<QuadTile>::empty()
    };
    assert(out@ == old(out)@ + own);
    if has_children {
        if tile.z >= 255 || tile.x >= 0x8000_0000 || tile.y >= 0x8000_0000 {
            return Err(TilemaskError::TooDeep);
        }
        let mut k: u32 = 0;
        let ghost mut acc = own;
        while k < 4
            invariant
                k <= 4,
                max_zoom <= 31,
                in_grid(tile),
                tile.z < 255,
                tile.x < 0x8000_0000,
                tile.y < 0x8000_0000,
                fuel >= 1,
                reader.bits == old(reader).bits,
                reader.at <= reader.bits@.len(),
                reader.at >= old(reader).at + 2,
                fuel - 1 > reader.bits@.len() - reader.at,
                out@ == old(out)@ + acc,
                walk_node(old(reader).bits@, old(reader).at as int, tile, max_zoom, fuel) == walk_kids(
                    reader.bits@,
                    reader.at as int,
                    tile,
                    k as int,
                    max_zoom,
                    (fuel - 1) as nat,
                    acc,
                ),
            decreases 4 - k,
        {
            proof {
                lemma_child_in_grid(tile, k as int);
            }
            let c = child_exec(tile, k);
            let ghost before_at = reader.at as int;
            let ghost before_out = out@;
            let ghost res = walk_node(reader.bits@, before_at, c, max_zoom, (fuel - 1) as nat);
            let step = walk(reader, c, max_zoom, out, Ghost((fuel - 1) as nat));
            match step {
                Ok(()) => {},
                Err(e) => {
                    return Err(e);
                },
            }
            proof {
                match res {
                    Ok((p, tsv)) => {
                        assert(out@.subrange(before_out.len() as int, out@.len() as int) =~= tsv);
                        acc = acc + tsv;
                    },
                    Err(_) => {},
                }
            }
            k = k + 1;
        }
        return Ok(());
    }
    if inside && tile.z < max_zoom {
        fill_children(tile, max_zoom, out);
    }
    Ok(())
}

fn bits_exec(bytes: &[u8]) -> (bits: Vec<u8>)
    ensures
        bits@ == bits_of(bytes@),
{
    let mut bits: Vec<u8> = Vec::new();
    let mut i: usize = 0;
    while i < bytes.len()
        invariant
            i <= bytes@.len(),
            bits@ == bits_of(bytes@.take(i as int)),
        decreases bytes@.len() - i,
    {
        let b = bytes[i];
        assert(bytes@.take(i + 1).drop_last() =~= bytes@.take(i as int));
        let ghost before = bits@;
        bits.push((b >> 7u8) & 1);
        bits.push((b >> 6u8) & 1);
        bits.push((b >> 5u8) & 1);
        bits.push((b >> 4u8) & 1);
        bits.push((b >> 3u8) & 1);
        bits.push((b >> 2u8) & 1);
        bits.push((b >> 1u8) & 1);
        bits.push(b & 1);
        assert(bits@ =~= before + byte_bits(b));
        i = i + 1;
    }
    assert(bytes@.take(bytes@.len() as int) =~= bytes@);
    bits
}

/// The tiles a mask's decoded bytes select, descending to `max_zoom`.
///
/// `max_zoom` is at most 31: filling down to it works out the children of zoom-31 tiles, the
/// deepest whose coordinates still fit in a `u32`.
pub fn tiles_from_bytes(bytes: &[u8], max_zoom: u8) -> (r: Result<Vec<QuadTile>, TilemaskError>)
    requires
        max_zoom <= 31,
    ensures
        match mask_tiles(bytes@, max_zoom) {
            Ok(ts) => r matches Ok(v) && v@ == ts,
            Err(WalkStop::EndedEarly) => r == Err::<Vec<QuadTile>, TilemaskError>(
                TilemaskError::EndedEarly { at: bits_of(bytes@).len() as usize },
            ),
            Err(WalkStop::TooDeep) => r == Err::<Vec<QuadTile>, TilemaskError>(TilemaskError::TooDeep),
        },
{
    let bits = bits_exec(bytes);
    if bits.len() == 0 {
        return Ok(Vec::new());
    }
    let mut reader = BitReader { bits, at: 0 };
    let mut out: Vec<QuadTile> = Vec::new();
    let root = QuadTile { z: 0, x: 0, y: 0 };
    proof {
        vstd::arithmetic::power2::lemma2_to64();
    }
    let ghost fuel = (reader.bits@.len() + 1) as nat;
    match walk(&mut reader, root, max_zoom, &mut out, Ghost(fuel)) {
        Ok(()) => {
            assert(out@ =~= Seq::<QuadTile>::empty() + out@);
            Ok(out)
        },
        Err(e) => Err(e),
    }
}

/// Expand a base64 mask (surrounding white space ignored) into the mercator tiles it covers,
/// descending to `max_zoom`.
pub fn tiles(mask: &str, max_zoom: u8) -> (r: Result<Vec<QuadTile>, TilemaskError>)
    requires
        max_zoom <= 31,
    ensures
        match base64_standard(trim(mask@)) {
            None => r matches Err(TilemaskError::NotBase64(_)),
            Some(bytes) => match mask_tiles(bytes, max_zoom) {
                Ok(ts) => r matches Ok(v) && v@ == ts,
                Err(WalkStop::EndedEarly) => r == Err::<Vec<QuadTile>, TilemaskError>(
                    TilemaskError::EndedEarly { at: bits_of(bytes).len() as usize },
                ),
                Err(WalkStop::TooDeep) => r == Err::<Vec<QuadTile>, TilemaskError>(TilemaskError::TooDeep),
            },
        },
{
    let chars = chars_of(mask);
    let trimmed_chars = trim_vec(&chars);
    let trimmed = string_of(trimmed_chars.as_slice());
    match decode_standard(trimmed.as_str()) {
        Ok(bytes) => tiles_from_bytes(bytes.as_slice(), max_zoom),
        Err(e) => Err(TilemaskError::NotBase64(decode_error_text(&e))),
    }
}

} // verus!

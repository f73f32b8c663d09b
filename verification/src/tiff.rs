//! The TIFF container, read from bytes: the header, the image file directories, and the tag
//! values this reader needs.
//!
//! Only what the elevation raster uses is understood: classic TIFF and BigTIFF, either byte
//! order, tiled layout, a single 32-bit float band. Anything else is refused or skipped rather
//! than guessed at, because a silently mis-decoded elevation tile looks like terrain. Reading
//! the file is the caller's part: it hands over the bytes found at the offsets these functions
//! name.
use vstd::prelude::*;
use std::io::Read;
use crate::geotiff::{field_size, predictor_undone, type_size, undo_float_predictor};

verus! {

/// The unsigned integer that bytes encode, least significant first.
pub open spec fn le_value(b: Seq<u8>) -> nat
    decreases b.len(),
{
    if b.len() == 0 {
        0
    } else {
        b[0] as nat + 256 * le_value(b.drop_first())
    }
}

/// The unsigned integer that bytes encode, most significant first.
pub open spec fn be_value(b: Seq<u8>) -> nat
    decreases b.len(),
{
    if b.len() == 0 {
        0
    } else {
        be_value(b.drop_last()) * 256 + b.last() as nat
    }
}

/// The unsigned integer that bytes encode in the file's byte order.
pub open spec fn uint_value(b: Seq<u8>, little_endian: bool) -> nat {
    if little_endian {
        le_value(b)
    } else {
        be_value(b)
    }
}

pub open spec fn pow256(n: nat) -> nat
    decreases n,
{
    if n == 0 {
        1
    } else {
        256 * pow256((n - 1) as nat)
    }
}

proof fn lemma_le_bound(b: Seq<u8>)
    ensures
        le_value(b) < pow256(b.len()),
    decreases b.len(),
{
    if b.len() > 0 {
        lemma_le_bound(b.drop_first());
        assert(le_value(b) == b[0] as nat + 256 * le_value(b.drop_first()));
        assert(pow256(b.len()) == 256 * pow256(b.drop_first().len()));
        assert(b[0] as nat + 256 * le_value(b.drop_first()) < 256 * pow256(b.drop_first().len())) by (nonlinear_arith)
            requires
                b[0] < 256,
                le_value(b.drop_first()) < pow256(b.drop_first().len()),
        ;
    }
}

proof fn lemma_be_bound(b: Seq<u8>)
    ensures
        be_value(b) < pow256(b.len()),
    decreases b.len(),
{
    if b.len() > 0 {
        lemma_be_bound(b.drop_last());
        assert(pow256(b.len()) == 256 * pow256(b.drop_last().len()));
        assert(be_value(b.drop_last()) * 256 + b.last() < 256 * pow256(b.drop_last().len())) by (nonlinear_arith)
            requires
                b.last() < 256,
                be_value(b.drop_last()) < pow256(b.drop_last().len()),
        ;
    }
}

proof fn lemma_pow256_mono(a: nat, b: nat)
    requires
        a <= b,
    ensures
        pow256(a) <= pow256(b),
    decreases b,
{
    if a < b {
        lemma_pow256_mono(a, (b - 1) as nat);
    }
}

/// The unsigned integer in `b[at..at + n]`, in the given byte order.
pub fn read_uint(b: &[u8], at: usize, n: usize, little_endian: bool) -> (v: u64)
    requires
        at + n <= b@.len(),
        n <= 8,
    ensures
        v == uint_value(b@.subrange(at as int, at + n), little_endian),
{
    proof {
        lemma_pow256_mono(n as nat, 8);
        assert(pow256(8) == 0x1_0000_0000_0000_0000) by {
            reveal_with_fuel(pow256, 9);
        }
    }
    let len = b.len();
    let mut v: u64 = 0;
    if little_endian {
        let mut i: usize = n;
        assert(b@.subrange(at + n, at + n).len() == 0);
        while i > 0
            invariant
                i <= n,
                at + n <= b@.len(),
                b@.len() == len,
                n <= 8,
                pow256(n as nat) <= 0x1_0000_0000_0000_0000,
                v == le_value(b@.subrange(at + i, at + n)),
            decreases i,
        {
            let ghost s = b@.subrange(at + i - 1, at + n);
            assert(s.drop_first() =~= b@.subrange(at + i, at + n));
            proof {
                lemma_le_bound(s);
                lemma_pow256_mono(s.len(), n as nat);
            }
            v = v * 256 + b[at + i - 1] as u64;
            i = i - 1;
        }
    } else {
        let mut i: usize = 0;
        assert(b@.subrange(at as int, at as int).len() == 0);
        while i < n
            invariant
                i <= n,
                at + n <= b@.len(),
                b@.len() == len,
                n <= 8,
                pow256(n as nat) <= 0x1_0000_0000_0000_0000,
                v == be_value(b@.subrange(at as int, at + i)),
            decreases n - i,
        {
            let ghost s = b@.subrange(at as int, at + i + 1);
            assert(s.drop_last() =~= b@.subrange(at as int, at + i));
            proof {
                lemma_be_bound(s);
                lemma_pow256_mono(s.len(), n as nat);
            }
            v = v * 256 + b[at + i] as u64;
            i = i + 1;
        }
    }
    v
}

/// What the first sixteen bytes of a TIFF file say.
#[derive(Debug, Clone, Copy, PartialEq, Eq, Structural)]
pub struct TiffHeader {
    pub little_endian: bool,
    /// BigTIFF: 64-bit offsets and counts.
    pub big: bool,
    /// Where the first image file directory starts.
    pub first_ifd: u64,
}

/// Why a TIFF file was refused.
#[derive(Debug, Clone, PartialEq, Eq, Structural)]
pub enum TiffError {
    /// The first two bytes are neither `II` nor `MM`.
    ByteOrder { first: u8, second: u8 },
    /// The magic number is neither 42 (TIFF) nor 43 (BigTIFF).
    Magic { found: u16 },
    /// A directory claims more entries than any real file has.
    EntryCount { count: u64 },
    /// No directory describes a tiled 32-bit float image.
    NoImage,
}

pub open spec fn header_of(h: Seq<u8>) -> Result<TiffHeader, TiffError> {
    if !((h[0] == 0x49 && h[1] == 0x49) || (h[0] == 0x4d && h[1] == 0x4d)) {
        Err(TiffError::ByteOrder { first: h[0], second: h[1] })
    } else {
        let little = h[0] == 0x49;
        let magic = uint_value(h.subrange(2, 4), little);
        if magic == 43 {
            Ok(TiffHeader { little_endian: little, big: true, first_ifd: uint_value(h.subrange(8, 16), little) as u64 })
        } else if magic == 42 {
            Ok(TiffHeader { little_endian: little, big: false, first_ifd: uint_value(h.subrange(4, 8), little) as u64 })
        } else {
            Err(TiffError::Magic { found: magic as u16 })
        }
    }
}

/// Read the header from the first sixteen bytes of a file.
pub fn parse_header(header: &[u8]) -> (r: Result<TiffHeader, TiffError>)
    requires
        header@.len() == 16,
    ensures
        r == header_of(header@),
{
    let little = if header[0] == 0x49 && header[1] == 0x49 {
        true
    } else if header[0] == 0x4d && header[1] == 0x4d {
        false
    } else {
        return Err(TiffError::ByteOrder { first: header[0], second: header[1] });
    };
    let magic = read_uint(header, 2, 2, little);
    proof {
        lemma_le_bound(header@.subrange(2, 4));
        lemma_be_bound(header@.subrange(2, 4));
        assert(pow256(2) == 65536) by {
            reveal_with_fuel(pow256, 3);
        }
    }
    if magic == 43 {
        Ok(TiffHeader { little_endian: little, big: true, first_ifd: read_uint(header, 8, 8, little) })
    } else if magic == 42 {
        Ok(TiffHeader { little_endian: little, big: false, first_ifd: read_uint(header, 4, 4, little) })
    } else {
        Err(TiffError::Magic { found: magic as u16 })
    }
}

/// Bytes of one directory entry.
pub open spec fn entry_bytes(big: bool) -> nat {
    if big { 20 } else { 12 }
}

/// Bytes of a directory's entry count.
pub open spec fn count_bytes(big: bool) -> nat {
    if big { 8 } else { 2 }
}

/// Bytes of an offset, which is also how much a value can hold inside its entry.
pub open spec fn offset_bytes(big: bool) -> nat {
    if big { 8 } else { 4 }
}

/// Most entries a directory may claim; more is taken for a corrupt file.
pub const MAX_ENTRIES: u64 = 4096;

/// Most values one entry may hold; an entry claiming more is skipped.
pub const MAX_VALUES: u64 = 1_000_000;

impl TiffHeader {
    pub fn entry_size(&self) -> (n: usize)
        ensures
            n == entry_bytes(self.big),
    {
        if self.big { 20 } else { 12 }
    }

    pub fn count_size(&self) -> (n: usize)
        ensures
            n == count_bytes(self.big),
    {
        if self.big { 8 } else { 2 }
    }

    pub fn offset_size(&self) -> (n: usize)
        ensures
            n == offset_bytes(self.big),
    {
        if self.big { 8 } else { 4 }
    }

    /// How many entries the directory whose count is `buf` holds.
    pub fn entry_count(&self, buf: &[u8]) -> (r: Result<u64, TiffError>)
        requires
            buf@.len() == count_bytes(self.big),
        ensures
            ({
                let n = uint_value(buf@, self.little_endian);
                if n > MAX_ENTRIES {
                    r == Err::<u64, TiffError>(TiffError::EntryCount { count: n as u64 })
                } else {
                    r == Ok::<u64, TiffError>(n as u64)
                }
            }),
    {
        let n = read_uint(buf, 0, buf.len(), self.little_endian);
        assert(buf@.subrange(0, buf@.len() as int) =~= buf@);
        if n > MAX_ENTRIES {
            Err(TiffError::EntryCount { count: n })
        } else {
            Ok(n)
        }
    }

    /// Where the next directory starts, from the offset that ends a directory; 0 for none.
    pub fn next_directory(&self, buf: &[u8]) -> (next: u64)
        requires
            buf@.len() == offset_bytes(self.big),
        ensures
            next == uint_value(buf@, self.little_endian),
    {
        let n = read_uint(buf, 0, buf.len(), self.little_endian);
        assert(buf@.subrange(0, buf@.len() as int) =~= buf@);
        n
    }
}

/// Where an entry's values are: inside the entry, or at an offset in the file.
#[derive(Debug, Clone, PartialEq, Eq)]
pub enum EntryData {
    Inline(Vec<u8>),
    At { offset: u64, len: u64 },
}

/// One directory entry, with the place of its values.
#[derive(Debug, Clone, PartialEq, Eq)]
pub struct RawEntry {
    pub tag: u16,
    pub kind: u16,
    pub count: u64,
    pub data: EntryData,
}

/// Where an entry's values are, as plain values.
pub enum Place {
    Inline(Seq<u8>),
    At(u64, u64),
}

pub open spec fn place_of(d: EntryData) -> Place {
    match d {
        EntryData::Inline(v) => Place::Inline(v@),
        EntryData::At { offset, len } => Place::At(offset, len),
    }
}

/// The entry encoded by `e`, or `None` for one this reader skips: an unknown type, or more
/// values than any real tag has.
pub open spec fn entry_of(e: Seq<u8>, h: TiffHeader) -> Option<(u16, u16, u64, Place)> {
    let le = h.little_endian;
    let tag = uint_value(e.subrange(0, 2), le) as u16;
    let kind = uint_value(e.subrange(2, 4), le) as u16;
    let n = if h.big { uint_value(e.subrange(4, 12), le) } else { uint_value(e.subrange(4, 8), le) };
    let payload = e.subrange(if h.big { 12 } else { 8 }, e.len() as int);
    let size = field_size(kind);
    if size == 0 || n > MAX_VALUES {
        None
    } else if size * n <= offset_bytes(h.big) {
        Some((tag, kind, n as u64, Place::Inline(payload.subrange(0, (size * n) as int))))
    } else {
        Some((tag, kind, n as u64, Place::At(uint_value(payload.subrange(0, offset_bytes(h.big) as int), le) as u64, (size * n) as u64)))
    }
}

/// Where an entry's values are read from follows from their size alone: values that fit in the
/// entry's offset field (4 bytes in classic TIFF, 8 in BigTIFF) are inline, and are exactly the
/// first `size * count` bytes after the count; only values too large for it are at an offset,
/// and the length read there is all of them.
pub proof fn values_that_fit_are_inline(e: Seq<u8>, h: TiffHeader)
    requires
        e.len() == entry_bytes(h.big),
        entry_of(e, h) is Some,
    ensures
        entry_of(e, h) matches Some((_, kind, n, place)) && ({
            let total = field_size(kind) * n;
            let payload = e.subrange(if h.big { 12 } else { 8 }, e.len() as int);
            &&& total <= offset_bytes(h.big) ==> place is Inline
            &&& (place matches Place::Inline(d) ==> d.len() == total && d == payload.subrange(0, total as int)
                && total <= offset_bytes(h.big))
            &&& (place matches Place::At(_, len) ==> len == total && total > offset_bytes(h.big))
        }),
{
    let le = h.little_endian;
    let n = if h.big { uint_value(e.subrange(4, 12), le) } else { uint_value(e.subrange(4, 8), le) };
    let kind = uint_value(e.subrange(2, 4), le) as u16;
    assert(field_size(kind) * n <= 8 * MAX_VALUES) by (nonlinear_arith)
        requires
            field_size(kind) <= 8,
            n <= MAX_VALUES;
}

/// The entries of the first `k` in a directory block that this reader keeps, in order.
pub open spec fn entries_of(block: Seq<u8>, h: TiffHeader, k: nat) -> Seq<(u16, u16, u64, Place)>
    decreases k,
{
    if k == 0 {
        Seq::empty()
    } else {
        let rest = entries_of(block, h, (k - 1) as nat);
        let size = entry_bytes(h.big);
        match entry_of(block.subrange((k - 1) * size, (k * size) as int), h) {
            Some(e) => rest.push(e),
            None => rest,
        }
    }
}

pub open spec fn entry_view(e: RawEntry) -> (u16, u16, u64, Place) {
    (e.tag, e.kind, e.count, place_of(e.data))
}

fn copy_range(b: &[u8], at: usize, n: usize) -> (out: Vec<u8>)
    requires
        at + n <= b@.len(),
    ensures
        out@ == b@.subrange(at as int, at + n),
{
    let len = b.len();
    let mut out: Vec<u8> = Vec::new();
    let mut i: usize = 0;
    while i < n
        invariant
            i <= n,
            at + n <= b@.len(),
            b@.len() == len,
            out@ == b@.subrange(at as int, at + i),
        decreases n - i,
    {
        out.push(b[at + i]);
        assert(out@ =~= b@.subrange(at as int, at + i + 1));
        i = i + 1;
    }
    out
}

fn parse_entry(block: &[u8], at: usize, h: &TiffHeader) -> (r: Option<RawEntry>)
    requires
        at + entry_bytes(h.big) <= block@.len(),
    ensures
        match entry_of(block@.subrange(at as int, at + entry_bytes(h.big)), *h) {
            Some(v) => r matches Some(e) && entry_view(e) == v,
            None => r is None,
        },
{
    let ghost e = block@.subrange(at as int, at + entry_bytes(h.big));
    let _len = block.len();
    let le = h.little_endian;
    let tag = read_uint(block, at, 2, le);
    let kind = read_uint(block, at + 2, 2, le);
    proof {
        assert(block@.subrange(at as int, at + 2) =~= e.subrange(0, 2));
        assert(block@.subrange(at + 2, at + 4) =~= e.subrange(2, 4));
        lemma_le_bound(e.subrange(0, 2));
        lemma_be_bound(e.subrange(0, 2));
        lemma_le_bound(e.subrange(2, 4));
        lemma_be_bound(e.subrange(2, 4));
        assert(pow256(2) == 65536) by {
            reveal_with_fuel(pow256, 3);
        }
    }
    let tag = tag as u16;
    let kind = kind as u16;
    let n = if h.big { read_uint(block, at + 4, 8, le) } else { read_uint(block, at + 4, 4, le) };
    let start: usize = if h.big { at + 12 } else { at + 8 };
    let inline: usize = h.offset_size();
    proof {
        if h.big {
            assert(block@.subrange(at + 4, at + 12) =~= e.subrange(4, 12));
        } else {
            assert(block@.subrange(at + 4, at + 8) =~= e.subrange(4, 8));
        }
    }
    let size = type_size(kind);
    if size == 0 || n > MAX_VALUES {
        return None;
    }
    assert(size as u64 * n <= 8 * MAX_VALUES) by (nonlinear_arith)
        requires
            size <= 8,
            n <= MAX_VALUES,
    ;
    let total: u64 = size as u64 * n;
    let ghost payload = e.subrange(if h.big { 12 } else { 8 }, e.len() as int);
    if total <= inline as u64 {
        let bytes = copy_range(block, start, total as usize);
        assert(bytes@ =~= payload.subrange(0, total as int));
        Some(RawEntry { tag, kind, count: n, data: EntryData::Inline(bytes) })
    } else {
        let offset = read_uint(block, start, inline, le);
        assert(block@.subrange(start as int, start + inline) =~= payload.subrange(0, inline as int));
        Some(RawEntry { tag, kind, count: n, data: EntryData::At { offset, len: total } })
    }
}

/// The entries of a directory block, `block.len() / entry_size` of them, that this reader keeps.
pub fn parse_entries(block: &[u8], h: &TiffHeader) -> (entries: Vec<RawEntry>)
    ensures
        entries@.map_values(|e: RawEntry| entry_view(e)) == entries_of(block@, *h, block@.len() / entry_bytes(h.big)),
{
    let size = h.entry_size();
    let len = block.len();
    let count = len / size;
    let mut entries: Vec<RawEntry> = Vec::new();
    let mut k: usize = 0;
    while k < count
        invariant
            k <= count,
            size == entry_bytes(h.big),
            block@.len() == len,
            count == block@.len() / entry_bytes(h.big),
            entries@.map_values(|e: RawEntry| entry_view(e)) == entries_of(block@, *h, k as nat),
        decreases count - k,
    {
        proof {
            assert((k + 1) * size <= count * size) by (nonlinear_arith)
                requires
                    k + 1 <= count,
                    size > 0,
            ;
            assert(count * size <= block@.len()) by (nonlinear_arith)
                requires
                    count == block@.len() / (size as nat),
                    size > 0,
            ;
            assert((k + 1) * size == k * size + size) by (nonlinear_arith);
        }
        let at = k * size;
        let ghost before = entries@;
        match parse_entry(block, at, h) {
            Some(e) => {
                entries.push(e);
                assert(entries@.map_values(|e: RawEntry| entry_view(e)) =~= before.map_values(|e: RawEntry| entry_view(e)).push(entry_view(e)));
            },
            None => {},
        }
        k = k + 1;
    }
    entries
}

/// A tag's values: integers, doubles (as their IEEE 754 bit patterns), or text (as its bytes).
#[derive(Debug, Clone, PartialEq, Eq)]
pub enum TagValue {
    Ints(Vec<u64>),
    Doubles(Vec<u64>),
    Text(Vec<u8>),
}

/// The `i`-th integer of a field, when it is there and of an integer type this reader reads.
pub open spec fn int_at(bytes: Seq<u8>, kind: u16, i: int, le: bool) -> Option<u64> {
    let size = field_size(kind);
    if (i + 1) * size > bytes.len() {
        None
    } else if kind == 1 || kind == 3 || kind == 4 || kind == 16 || kind == 18 {
        Some(uint_value(bytes.subrange(i * size, (i + 1) * size), le) as u64)
    } else {
        None
    }
}

/// The integers of the first `n` values of a field, skipping those that are not there.
pub open spec fn ints_of(bytes: Seq<u8>, kind: u16, n: nat, le: bool) -> Seq<u64>
    decreases n,
{
    if n == 0 {
        Seq::empty()
    } else {
        let rest = ints_of(bytes, kind, (n - 1) as nat, le);
        match int_at(bytes, kind, n - 1, le) {
            Some(v) => rest.push(v),
            None => rest,
        }
    }
}

/// The bit patterns of the whole eight-byte doubles in `bytes`.
pub open spec fn doubles_of(bytes: Seq<u8>, le: bool) -> Seq<u64> {
    Seq::new(bytes.len() / 8, |i: int| uint_value(bytes.subrange(8 * i, 8 * i + 8), le) as u64)
}

proof fn lemma_ints_past_end(bytes: Seq<u8>, kind: u16, n: nat, limit: nat, le: bool)
    requires
        field_size(kind) > 0,
        limit == bytes.len() / field_size(kind),
        n >= limit,
    ensures
        ints_of(bytes, kind, n, le) == ints_of(bytes, kind, limit, le),
    decreases n,
{
    if n > limit {
        let size = field_size(kind);
        assert(n * size > bytes.len()) by (nonlinear_arith)
            requires
                n > limit,
                limit == bytes.len() / size,
                size > 0,
        ;
        lemma_ints_past_end(bytes, kind, (n - 1) as nat, limit, le);
    }
}

/// Decode a field's bytes by its type: text for ASCII, doubles for DOUBLE, integers otherwise.
pub fn decode_value(kind: u16, bytes: &[u8], count: u64, little_endian: bool) -> (v: TagValue)
    ensures
        kind == 2 ==> (v matches TagValue::Text(t) && t@ == bytes@),
        kind == 12 ==> (v matches TagValue::Doubles(d) && d@ == doubles_of(bytes@, little_endian)),
        kind != 2 && kind != 12 ==> (v matches TagValue::Ints(xs) && xs@ == ints_of(bytes@, kind, count as nat, little_endian)),
{
    let len = bytes.len();
    if kind == 2 {
        let t = copy_range(bytes, 0, len);
        assert(bytes@.subrange(0, len as int) =~= bytes@);
        return TagValue::Text(t);
    }
    if kind == 12 {
        let mut d: Vec<u64> = Vec::new();
        let n = len / 8;
        let mut i: usize = 0;
        while i < n
            invariant
                i <= n,
                n == bytes@.len() / 8,
                bytes@.len() == len,
                d@ =~= doubles_of(bytes@, little_endian).take(i as int),
            decreases n - i,
        {
            assert(8 * i + 8 <= bytes@.len()) by (nonlinear_arith)
                requires
                    i < n,
                    n == bytes@.len() / 8,
            ;
            d.push(read_uint(bytes, 8 * i, 8, little_endian));
            i = i + 1;
        }
        return TagValue::Doubles(d);
    }
    let size = type_size(kind);
    let mut xs: Vec<u64> = Vec::new();
    if size == 0 {
        proof {
            assert forall|n: nat| #[trigger] ints_of(bytes@, kind, n, little_endian) == Seq::<u64>::empty() by {
                lemma_ints_none(bytes@, kind, n, little_endian);
            }
        }
        return TagValue::Ints(xs);
    }
    let limit: u64 = (len / size) as u64;
    let stop: u64 = if count < limit { count } else { limit };
    let mut i: u64 = 0;
    while i < stop
        invariant
            i <= stop,
            stop <= limit,
            limit == bytes@.len() / (size as nat),
            size == field_size(kind),
            size > 0,
            size <= 8,
            bytes@.len() == len,
            xs@ == ints_of(bytes@, kind, i as nat, little_endian),
        decreases stop - i,
    {
        assert((i + 1) * size <= bytes@.len()) by (nonlinear_arith)
            requires
                i < limit,
                limit == bytes@.len() / (size as nat),
                size > 0,
        ;
        assert((i + 1) * size == i * size + size) by (nonlinear_arith);
        let at: usize = i as usize * size;
        if kind == 1 || kind == 3 || kind == 4 || kind == 16 || kind == 18 {
            xs.push(read_uint(bytes, at, size, little_endian));
        }
        i = i + 1;
    }
    proof {
        if count >= limit {
            lemma_ints_past_end(bytes@, kind, count as nat, limit as nat, little_endian);
        }
    }
    TagValue::Ints(xs)
}

proof fn lemma_ints_none(bytes: Seq<u8>, kind: u16, n: nat, le: bool)
    requires
        field_size(kind) == 0,
    ensures
        ints_of(bytes, kind, n, le) == Seq::<u64>::empty(),
    decreases n,
{
    if n > 0 {
        lemma_ints_none(bytes, kind, (n - 1) as nat, le);
    }
}

/// The value recorded for `tag`: the last entry for it, as a later entry replaces an earlier one.
pub open spec fn tag_lookup(tags: Seq<(u16, TagValue)>, tag: u16) -> Option<TagValue>
    decreases tags.len(),
{
    if tags.len() == 0 {
        None
    } else if tags.last().0 == tag {
        Some(tags.last().1)
    } else {
        tag_lookup(tags.drop_last(), tag)
    }
}

/// The value recorded for `tag`, if any.
pub fn tag_value(tags: &[(u16, TagValue)], tag: u16) -> (r: Option<&TagValue>)
    ensures
        match r {
            Some(v) => tag_lookup(tags@, tag) == Some(*v),
            None => tag_lookup(tags@, tag) is None,
        },
{
    let mut i: usize = tags.len();
    assert(tags@.take(i as int) =~= tags@);
    while i > 0
        invariant
            i <= tags@.len(),
            tag_lookup(tags@, tag) == tag_lookup(tags@.take(i as int), tag),
        decreases i,
    {
        assert(tags@.take(i as int).drop_last() =~= tags@.take(i - 1));
        if tags[i - 1].0 == tag {
            return Some(&tags[i - 1].1);
        }
        i = i - 1;
    }
    None
}

pub open spec fn pow2n(n: nat) -> nat
    decreases n,
{
    if n == 0 {
        1
    } else {
        2 * pow2n((n - 1) as nat)
    }
}

proof fn lemma_pow2n_pos(n: nat)
    ensures
        pow2n(n) >= 1,
    decreases n,
{
    if n > 0 {
        lemma_pow2n_pos((n - 1) as nat);
    }
}

proof fn lemma_pow2n_mono(a: nat, b: nat)
    requires
        a <= b,
    ensures
        1 <= pow2n(a) <= pow2n(b),
    decreases b,
{
    lemma_pow2n_pos(a);
    if a < b {
        lemma_pow2n_mono(a, (b - 1) as nat);
    }
}

/// `f as u64` for the double whose bit pattern is `bits`: truncated toward zero, saturating at
/// both ends, with NaN giving 0.
pub open spec fn f64_to_u64(bits: u64) -> u64 {
    let negative = bits >= 0x8000_0000_0000_0000;
    let e = (bits / 0x10_0000_0000_0000) % 2048;
    let m = bits % 0x10_0000_0000_0000;
    if e == 2047 {
        if m != 0 || negative { 0 } else { u64::MAX }
    } else if negative || e < 1023 {
        0
    } else if e >= 1087 {
        u64::MAX
    } else if e >= 1075 {
        ((0x10_0000_0000_0000 + m) * pow2n((e - 1075) as nat)) as u64
    } else {
        ((0x10_0000_0000_0000 + m) / (pow2n((1075 - e) as nat) as int)) as u64
    }
}

/// The double with bit pattern `bits`, converted with `as u64`.
pub fn double_to_u64(bits: u64) -> (v: u64)
    ensures
        v == f64_to_u64(bits),
{
    let negative = bits >= 0x8000_0000_0000_0000;
    let e = (bits / 0x10_0000_0000_0000) % 2048;
    let m = bits % 0x10_0000_0000_0000;
    if e == 2047 {
        return if m != 0 || negative { 0 } else { u64::MAX };
    }
    if negative || e < 1023 {
        return 0;
    }
    if e >= 1087 {
        return u64::MAX;
    }
    let mut v: u64 = 0x10_0000_0000_0000 + m;
    if e >= 1075 {
        let k = e - 1075;
        let mut i: u64 = 0;
        assert(pow2n(0) == 1);
        while i < k
            invariant
                i <= k,
                k <= 11,
                m < 0x10_0000_0000_0000,
                v == (0x10_0000_0000_0000 + m) * pow2n(i as nat),
                pow2n(i as nat) <= 2048,
            decreases k - i,
        {
            proof {
                lemma_pow2n_mono((i + 1) as nat, 11);
                assert(pow2n(11) == 2048) by {
                    reveal_with_fuel(pow2n, 12);
                }
                assert((0x10_0000_0000_0000 + m) * pow2n((i + 1) as nat) < 0x20_0000_0000_0000 * 2048) by (nonlinear_arith)
                    requires
                        m < 0x10_0000_0000_0000,
                        1 <= pow2n((i + 1) as nat) <= 2048,
                ;
                assert((0x10_0000_0000_0000 + m) * pow2n((i + 1) as nat) == v * 2) by (nonlinear_arith)
                    requires
                        v == (0x10_0000_0000_0000 + m) * pow2n(i as nat),
                        pow2n((i + 1) as nat) == 2 * pow2n(i as nat),
                ;
            }
            v = v * 2;
            i = i + 1;
        }
        v
    } else {
        let k = 1075 - e;
        let mut i: u64 = 0;
        assert(pow2n(0) == 1);
        while i < k
            invariant
                i <= k,
                v == (0x10_0000_0000_0000 + m) / (pow2n(i as nat) as int),
            decreases k - i,
        {
            proof {
                lemma_pow2n_mono(i as nat, i as nat);
                vstd::arithmetic::div_mod::lemma_div_denominator((0x10_0000_0000_0000 + m) as int, pow2n(i as nat) as int, 2);
                assert(pow2n((i + 1) as nat) == pow2n(i as nat) * 2);
            }
            v = v / 2;
            i = i + 1;
        }
        v
    }
}

/// A value's first integer: the first of its integers, or its first double converted as `as u64`
/// does. Text has none.
pub open spec fn first_int_of(v: Option<TagValue>) -> Option<u64> {
    match v {
        Some(TagValue::Ints(xs)) => if xs@.len() > 0 { Some(xs@[0]) } else { None },
        Some(TagValue::Doubles(ds)) => if ds@.len() > 0 { Some(f64_to_u64(ds@[0])) } else { None },
        _ => None,
    }
}

pub fn first_int(v: Option<&TagValue>) -> (r: Option<u64>)
    ensures
        r == first_int_of(match v { Some(x) => Some(*x), None => None }),
{
    match v {
        Some(TagValue::Ints(xs)) => if xs.len() > 0 { Some(xs[0]) } else { None },
        Some(TagValue::Doubles(ds)) => if ds.len() > 0 { Some(double_to_u64(ds[0])) } else { None },
        _ => None,
    }
}

// The tags this reader needs.
pub const IMAGE_WIDTH: u16 = 256;
pub const IMAGE_LENGTH: u16 = 257;
pub const BITS_PER_SAMPLE: u16 = 258;
pub const COMPRESSION: u16 = 259;
pub const PREDICTOR: u16 = 317;
pub const TILE_WIDTH: u16 = 322;
pub const TILE_LENGTH: u16 = 323;
pub const TILE_OFFSETS: u16 = 324;
pub const TILE_BYTE_COUNTS: u16 = 325;
pub const SAMPLE_FORMAT: u16 = 339;
pub const MODEL_PIXEL_SCALE: u16 = 33550;
pub const MODEL_TIEPOINT: u16 = 33922;
pub const GDAL_NODATA: u16 = 42113;

/// Where a level sits on the ground, as IEEE 754 bit patterns: metres per pixel, and the
/// projected coordinate of its top-left corner.
#[derive(Debug, Clone, Copy, PartialEq, Eq, Structural)]
pub struct GeoRef {
    pub scale_x: u64,
    pub scale_y: u64,
    pub origin_x: u64,
    pub origin_y: u64,
}

/// One resolution level: the full image, or one of its overviews.
#[derive(Debug, Clone, PartialEq, Eq)]
pub struct Level {
    pub width: u64,
    pub height: u64,
    pub tile_width: u64,
    pub tile_height: u64,
    pub compression: u64,
    pub predictor: u64,
    pub offsets: Vec<u64>,
    pub byte_counts: Vec<u64>,
    /// `None` for an overview without geo tags of its own: it covers the same ground as the
    /// full image, so its scale follows from the size ratio.
    pub georef: Option<GeoRef>,
}

/// A value's integers; `None` when the tag is absent, nothing when it holds no integers.
pub open spec fn ints_in(v: Option<TagValue>) -> Option<Seq<u64>> {
    match v {
        Some(TagValue::Ints(xs)) => Some(xs@),
        Some(_) => Some(Seq::empty()),
        None => None,
    }
}

/// A value's doubles; nothing when the tag is absent or holds none.
pub open spec fn doubles_in(v: Option<TagValue>) -> Seq<u64> {
    match v {
        Some(TagValue::Doubles(ds)) => ds@,
        _ => Seq::empty(),
    }
}

/// The geo tags' placement, when both are there and long enough.
pub open spec fn georef_of(tags: Seq<(u16, TagValue)>) -> Option<GeoRef> {
    let scale = doubles_in(tag_lookup(tags, MODEL_PIXEL_SCALE));
    let tie = doubles_in(tag_lookup(tags, MODEL_TIEPOINT));
    if scale.len() >= 2 && tie.len() >= 6 {
        Some(GeoRef { scale_x: scale[0], scale_y: scale[1], origin_x: tie[3], origin_y: tie[4] })
    } else {
        None
    }
}

/// Whether a directory describes a tiled single-band 32-bit float level this reader can use.
/// Without geo tags a level is only usable as an overview of a full image already read.
pub open spec fn usable_level(tags: Seq<(u16, TagValue)>, has_full: bool) -> bool {
    let offsets = ints_in(tag_lookup(tags, TILE_OFFSETS));
    let counts = ints_in(tag_lookup(tags, TILE_BYTE_COUNTS));
    &&& first_int_of(tag_lookup(tags, IMAGE_WIDTH)) is Some
    &&& first_int_of(tag_lookup(tags, IMAGE_LENGTH)) is Some
    &&& first_int_of(tag_lookup(tags, TILE_WIDTH)) is Some
    &&& first_int_of(tag_lookup(tags, TILE_LENGTH)) is Some
    &&& offsets is Some
    &&& counts is Some
    &&& offsets.unwrap().len() > 0
    &&& offsets.unwrap().len() == counts.unwrap().len()
    &&& first_int_of(tag_lookup(tags, BITS_PER_SAMPLE)) == Some(32u64)
    &&& (first_int_of(tag_lookup(tags, SAMPLE_FORMAT)) matches Some(f) ==> f == 3)
    &&& (georef_of(tags) is Some || has_full)
}

pub open spec fn int_or(v: Option<u64>, default: u64) -> u64 {
    match v {
        Some(x) => x,
        None => default,
    }
}

fn ints_of_value(v: Option<&TagValue>) -> (r: Option<Vec<u64>>)
    ensures
        match r {
            Some(xs) => ints_in(match v { Some(x) => Some(*x), None => None }) == Some(xs@),
            None => ints_in(match v { Some(x) => Some(*x), None => None }) is None,
        },
{
    match v {
        Some(TagValue::Ints(xs)) => {
            let mut out: Vec<u64> = Vec::new();
            let mut i: usize = 0;
            while i < xs.len()
                invariant
                    i <= xs@.len(),
                    out@ == xs@.take(i as int),
                decreases xs@.len() - i,
            {
                out.push(xs[i]);
                assert(out@ =~= xs@.take(i + 1));
                i = i + 1;
            }
            assert(xs@.take(xs@.len() as int) =~= xs@);
            Some(out)
        },
        Some(_) => Some(Vec::new()),
        None => None,
    }
}

fn georef(tags: &[(u16, TagValue)]) -> (r: Option<GeoRef>)
    ensures
        r == georef_of(tags@),
{
    let scale = tag_value(tags, MODEL_PIXEL_SCALE);
    let tie = tag_value(tags, MODEL_TIEPOINT);
    match (scale, tie) {
        (Some(TagValue::Doubles(s)), Some(TagValue::Doubles(t))) => {
            if s.len() >= 2 && t.len() >= 6 {
                Some(GeoRef { scale_x: s[0], scale_y: s[1], origin_x: t[3], origin_y: t[4] })
            } else {
                None
            }
        },
        _ => None,
    }
}

/// The level a directory describes, if it is one this reader can use. `has_full` says whether
/// the full image was already read, which an overview without geo tags needs.
pub fn level_from(tags: &[(u16, TagValue)], has_full: bool) -> (r: Option<Level>)
    ensures
        usable_level(tags@, has_full) <==> r is Some,
        r matches Some(l) ==> {
            &&& Some(l.width) == first_int_of(tag_lookup(tags@, IMAGE_WIDTH))
            &&& Some(l.height) == first_int_of(tag_lookup(tags@, IMAGE_LENGTH))
            &&& Some(l.tile_width) == first_int_of(tag_lookup(tags@, TILE_WIDTH))
            &&& Some(l.tile_height) == first_int_of(tag_lookup(tags@, TILE_LENGTH))
            &&& Some(l.offsets@) == ints_in(tag_lookup(tags@, TILE_OFFSETS))
            &&& Some(l.byte_counts@) == ints_in(tag_lookup(tags@, TILE_BYTE_COUNTS))
            &&& l.compression == int_or(first_int_of(tag_lookup(tags@, COMPRESSION)), 1)
            &&& l.predictor == int_or(first_int_of(tag_lookup(tags@, PREDICTOR)), 1)
            &&& l.georef == georef_of(tags@)
        },
{
    let width = match first_int(tag_value(tags, IMAGE_WIDTH)) { Some(v) => v, None => return None };
    let height = match first_int(tag_value(tags, IMAGE_LENGTH)) { Some(v) => v, None => return None };
    let tile_width = match first_int(tag_value(tags, TILE_WIDTH)) { Some(v) => v, None => return None };
    let tile_height = match first_int(tag_value(tags, TILE_LENGTH)) { Some(v) => v, None => return None };
    let offsets = match ints_of_value(tag_value(tags, TILE_OFFSETS)) { Some(v) => v, None => return None };
    let byte_counts = match ints_of_value(tag_value(tags, TILE_BYTE_COUNTS)) { Some(v) => v, None => return None };
    if offsets.len() == 0 || offsets.len() != byte_counts.len() {
        return None;
    }
    if first_int(tag_value(tags, BITS_PER_SAMPLE)) != Some(32u64) {
        return None;
    }
    if let Some(f) = first_int(tag_value(tags, SAMPLE_FORMAT)) {
        if f != 3 {
            return None;
        }
    }
    let geo = georef(tags);
    if geo.is_none() && !has_full {
        return None;
    }
    let compression = match first_int(tag_value(tags, COMPRESSION)) { Some(v) => v, None => 1 };
    let predictor = match first_int(tag_value(tags, PREDICTOR)) { Some(v) => v, None => 1 };
    Some(Level { width, height, tile_width, tile_height, compression, predictor, offsets, byte_counts, georef: geo })
}

impl Level {
    /// How many tiles this level is stored in.
    pub fn tile_count(&self) -> (n: usize)
        ensures
            n == self.offsets@.len(),
    {
        self.offsets.len()
    }

    /// Tiles per row.
    pub fn tiles_across(&self) -> (n: u64)
        requires
            self.tile_width > 0,
        ensures
            n == (self.width + self.tile_width - 1) / (self.tile_width as int),
    {
        let w = self.width;
        let d = self.tile_width;
        let q = w / d;
        let r = w % d;
        proof {
            vstd::arithmetic::div_mod::lemma_fundamental_div_mod(w as int, d as int);
            vstd::arithmetic::div_mod::lemma_mod_pos_bound(w as int, d as int);
            assert(w == q * d + r) by (nonlinear_arith)
                requires
                    w == d * q + r,
            ;
        }
        if r == 0 {
            proof {
                vstd::arithmetic::div_mod::lemma_fundamental_div_mod_converse((w + d - 1) as int, d as int, q as int, (d - 1) as int);
            }
            q
        } else {
            proof {
                assert(w + d - 1 == (q + 1) * d + (r - 1)) by (nonlinear_arith)
                    requires
                        w == q * d + r,
                ;
                vstd::arithmetic::div_mod::lemma_fundamental_div_mod_converse((w + d - 1) as int, d as int, (q + 1) as int, (r - 1) as int);
                assert(q < u64::MAX) by (nonlinear_arith)
                    requires
                        w == q * d + r,
                        r > 0,
                        d > r,
                ;
            }
            q + 1
        }
    }

    /// Where tile `index` is stored in the file, as offset and length. `None` for a tile the
    /// level does not have, and for a zero-length tile, which is a legitimate sparse hole.
    pub fn tile_span(&self, index: u64) -> (r: Option<(u64, u64)>)
        ensures
            r == (if index < self.offsets@.len() && index < self.byte_counts@.len()
                && self.byte_counts@[index as int] != 0 {
                Some((self.offsets@[index as int], self.byte_counts@[index as int]))
            } else {
                None
            }),
    {
        let n = self.offsets.len();
        let c = self.byte_counts.len();
        if index >= n as u64 || index >= c as u64 {
            return None;
        }
        let at = index as usize;
        let length = self.byte_counts[at];
        if length == 0 {
            return None;
        }
        Some((self.offsets[at], length))
    }
}

/// How a tile is compressed.
#[derive(Debug, Clone, Copy, PartialEq, Eq, Structural)]
pub enum Codec {
    Uncompressed,
    Deflate,
    Zstd,
}

/// The codec for a TIFF compression code; any other code is refused and given back.
pub fn codec_for(compression: u64) -> (r: Result<Codec, u64>)
    ensures
        r == (if compression == 1 {
            Ok::<Codec, u64>(Codec::Uncompressed)
        } else if compression == 8 || compression == 32946 {
            Ok(Codec::Deflate)
        } else if compression == 50000 {
            Ok(Codec::Zstd)
        } else {
            Err(compression)
        }),
{
    if compression == 1 {
        Ok(Codec::Uncompressed)
    } else if compression == 8 || compression == 32946 {
        Ok(Codec::Deflate)
    } else if compression == 50000 {
        Ok(Codec::Zstd)
    } else {
        Err(compression)
    }
}

/// Whether a tile's bytes need the floating-point predictor undone: predictor 1 is none, 3 is
/// the floating-point one; any other is refused and given back.
pub fn needs_float_predictor(predictor: u64) -> (r: Result<bool, u64>)
    ensures
        r == (if predictor == 1 {
            Ok::<bool, u64>(false)
        } else if predictor == 3 {
            Ok(true)
        } else {
            Err(predictor)
        }),
{
    if predictor == 1 {
        Ok(false)
    } else if predictor == 3 {
        Ok(true)
    } else {
        Err(predictor)
    }
}

/// Most levels read from one file: the full image and its overviews.
pub const MAX_LEVELS: usize = 32;

/// Whether to read another directory: there is one, and the level cap is not reached.
pub fn more_directories(next: u64, levels: usize) -> (r: bool)
    ensures
        r == (next != 0 && levels < MAX_LEVELS),
{
    next != 0 && levels < MAX_LEVELS
}

/// What zstd's `decode_all` gives back for a compressed stream, or `None` when it refuses it.
pub uninterp spec fn zstd_decoded(raw: Seq<u8>) -> Option<Seq<u8>>;

/// What flate2's `ZlibDecoder` reads out of a zlib stream, or `None` when it refuses it.
pub uninterp spec fn zlib_decoded(raw: Seq<u8>) -> Option<Seq<u8>>;

/// Wraps `zstd::stream::decode_all` over a byte slice. The outcome, bytes or refusal, is a
/// function of the input alone.
#[verifier::external_body]
fn zstd_decode(raw: &[u8]) -> (r: Result<Vec<u8>, std::io::Error>)
    ensures
        match r {
            Ok(out) => zstd_decoded(raw@) == Some(out@),
            Err(_) => zstd_decoded(raw@) is None,
        },
{
    zstd::stream::decode_all(raw)
}

/// Wraps `flate2::read::ZlibDecoder::new` and `read_to_end` into a new vector. The outcome,
/// bytes or refusal, is a function of the input alone.
#[verifier::external_body]
fn zlib_decode(raw: &[u8]) -> (r: Result<Vec<u8>, std::io::Error>)
    ensures
        match r {
            Ok(out) => zlib_decoded(raw@) == Some(out@),
            Err(_) => zlib_decoded(raw@) is None,
        },
{
    let mut out = Vec::new();
    flate2::read::ZlibDecoder::new(raw).read_to_end(&mut out)?;
    Ok(out)
}

/// Why a tile could not be decoded.
#[derive(Debug, Clone, PartialEq, Eq)]
pub enum TileError {
    /// A compression this reader does not handle.
    Compression { code: u64 },
    /// A predictor this reader does not handle.
    Predictor { code: u64 },
    /// The decompressor refused the data; the text is its own message.
    Decode { message: String },
}

/// A tile's bytes as stored, decompressed, or `None` when the decompressor refuses them.
pub open spec fn decompressed(raw: Seq<u8>, c: Codec) -> Option<Seq<u8>> {
    match c {
        Codec::Uncompressed => Some(raw),
        Codec::Deflate => zlib_decoded(raw),
        Codec::Zstd => zstd_decoded(raw),
    }
}

/// Bytes in one decoded tile: four per sample.
pub open spec fn tile_len(level: Level) -> nat {
    (level.tile_width * level.tile_height * 4) as nat
}

/// Short data filled out with zeros to `n` bytes.
pub open spec fn padded(b: Seq<u8>, n: nat) -> Seq<u8> {
    if b.len() < n {
        b + Seq::new((n - b.len()) as nat, |i: int| 0u8)
    } else {
        b
    }
}

/// A tile's sample bytes, little-endian 32-bit floats, from its decompressed bytes: padded to
/// the tile's size, the predictor undone, then cut to the tile's size.
pub open spec fn tile_samples(decoded: Seq<u8>, level: Level) -> Seq<u8> {
    let full = padded(decoded, tile_len(level));
    let undone = if level.predictor == 3 {
        predictor_undone(full, level.tile_width as nat, level.tile_height as nat)
    } else {
        full
    };
    undone.take(tile_len(level) as int)
}

/// Decode one stored tile into its sample bytes: decompress, fill out to the tile's size, undo
/// the predictor, cut to size. The compression is checked first, then the predictor.
pub fn decode_tile_bytes(raw: &[u8], level: &Level) -> (r: Result<Vec<u8>, TileError>)
    requires
        level.tile_width * level.tile_height * 4 <= usize::MAX,
        level.tile_width * 4 <= usize::MAX,
    ensures
        match codec_for_spec(level.compression) {
            None => r == Err::<Vec<u8>, TileError>(TileError::Compression { code: level.compression }),
            Some(c) => match decompressed(raw@, c) {
                None => (r matches Err(TileError::Decode { .. })),
                Some(d) => if level.predictor == 1 || level.predictor == 3 {
                    (r matches Ok(v) && v@ == tile_samples(d, *level))
                } else {
                    r == Err::<Vec<u8>, TileError>(TileError::Predictor { code: level.predictor })
                },
            },
        },
{
    let codec = match codec_for(level.compression) {
        Ok(c) => c,
        Err(code) => return Err(TileError::Compression { code }),
    };
    let decoded = match codec {
        Codec::Uncompressed => copy_range(raw, 0, raw.len()),
        Codec::Deflate => match zlib_decode(raw) {
            Ok(out) => out,
            Err(e) => return Err(TileError::Decode { message: crate::package::io_error_text(&e) }),
        },
        Codec::Zstd => match zstd_decode(raw) {
            Ok(out) => out,
            Err(e) => return Err(TileError::Decode { message: crate::package::io_error_text(&e) }),
        },
    };
    assert(raw@.subrange(0, raw@.len() as int) =~= raw@);
    let ghost dec = decompressed(raw@, codec).unwrap();
    assert(decompressed(raw@, codec) == Some(dec));
    assert(decoded@ == dec);
    let expected: usize = (level.tile_width * level.tile_height * 4) as usize;
    let mut bytes = decoded;
    if bytes.len() < expected {
        let start = bytes.len();
        while bytes.len() < expected
            invariant
                start <= bytes@.len() <= expected,
                start == dec.len(),
                bytes@ == dec + Seq::new((bytes@.len() - start) as nat, |i: int| 0u8),
            decreases expected - bytes@.len(),
        {
            bytes.push(0u8);
            assert(bytes@ =~= dec + Seq::new((bytes@.len() - start) as nat, |i: int| 0u8));
        }
    }
    assert(bytes@ == padded(dec, tile_len(*level)));
    let undo = match needs_float_predictor(level.predictor) {
        Ok(u) => u,
        Err(code) => return Err(TileError::Predictor { code }),
    };
    if undo {
        let ghost before = bytes@;
        proof {
            if level.tile_width > 0 {
                assert(level.tile_height <= level.tile_width * level.tile_height) by (nonlinear_arith)
                    requires
                        level.tile_width > 0,
                ;
            }
        }
        undo_float_predictor(bytes.as_mut_slice(), level.tile_width as usize, level.tile_height as usize);
        proof {
            if level.tile_width == 0 {
                assert(predictor_undone(before, 0, (level.tile_height as usize) as nat) =~= before);
                assert(predictor_undone(before, 0, level.tile_height as nat) =~= before);
            }
        }
    }
    bytes.truncate(expected);
    Ok(bytes)
}

/// The codec a compression code names, if this reader handles it.
pub open spec fn codec_for_spec(compression: u64) -> Option<Codec> {
    if compression == 1 {
        Some(Codec::Uncompressed)
    } else if compression == 8 || compression == 32946 {
        Some(Codec::Deflate)
    } else if compression == 50000 {
        Some(Codec::Zstd)
    } else {
        None
    }
}

} // verus!

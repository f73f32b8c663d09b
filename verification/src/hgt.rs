//! SRTM `.hgt` elevation tiles.
//!
//! The format is deliberately trivial: a square grid of big-endian `i16` metres, one degree on a
//! side, north row first, west column first. The side follows from the file length - 3601 for
//! 1-arcsecond, 1201 for 3-arcsecond. `-32768` marks a void. A file is named after the degree
//! square it covers, e.g. `N44E006.hgt`, and sits either directly under the root or in a
//! `N44/` style subdirectory.
use vstd::prelude::*;
use vstd::string::StringSliceAdditionalSpecFns;
use crate::text::{decimal, digit_char, join, push_all, push_decimal, push_padded, string_of, zero_pad};

verus! {

pub const VOID: i16 = -32768;

/// `i16::from_be_bytes([hi, lo])`.
pub open spec fn be_i16(hi: u8, lo: u8) -> int {
    let u = hi as int * 256 + lo as int;
    if u >= 32768 {
        u - 65536
    } else {
        u
    }
}

fn be_i16_exec(hi: u8, lo: u8) -> (v: i16)
    ensures
        v as int == be_i16(hi, lo),
{
    let u: u32 = hi as u32 * 256 + lo as u32;
    if u >= 32768 {
        (u as i32 - 65536) as i16
    } else {
        u as i16
    }
}

pub struct HgtTile {
    /// Samples per side, including the duplicated edge.
    pub size: usize,
    data: Vec<i16>,
}

/// A byte count that is not a square grid of `i16`.
#[derive(Debug, Clone, PartialEq)]
pub struct NotSquare {
    pub bytes: usize,
}

impl NotSquare {
    /// `<bytes> bytes is not a square i16 grid`.
    pub fn message(&self) -> (m: String)
        ensures
            m@ == decimal(self.bytes as nat) + " bytes is not a square i16 grid"@,
    {
        let mut v: Vec<char> = Vec::new();
        push_decimal(&mut v, self.bytes as u64);
        let tail = crate::text::chars_of(" bytes is not a square i16 grid");
        push_all(&mut v, tail.as_slice());
        string_of(v.as_slice())
    }
}

/// Largest `s` with `s * s <= n`.
fn isqrt(n: u64) -> (s: u64)
    ensures
        s * s <= n < (s + 1) * (s + 1),
{
    let mut lo: u128 = 0;
    let mut hi: u128 = 0x1_0000_0000;
    assert(hi * hi > n) by (nonlinear_arith)
        requires
            hi == 0x1_0000_0000,
            n <= u64::MAX,
    ;
    while hi - lo > 1
        invariant
            lo < hi <= 0x1_0000_0000,
            lo * lo <= n,
            n < hi * hi,
        decreases hi - lo,
    {
        let mid: u128 = lo + (hi - lo) / 2;
        assert(mid * mid <= 0x1_0000_0000 * 0x1_0000_0000) by (nonlinear_arith)
            requires
                mid <= 0x1_0000_0000,
        ;
        if mid * mid <= n as u128 {
            lo = mid;
        } else {
            hi = mid;
        }
    }
    lo as u64
}

proof fn lemma_square_root_unique(k: nat, s: nat, n: nat)
    requires
        s * s <= n < (s + 1) * (s + 1),
        k * k == n,
    ensures
        k == s,
{
    if k < s {
        assert(k * k < s * s) by (nonlinear_arith)
            requires
                k < s,
        ;
    } else if k > s {
        assert(k * k >= (s + 1) * (s + 1)) by (nonlinear_arith)
            requires
                k >= s + 1,
        ;
    }
}

impl HgtTile {
    /// The samples, row by row from the north-west corner.
    pub closed spec fn samples(&self) -> Seq<i16> {
        self.data@
    }

    /// Samples per side.
    pub closed spec fn side(&self) -> nat {
        self.size as nat
    }

    pub fn size(&self) -> (s: usize)
        ensures
            s == self.side(),
    {
        self.size
    }

    /// Read a tile. The length must be twice a perfect square; each pair of bytes is one
    /// big-endian sample.
    pub fn parse(bytes: &[u8]) -> (r: Result<HgtTile, NotSquare>)
        ensures
            r matches Ok(t) ==> t.side() * t.side() * 2 == bytes@.len() && t.samples().len()
                == t.side() * t.side() && forall|i: int|
                0 <= i < t.samples().len() ==> #[trigger] t.samples()[i] as int == be_i16(
                    bytes@[2 * i],
                    bytes@[2 * i + 1],
                ),
            r matches Err(e) ==> e.bytes == bytes@.len() && forall|k: nat|
                #[trigger] (k * k) * 2 != bytes@.len(),
    {
        let n = bytes.len();
        let samples = n / 2;
        let s = isqrt(samples as u64);
        if (s as u128) * (s as u128) * 2 != n as u128 {
            proof {
                assert forall|k: nat| #[trigger] (k * k) * 2 != bytes@.len() by {
                    if k * k * 2 == bytes@.len() {
                        lemma_square_root_unique(k, s as nat, samples as nat);
                    }
                }
            }
            return Err(NotSquare { bytes: n });
        }
        proof {
            assert(s as int * s as int * 2 == n as int);
            assert(s as int <= s as int * s as int * 2) by (nonlinear_arith)
                requires
                    s >= 0,
            ;
        }
        let size = s as usize;
        assert(samples as int == size as int * size as int);
        let mut data: Vec<i16> = Vec::new();
        let mut i: usize = 0;
        while i < samples
            invariant
                samples * 2 == n,
                n == bytes@.len(),
                i <= samples,
                data@.len() == i,
                forall|j: int| 0 <= j < i ==> #[trigger] data@[j] as int == be_i16(
                    bytes@[2 * j],
                    bytes@[2 * j + 1],
                ),
            decreases samples - i,
        {
            data.push(be_i16_exec(bytes[2 * i], bytes[2 * i + 1]));
            i = i + 1;
        }
        Ok(HgtTile { size, data })
    }

    /// The sample at a row and column, row 0 being the north edge and column 0 the west; `None`
    /// outside the grid's storage or on a void.
    pub fn at(&self, row: usize, col: usize) -> (r: Option<i16>)
        requires
            row * self.side() + col <= usize::MAX,
        ensures
            r == (if row * self.side() + col < self.samples().len() && self.samples()[row
                * self.side() + col] != VOID {
                Some(self.samples()[row * self.side() + col])
            } else {
                None
            }),
    {
        let index = row * self.size + col;
        if index < self.data.len() && self.data[index] != VOID {
            Some(self.data[index])
        } else {
            None
        }
    }
}

/// The `.hgt` file name for a degree square, e.g. `N44E006.hgt`.
pub open spec fn hgt_name(lon_deg: int, lat_deg: int) -> Seq<char> {
    let ns = if lat_deg < 0 {
        'S'
    } else {
        'N'
    };
    let ew = if lon_deg < 0 {
        'W'
    } else {
        'E'
    };
    let lat = if lat_deg < 0 {
        -lat_deg
    } else {
        lat_deg
    };
    let lon = if lon_deg < 0 {
        -lon_deg
    } else {
        lon_deg
    };
    seq![ns] + zero_pad(decimal(lat as nat), 2) + seq![ew] + zero_pad(decimal(lon as nat), 3)
        + seq!['.', 'h', 'g', 't']
}

/// The `.hgt` file name for the degree square whose south-west corner is given.
pub fn file_name(lon_deg: i32, lat_deg: i32) -> (name: String)
    requires
        lon_deg != i32::MIN,
        lat_deg != i32::MIN,
    ensures
        name@ == hgt_name(lon_deg as int, lat_deg as int),
{
    let mut v: Vec<char> = Vec::new();
    let (ns, lat) = if lat_deg < 0 {
        ('S', -lat_deg)
    } else {
        ('N', lat_deg)
    };
    let (ew, lon) = if lon_deg < 0 {
        ('W', -lon_deg)
    } else {
        ('E', lon_deg)
    };
    v.push(ns);
    push_padded(&mut v, lat as u64, 2);
    v.push(ew);
    push_padded(&mut v, lon as u64, 3);
    push_all(&mut v, &['.', 'h', 'g', 't']);
    assert(v@ =~= hgt_name(lon_deg as int, lat_deg as int));
    string_of(v.as_slice())
}

/// `str::parse::<i32>` on a few bytes: an optional sign, then ASCII digits only.
pub open spec fn small_int(s: Seq<u8>) -> Option<int>
    decreases s.len(),
{
    if s.len() == 0 {
        None
    } else if s[0] == 45u8 || s[0] == 43u8 {
        if s.len() == 1 {
            None
        } else {
            match unsigned_bytes(s.subrange(1, s.len() as int)) {
                Some(v) => Some(
                    if s[0] == 45u8 {
                        -v
                    } else {
                        v
                    },
                ),
                None => None,
            }
        }
    } else {
        match unsigned_bytes(s) {
            Some(v) => Some(v),
            None => None,
        }
    }
}

/// The value of a run of ASCII digit bytes, most significant first.
pub open spec fn unsigned_bytes(s: Seq<u8>) -> Option<int>
    decreases s.len(),
{
    if s.len() == 0 {
        Some(0)
    } else if 48 <= s.last() <= 57 {
        match unsigned_bytes(s.drop_last()) {
            Some(v) => Some(v * 10 + (s.last() - 48)),
            None => None,
        }
    } else {
        None
    }
}

fn unsigned_bytes_exec(b: &[u8], from: usize, to: usize) -> (r: Option<i32>)
    requires
        from <= to <= b@.len(),
        to - from <= 3,
    ensures
        r matches Some(v) ==> unsigned_bytes(b@.subrange(from as int, to as int)) == Some(v as int),
        r is None ==> unsigned_bytes(b@.subrange(from as int, to as int)) is None,
    decreases to - from,
{
    if to == from {
        return Some(0);
    }
    let last = b[to - 1];
    assert(b@.subrange(from as int, to as int).drop_last() =~= b@.subrange(from as int, to - 1));
    if 48 <= last && last <= 57 {
        match unsigned_bytes_exec(b, from, to - 1) {
            Some(v) => {
                proof {
                    lemma_small_value(b@.subrange(from as int, to - 1));
                }
                Some(v * 10 + (last - 48) as i32)
            },
            None => None,
        }
    } else {
        None
    }
}

proof fn lemma_small_value(s: Seq<u8>)
    requires
        s.len() <= 3,
    ensures
        unsigned_bytes(s) matches Some(v) ==> 0 <= v && (s.len() <= 1 ==> v < 10) && (s.len()
            <= 2 ==> v < 100) && v < 1000,
    decreases s.len(),
{
    if s.len() > 0 {
        lemma_small_value(s.drop_last());
    }
}

fn small_int_exec(b: &[u8], from: usize, to: usize) -> (r: Option<i32>)
    requires
        from <= to <= b@.len(),
        to - from <= 3,
    ensures
        r matches Some(v) ==> small_int(b@.subrange(from as int, to as int)) == Some(v as int)
            && -1000 < v < 1000,
        r is None ==> small_int(b@.subrange(from as int, to as int)) is None,
{
    let ghost s = b@.subrange(from as int, to as int);
    if from == to {
        return None;
    }
    let first = b[from];
    if first == 45 || first == 43 {
        if to - from == 1 {
            return None;
        }
        assert(s.subrange(1, s.len() as int) =~= b@.subrange(from + 1, to as int));
        match unsigned_bytes_exec(b, from + 1, to) {
            Some(v) => {
                proof {
                    lemma_small_value(b@.subrange(from + 1, to as int));
                }
                if first == 45 {
                    Some(-v)
                } else {
                    Some(v)
                }
            },
            None => None,
        }
    } else {
        proof {
            lemma_small_value(b@.subrange(from as int, to as int));
        }
        unsigned_bytes_exec(b, from, to)
    }
}

/// What a file name says about the degree square it covers, as `(lon, lat)`: the name less
/// `.hgt`, at least seven bytes, with the latitude in bytes 1..3 and the longitude in bytes
/// 4..7, negated for a leading `S` and a `W` at byte 3.
pub open spec fn name_square(b: Seq<u8>) -> Option<(int, int)> {
    if b.len() >= 4 && b.subrange(b.len() - 4, b.len() as int) == seq![46u8, 104u8, 103u8, 116u8] {
        let stem = b.subrange(0, b.len() - 4);
        if stem.len() < 7 {
            None
        } else {
            match (small_int(stem.subrange(1, 3)), small_int(stem.subrange(4, 7))) {
                (Some(lat), Some(lon)) => Some(
                    (
                        if stem[3] == 87u8 {
                            -lon
                        } else {
                            lon
                        },
                        if stem[0] == 83u8 {
                            -lat
                        } else {
                            lat
                        },
                    ),
                ),
                _ => None,
            }
        }
    } else {
        None
    }
}

/// The degree square named by a `.hgt` file name, as `(lon, lat)`; `None` for anything else.
pub fn parse_name(name: &str) -> (r: Option<(i32, i32)>)
    ensures
        r matches Some((lon, lat)) ==> name_square(name.spec_bytes()) == Some((lon as int, lat as int)),
        r is None ==> name_square(name.spec_bytes()) is None,
{
    let b = name.as_bytes();
    let n = b.len();
    if n < 4 || b[n - 4] != 46 || b[n - 3] != 104 || b[n - 2] != 103 || b[n - 1] != 116 {
        proof {
            if n >= 4 && b@.subrange(n - 4, n as int) == seq![46u8, 104u8, 103u8, 116u8] {
                assert(b@.subrange(n - 4, n as int)[0] == 46u8);
                assert(b@.subrange(n - 4, n as int)[1] == 104u8);
                assert(b@.subrange(n - 4, n as int)[2] == 103u8);
                assert(b@.subrange(n - 4, n as int)[3] == 116u8);
            }
        }
        return None;
    }
    assert(b@.subrange(n - 4, n as int) =~= seq![46u8, 104u8, 103u8, 116u8]);
    let stem_len = n - 4;
    if stem_len < 7 {
        return None;
    }
    let ghost stem = b@.subrange(0, stem_len as int);
    assert(stem.subrange(1, 3) =~= b@.subrange(1, 3));
    assert(stem.subrange(4, 7) =~= b@.subrange(4, 7));
    let lat = match small_int_exec(b, 1, 3) {
        Some(v) => v,
        None => return None,
    };
    let lon = match small_int_exec(b, 4, 7) {
        Some(v) => v,
        None => return None,
    };
    let lat = if b[0] == 83 {
        -lat
    } else {
        lat
    };
    let lon = if b[3] == 87 {
        -lon
    } else {
        lon
    };
    Some((lon, lat))
}

pub struct HgtSource {
    root: String,
}

impl HgtSource {
    pub fn new(root: String) -> (s: Self)
        ensures
            s.root_dir() == root@,
    {
        Self { root }
    }

    pub closed spec fn root_dir(&self) -> Seq<char> {
        self.root@
    }

    pub fn root(&self) -> (r: &str)
        ensures
            r@ == self.root_dir(),
    {
        self.root.as_str()
    }

    /// The two places the file for a degree square may be, in the order they are tried:
    /// `<root>/N44/N44E006.hgt`, then `<root>/N44E006.hgt`.
    pub fn candidates(&self, lon_deg: i32, lat_deg: i32) -> (paths: Vec<String>)
        requires
            lon_deg != i32::MIN,
            lat_deg != i32::MIN,
        ensures
            paths@.len() == 2,
            paths@[0]@ == crate::text::path_join(
                crate::text::path_join(self.root_dir(), hgt_name(lon_deg as int, lat_deg as int).take(3)),
                hgt_name(lon_deg as int, lat_deg as int),
            ),
            paths@[1]@ == crate::text::path_join(self.root_dir(), hgt_name(lon_deg as int, lat_deg as int)),
    {
        let name = file_name(lon_deg, lat_deg);
        let chars = crate::text::chars_of(name.as_str());
        proof {
            crate::text::lemma_decimal_len((if lat_deg < 0 { -(lat_deg as int) } else { lat_deg as int }) as nat);
        }
        assert(chars@.len() >= 3);
        let group_chars = crate::text::slice_of(&chars, 0, 3);
        let group = string_of(group_chars.as_slice());
        let dir = join(self.root.as_str(), group.as_str());
        let mut paths: Vec<String> = Vec::new();
        paths.push(join(dir.as_str(), name.as_str()));
        paths.push(join(self.root.as_str(), name.as_str()));
        paths
    }
}

/// The degree squares to try for a point whose coordinates floor to `(lon_deg, lat_deg)`. A
/// point exactly on a latitude line is equally the north edge of the square below, and one on
/// a meridian the east edge of the square to the west; neighbouring tiles repeat their shared
/// row and column, so either answers the same, and only one may exist on disk.
pub open spec fn squares_for(lon_deg: int, lat_deg: int, on_lat_line: bool, on_meridian: bool) -> Seq<(int, int)> {
    seq![(lon_deg, lat_deg)]
        + (if on_lat_line { seq![(lon_deg, lat_deg - 1)] } else { Seq::empty() })
        + (if on_meridian { seq![(lon_deg - 1, lat_deg)] } else { Seq::empty() })
        + (if on_lat_line && on_meridian { seq![(lon_deg - 1, lat_deg - 1)] } else { Seq::empty() })
}

/// The squares of `squares_for`, in the order they are tried.
pub fn square_candidates(lon_deg: i32, lat_deg: i32, on_lat_line: bool, on_meridian: bool) -> (c: Vec<(i32, i32)>)
    requires
        lon_deg != i32::MIN,
        lat_deg != i32::MIN,
    ensures
        c@.map_values(|p: (i32, i32)| (p.0 as int, p.1 as int)) == squares_for(lon_deg as int, lat_deg as int, on_lat_line, on_meridian),
{
    let mut c: Vec<(i32, i32)> = Vec::new();
    c.push((lon_deg, lat_deg));
    if on_lat_line {
        c.push((lon_deg, lat_deg - 1));
    }
    if on_meridian {
        c.push((lon_deg - 1, lat_deg));
    }
    if on_lat_line && on_meridian {
        c.push((lon_deg - 1, lat_deg - 1));
    }
    assert(c@.map_values(|p: (i32, i32)| (p.0 as int, p.1 as int)) =~= squares_for(lon_deg as int, lat_deg as int, on_lat_line, on_meridian));
    c
}

/// `(lon, lat)` pairs in the order Rust gives tuples: by longitude, then latitude.
pub open spec fn square_lt(a: (i32, i32), b: (i32, i32)) -> bool {
    a.0 < b.0 || (a.0 == b.0 && a.1 < b.1)
}

/// Strictly increasing, so also free of repeats.
pub open spec fn squares_sorted(s: Seq<(i32, i32)>) -> bool {
    forall|i: int, j: int| 0 <= i < j < s.len() ==> square_lt(s[i], s[j])
}

/// Whether one of `names` is the tile of square `p`.
pub open spec fn named_square(names: Seq<String>, p: (i32, i32)) -> bool {
    exists|i: int| 0 <= i < names.len() && name_square(vstd::utf8::encode_utf8(#[trigger] names[i]@)) == Some((p.0 as int, p.1 as int))
}

fn square_before(a: (i32, i32), b: (i32, i32)) -> (r: bool)
    ensures
        r == square_lt(a, b),
{
    a.0 < b.0 || (a.0 == b.0 && a.1 < b.1)
}

fn insert_square(v: &mut Vec<(i32, i32)>, p: (i32, i32))
    requires
        squares_sorted(old(v)@),
    ensures
        squares_sorted(final(v)@),
        forall|q: (i32, i32)| final(v)@.contains(q) <==> (old(v)@.contains(q) || q == p),
{
    let mut k: usize = 0;
    while k < v.len() && square_before(v[k], p)
        invariant
            k <= v@.len(),
            forall|t: int| 0 <= t < k ==> square_lt(#[trigger] v@[t], p),
        decreases v@.len() - k,
    {
        k = k + 1;
    }
    if k < v.len() && v[k].0 == p.0 && v[k].1 == p.1 {
        assert(v@[k as int] == p);
        return;
    }
    let ghost before = v@;
    v.insert(k, p);
    proof {
        assert(v@ == before.insert(k as int, p));
        assert forall|i: int, j: int| 0 <= i < j < v@.len() implies square_lt(v@[i], v@[j]) by {
            if j < k {
                assert(v@[i] == before[i] && v@[j] == before[j]);
            } else if j == k {
                assert(v@[i] == before[i]);
            } else if i < k {
                assert(v@[i] == before[i] && v@[j] == before[j - 1]);
            } else if i == k {
                assert(v@[j] == before[j - 1]);
                assert(!square_lt(before[k as int], p));
                assert(before[k as int] != p);
                if j - 1 > k {
                    assert(square_lt(before[k as int], before[j - 1]));
                }
            } else {
                assert(v@[i] == before[i - 1] && v@[j] == before[j - 1]);
            }
        }
        assert forall|q: (i32, i32)| #![trigger v@.contains(q)] #![trigger before.contains(q)] v@.contains(q) <==> (before.contains(q) || q == p) by {
            if v@.contains(q) {
                let i = choose|i: int| 0 <= i < v@.len() && v@[i] == q;
                if i < k {
                    assert(before[i] == q);
                } else if i > k {
                    assert(before[i - 1] == q);
                }
            }
            if before.contains(q) {
                let i = choose|i: int| 0 <= i < before.len() && before[i] == q;
                if i < k {
                    assert(v@[i] == q);
                } else {
                    assert(v@[i + 1] == q);
                }
            }
            if q == p {
                assert(v@[k as int] == p);
            }
        }
    }
}

/// Degree squares covered by the files named `names` (the entries of the root and of its
/// subdirectories), in increasing order without repeats; names that are not `.hgt` tiles are
/// ignored.
pub fn coverage_of(names: &[String]) -> (c: Vec<(i32, i32)>)
    ensures
        squares_sorted(c@),
        forall|p: (i32, i32)| c@.contains(p) <==> named_square(names@, p),
{
    let mut c: Vec<(i32, i32)> = Vec::new();
    let mut i: usize = 0;
    while i < names.len()
        invariant
            i <= names@.len(),
            squares_sorted(c@),
            forall|p: (i32, i32)| c@.contains(p) <==> named_square(names@.take(i as int), p),
        decreases names@.len() - i,
    {
        let ghost before = c@;
        let parsed = parse_name(names[i].as_str());
        proof {
            assert forall|p: (i32, i32)| named_square(names@.take(i + 1), p) <==> (named_square(names@.take(i as int), p)
                || name_square(vstd::utf8::encode_utf8(names@[i as int]@)) == Some((p.0 as int, p.1 as int))) by {
                if named_square(names@.take(i + 1), p) {
                    let j = choose|j: int| 0 <= j < names@.take(i + 1).len()
                        && name_square(vstd::utf8::encode_utf8(#[trigger] names@.take(i + 1)[j]@)) == Some((p.0 as int, p.1 as int));
                    if j < i {
                        assert(names@.take(i as int)[j] == names@.take(i + 1)[j]);
                    }
                }
                if named_square(names@.take(i as int), p) {
                    let j = choose|j: int| 0 <= j < names@.take(i as int).len()
                        && name_square(vstd::utf8::encode_utf8(#[trigger] names@.take(i as int)[j]@)) == Some((p.0 as int, p.1 as int));
                    assert(names@.take(i + 1)[j] == names@.take(i as int)[j]);
                }
                if name_square(vstd::utf8::encode_utf8(names@[i as int]@)) == Some((p.0 as int, p.1 as int)) {
                    assert(names@.take(i + 1)[i as int] == names@[i as int]);
                }
            }
        }
        match parsed {
            Some(pair) => {
                insert_square(&mut c, pair);
            },
            None => {},
        }
        i = i + 1;
    }
    assert(names@.take(i as int) =~= names@);
    c
}

} // verus!

verus! {

proof fn lemma_pad2(n: nat)
    requires
        n < 100,
    ensures
        zero_pad(decimal(n), 2) == seq![digit_char(n / 10), digit_char(n % 10)],
{
    crate::text::lemma_decimal_len(n);
    if n < 10 {
        assert(zero_pad(decimal(n), 2) =~= seq!['0'] + seq![digit_char(n)]);
        assert(seq!['0'] + seq![digit_char(n)] =~= seq![digit_char(n / 10), digit_char(n % 10)]);
    } else {
        assert(decimal(n / 10) == seq![digit_char(n / 10)]);
        assert(decimal(n) =~= seq![digit_char(n / 10), digit_char(n % 10)]);
    }
}

proof fn lemma_pad3(n: nat)
    requires
        n < 1000,
    ensures
        zero_pad(decimal(n), 3) == seq![digit_char(n / 100), digit_char((n / 10) % 10), digit_char(n % 10)],
{
    crate::text::lemma_decimal_len(n);
    if n < 10 {
        assert(zero_pad(decimal(n), 3) =~= seq!['0', '0'] + seq![digit_char(n)]);
        assert(seq!['0', '0'] + seq![digit_char(n)] =~= seq![digit_char(n / 100), digit_char((n / 10) % 10), digit_char(n % 10)]);
    } else if n < 100 {
        assert(decimal(n / 10) == seq![digit_char(n / 10)]);
        assert(decimal(n) =~= seq![digit_char(n / 10), digit_char(n % 10)]);
        assert(zero_pad(decimal(n), 3) =~= seq!['0'] + decimal(n));
        assert((n / 10) % 10 == n / 10);
    } else {
        assert(decimal(n / 100) == seq![digit_char(n / 100)]);
        assert((n / 10) / 10 == n / 100);
        assert(decimal(n / 10) =~= seq![digit_char(n / 100), digit_char((n / 10) % 10)]);
        assert(decimal(n) =~= seq![digit_char(n / 100), digit_char((n / 10) % 10), digit_char(n % 10)]);
    }
}

proof fn lemma_digit_byte(d: nat)
    requires
        d < 10,
    ensures
        digit_char(d) as u8 == 48 + d,
        '0' <= digit_char(d) <= '9',
{
}

proof fn lemma_two_digits(a: nat, b: nat)
    requires
        a < 10,
        b < 10,
    ensures
        unsigned_bytes(seq![(48 + a) as u8, (48 + b) as u8]) == Some((a * 10 + b) as int),
{
    let s = seq![(48 + a) as u8, (48 + b) as u8];
    assert(s.drop_last() =~= seq![(48 + a) as u8]);
    assert(s.drop_last().drop_last() =~= Seq::<u8>::empty());
    assert(unsigned_bytes(s.drop_last().drop_last()) == Some(0int));
    assert(unsigned_bytes(s.drop_last()) == Some(a as int));
}

proof fn lemma_three_digits(a: nat, b: nat, c: nat)
    requires
        a < 10,
        b < 10,
        c < 10,
    ensures
        unsigned_bytes(seq![(48 + a) as u8, (48 + b) as u8, (48 + c) as u8]) == Some((a * 100 + b * 10 + c) as int),
{
    let s = seq![(48 + a) as u8, (48 + b) as u8, (48 + c) as u8];
    lemma_two_digits(a, b);
    assert(s.drop_last() =~= seq![(48 + a) as u8, (48 + b) as u8]);
}

/// A `.hgt` name reads back as the degree square it was made for.
pub proof fn names_read_back(name: &str, lon: int, lat: int)
    requires
        -1000 < lon < 1000,
        -100 < lat < 100,
        name@ == hgt_name(lon, lat),
    ensures
        name_square(name.spec_bytes()) == Some((lon, lat)),
{
    let alat: nat = if lat < 0 { (-lat) as nat } else { lat as nat };
    let alon: nat = if lon < 0 { (-lon) as nat } else { lon as nat };
    lemma_pad2(alat);
    lemma_pad3(alon);
    lemma_digit_byte(alat / 10);
    lemma_digit_byte(alat % 10);
    lemma_digit_byte(alon / 100);
    lemma_digit_byte((alon / 10) % 10);
    lemma_digit_byte(alon % 10);
    let ns = if lat < 0 { 'S' } else { 'N' };
    let ew = if lon < 0 { 'W' } else { 'E' };
    let chars = seq![ns, digit_char(alat / 10), digit_char(alat % 10), ew, digit_char(alon / 100),
        digit_char((alon / 10) % 10), digit_char(alon % 10), '.', 'h', 'g', 't'];
    assert(name@ =~= chars);
    assert(vstd::string::is_ascii(name)) by {
        assert forall|i: int| 0 <= i < name@.len() implies '\0' <= #[trigger] name@[i] <= '\u{7f}' by {
            assert(name@[i] == chars[i]);
        }
    }
    vstd::string::is_ascii_spec_bytes(name);
    let b = name.spec_bytes();
    let bytes = seq![ns as u8, (48 + alat / 10) as u8, (48 + alat % 10) as u8, ew as u8, (48 + alon / 100) as u8,
        (48 + (alon / 10) % 10) as u8, (48 + alon % 10) as u8, 46u8, 104u8, 103u8, 116u8];
    assert(b =~= bytes);
    assert(b.subrange(b.len() - 4, b.len() as int) =~= seq![46u8, 104u8, 103u8, 116u8]);
    let stem = b.subrange(0, b.len() - 4);
    let lat_bytes = stem.subrange(1, 3);
    let lon_bytes = stem.subrange(4, 7);
    assert(lat_bytes =~= seq![(48 + alat / 10) as u8, (48 + alat % 10) as u8]);
    assert(lon_bytes =~= seq![(48 + alon / 100) as u8, (48 + (alon / 10) % 10) as u8, (48 + alon % 10) as u8]);
    lemma_two_digits(alat / 10, alat % 10);
    lemma_three_digits(alon / 100, (alon / 10) % 10, alon % 10);
    assert(alat == (alat / 10) * 10 + alat % 10);
    assert(alon == (alon / 100) * 100 + ((alon / 10) % 10) * 10 + alon % 10);
    assert(small_int(lat_bytes) == Some(alat as int));
    assert(small_int(lon_bytes) == Some(alon as int));
}

} // verus!

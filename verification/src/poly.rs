//! Osmosis `.poly` files, the shape every step of the pipeline clips to, read as text.
//!
//! The format is a name line, then one section per ring: a ring name, coordinate pairs, `END`,
//! and a final `END` for the file. A ring whose name starts with `!` is a hole. Blank lines and
//! the white space around a line do not count. Each coordinate must be text that reads as a
//! floating-point number; it is kept as written, and turning it into one is the caller's part.
use vstd::prelude::*;
use crate::text::{
    float_text, is_float_text,
    ascii_lower, chars_of, is_ws, line_end, line_spans, run, run_end, slice_of, string_of, trim,
    trim_vec, Class,
};

verus! {

/// The lines of a text that count: each trimmed, the empty ones dropped.
pub open spec fn kept_lines(s: Seq<char>, spans: Seq<(int, int)>) -> Seq<Seq<char>>
    decreases spans.len(),
{
    if spans.len() == 0 {
        Seq::empty()
    } else {
        let rest = kept_lines(s, spans.drop_last());
        let t = trim(s.subrange(spans.last().0, spans.last().1));
        if t.len() == 0 {
            rest
        } else {
            rest.push(t)
        }
    }
}

pub open spec fn poly_lines(s: Seq<char>) -> Seq<Seq<char>> {
    kept_lines(s, line_spans(s, 0))
}

/// `END`, in any case.
pub open spec fn is_end_line(l: Seq<char>) -> bool {
    l.len() == 3 && ascii_lower(l[0]) == 'e' && ascii_lower(l[1]) == 'n' && ascii_lower(l[2]) == 'd'
}

/// The first two white-space separated words of a trimmed line, when it has two.
pub open spec fn pair_of(l: Seq<char>) -> Option<(Seq<char>, Seq<char>)> {
    let a = run(l, 0, Class::NotSpace) as int;
    let gap = run(l, a, Class::Space) as int;
    let b = run(l, a + gap, Class::NotSpace) as int;
    if a > 0 && b > 0 {
        Some((l.subrange(0, a), l.subrange(a + gap, a + gap + b)))
    } else {
        None
    }
}

/// A ring's coordinates, as written.
pub type RingText = Seq<(Seq<char>, Seq<char>)>;

/// Where the reading stands: between rings, or inside one.
pub enum Scan {
    Between { outers: Seq<RingText>, holes: Seq<RingText> },
    InRing { header: Seq<char>, ring: RingText, outers: Seq<RingText>, holes: Seq<RingText> },
}

/// Why a `.poly` text was refused, as plain values.
pub enum Fault {
    Empty,
    Unclosed(Seq<char>),
    NotAPair(Seq<char>),
    BadLongitude(Seq<char>),
    BadLatitude(Seq<char>),
    TooFewPoints(Seq<char>),
    NoOuterRing,
}

/// The rings read from line `i` on.
pub open spec fn scan(lines: Seq<Seq<char>>, i: int, st: Scan) -> Result<(Seq<RingText>, Seq<RingText>), Fault>
    decreases lines.len() - i,
{
    if i < 0 {
        Err(Fault::Empty)
    } else {
        match st {
            Scan::Between { outers, holes } => {
                if i >= lines.len() || is_end_line(lines[i]) {
                    Ok((outers, holes))
                } else {
                    scan(lines, i + 1, Scan::InRing { header: lines[i], ring: Seq::empty(), outers, holes })
                }
            },
            Scan::InRing { header, ring, outers, holes } => {
                if i >= lines.len() {
                    Err(Fault::Unclosed(header))
                } else if is_end_line(lines[i]) {
                    if ring.len() < 3 {
                        Err(Fault::TooFewPoints(header))
                    } else if header[0] == '!' {
                        scan(lines, i + 1, Scan::Between { outers, holes: holes.push(ring) })
                    } else {
                        scan(lines, i + 1, Scan::Between { outers: outers.push(ring), holes })
                    }
                } else {
                    match pair_of(lines[i]) {
                        Some(p) => if !float_text(p.0) {
                            Err(Fault::BadLongitude(lines[i]))
                        } else if !float_text(p.1) {
                            Err(Fault::BadLatitude(lines[i]))
                        } else {
                            scan(lines, i + 1, Scan::InRing { header, ring: ring.push(p), outers, holes })
                        },
                        None => Err(Fault::NotAPair(lines[i])),
                    }
                }
            },
        }
    }
}

/// The outer rings a reading state has collected.
pub open spec fn outers_of(st: Scan) -> Seq<RingText> {
    match st {
        Scan::Between { outers, .. } => outers,
        Scan::InRing { outers, .. } => outers,
    }
}

/// The holes a reading state has collected.
pub open spec fn holes_of(st: Scan) -> Seq<RingText> {
    match st {
        Scan::Between { holes, .. } => holes,
        Scan::InRing { holes, .. } => holes,
    }
}

/// Reading on never loses a ring already read: the rings a reading ends with start with the ones
/// it had, outer rings and holes alike.
pub proof fn rings_read_are_kept(lines: Seq<Seq<char>>, i: int, st: Scan)
    ensures
        scan(lines, i, st) matches Ok((o, h)) ==> o.len() >= outers_of(st).len()
            && o.subrange(0, outers_of(st).len() as int) == outers_of(st) && h.len() >= holes_of(st).len()
            && h.subrange(0, holes_of(st).len() as int) == holes_of(st),
    decreases lines.len() - i,
{
    if i >= 0 {
        let o0 = outers_of(st);
        let h0 = holes_of(st);
        match st {
            Scan::Between { outers, holes } => {
                if i >= lines.len() || is_end_line(lines[i]) {
                    assert(o0.subrange(0, o0.len() as int) =~= o0);
                    assert(h0.subrange(0, h0.len() as int) =~= h0);
                } else {
                    rings_read_are_kept(lines, i + 1, Scan::InRing { header: lines[i], ring: Seq::empty(), outers, holes });
                }
            },
            Scan::InRing { header, ring, outers, holes } => {
                if i < lines.len() {
                    if is_end_line(lines[i]) {
                        if ring.len() >= 3 {
                            if header[0] == '!' {
                                let next = Scan::Between { outers, holes: holes.push(ring) };
                                rings_read_are_kept(lines, i + 1, next);
                                if let Ok((o, h)) = scan(lines, i, st) {
                                    assert(h.subrange(0, h0.len() as int) =~= h.subrange(0, h0.len() as int + 1).subrange(0, h0.len() as int));
                                    assert(holes.push(ring).subrange(0, h0.len() as int) =~= holes);
                                }
                            } else {
                                let next = Scan::Between { outers: outers.push(ring), holes };
                                rings_read_are_kept(lines, i + 1, next);
                                if let Ok((o, h)) = scan(lines, i, st) {
                                    assert(o.subrange(0, o0.len() as int) =~= o.subrange(0, o0.len() as int + 1).subrange(0, o0.len() as int));
                                    assert(outers.push(ring).subrange(0, o0.len() as int) =~= outers);
                                }
                            }
                        }
                    } else {
                        match pair_of(lines[i]) {
                            Some(p) => {
                                rings_read_are_kept(lines, i + 1, Scan::InRing { header, ring: ring.push(p), outers, holes });
                            },
                            None => {},
                        }
                    }
                }
            },
        }
    }
}

/// A ring closed by its `END` line is kept, right after the rings read before it: as the next
/// outer ring when its name does not start with `!`, as the next hole when it does. So every
/// section of a `.poly` file that reads ends up in the result, in file order.
pub proof fn a_closed_ring_is_the_next_one_kept(
    lines: Seq<Seq<char>>,
    i: int,
    header: Seq<char>,
    ring: RingText,
    outers: Seq<RingText>,
    holes: Seq<RingText>,
)
    requires
        0 <= i < lines.len(),
        is_end_line(lines[i]),
        ring.len() >= 3,
        scan(lines, i, Scan::InRing { header, ring, outers, holes }) is Ok,
    ensures
        scan(lines, i, Scan::InRing { header, ring, outers, holes }) matches Ok((o, h)) && o.subrange(0, outers.len() as int)
            == outers && h.subrange(0, holes.len() as int) == holes && (if header[0] == '!' {
            h.len() > holes.len() && h[holes.len() as int] == ring
        } else {
            o.len() > outers.len() && o[outers.len() as int] == ring
        }),
{
    rings_read_are_kept(lines, i, Scan::InRing { header, ring, outers, holes });
    if header[0] == '!' {
        rings_read_are_kept(lines, i + 1, Scan::Between { outers, holes: holes.push(ring) });
        if let Ok((o, h)) = scan(lines, i, Scan::InRing { header, ring, outers, holes }) {
            assert(h.subrange(0, holes.len() as int + 1)[holes.len() as int] == ring);
        }
    } else {
        rings_read_are_kept(lines, i + 1, Scan::Between { outers: outers.push(ring), holes });
        if let Ok((o, h)) = scan(lines, i, Scan::InRing { header, ring, outers, holes }) {
            assert(o.subrange(0, outers.len() as int + 1)[outers.len() as int] == ring);
        }
    }
}

/// What a `.poly` text reads as: its name, outer rings and holes, or why it was refused.
pub open spec fn poly_of(text: Seq<char>) -> Result<(Seq<char>, Seq<RingText>, Seq<RingText>), Fault> {
    let lines = poly_lines(text);
    if lines.len() == 0 {
        Err(Fault::Empty)
    } else {
        match scan(lines, 1, Scan::Between { outers: Seq::empty(), holes: Seq::empty() }) {
            Ok((outers, holes)) => if outers.len() == 0 {
                Err(Fault::NoOuterRing)
            } else {
                Ok((lines[0], outers, holes))
            },
            Err(f) => Err(f),
        }
    }
}

/// A `.poly` shape with its coordinates as written: `(lon, lat)` pairs.
#[derive(Debug, Clone, PartialEq)]
pub struct PolyText {
    pub name: String,
    pub outers: Vec<Vec<(String, String)>>,
    pub holes: Vec<Vec<(String, String)>>,
}

/// Why a `.poly` text was refused.
#[derive(Debug, Clone, PartialEq)]
pub enum PolyError {
    /// Nothing but blank lines.
    Empty,
    /// The file ends inside this ring.
    Unclosed { ring: String },
    /// A line inside a ring that is not two words.
    NotAPair { line: String },
    /// The first word of this line is not a number.
    BadLongitude { line: String },
    /// The second word of this line is not a number.
    BadLatitude { line: String },
    /// This ring has fewer than three points.
    TooFewPoints { ring: String },
    /// Only holes, or no ring at all.
    NoOuterRing,
}

pub open spec fn ring_view(r: Vec<(String, String)>) -> RingText {
    r@.map_values(|p: (String, String)| (p.0@, p.1@))
}

pub open spec fn rings_view(rs: Seq<Vec<(String, String)>>) -> Seq<RingText> {
    rs.map_values(|r: Vec<(String, String)>| ring_view(r))
}

pub open spec fn fault_of(e: PolyError) -> Fault {
    match e {
        PolyError::Empty => Fault::Empty,
        PolyError::Unclosed { ring } => Fault::Unclosed(ring@),
        PolyError::NotAPair { line } => Fault::NotAPair(line@),
        PolyError::BadLongitude { line } => Fault::BadLongitude(line@),
        PolyError::BadLatitude { line } => Fault::BadLatitude(line@),
        PolyError::TooFewPoints { ring } => Fault::TooFewPoints(ring@),
        PolyError::NoOuterRing => Fault::NoOuterRing,
    }
}

/// The trimmed, non-empty lines of a text.
fn lines_of(text: &str) -> (out: Vec<Vec<char>>)
    ensures
        out@.map_values(|l: Vec<char>| l@) == poly_lines(text@),
{
    let s = chars_of(text);
    let mut out: Vec<Vec<char>> = Vec::new();
    let mut start: usize = 0;
    let ghost lines = line_spans(s@, 0);
    let ghost mut li: int = 0;
    while start < s.len()
        invariant
            start <= s@.len(),
            0 <= li <= lines.len(),
            lines == line_spans(s@, 0),
            lines.subrange(li, lines.len() as int) == line_spans(s@, start as int),
            out@.map_values(|l: Vec<char>| l@) == kept_lines(s@, lines.take(li)),
            s@ == text@,
        decreases s@.len() - start,
    {
        let (end, e) = line_end(&s, start);
        let ghost spans = line_spans(s@, start as int);
        let ghost tail = if e < s@.len() {
            line_spans(s@, e + 1)
        } else {
            Seq::<(int, int)>::empty()
        };
        proof {
            assert(spans =~= seq![(start as int, end as int)] + tail);
            assert(lines.subrange(li, lines.len() as int)[0] == lines[li]);
            assert(lines[li] == (start as int, end as int));
            assert(lines.subrange(li + 1, lines.len() as int) =~= spans.subrange(1, spans.len() as int));
            assert(spans.subrange(1, spans.len() as int) =~= tail);
            assert(lines.take(li + 1).drop_last() =~= lines.take(li));
            assert(lines.take(li + 1).last() == (start as int, end as int));
        }
        let line = slice_of(&s, start, end);
        let t = trim_vec(&line);
        if t.len() > 0 {
            let ghost before = out@;
            out.push(t);
            assert(out@.map_values(|l: Vec<char>| l@) =~= before.map_values(|l: Vec<char>| l@).push(trim(s@.subrange(start as int, end as int))));
        }
        proof {
            li = li + 1;
        }
        start = if e < s.len() {
            e + 1
        } else {
            e
        };
    }
    proof {
        assert(li == lines.len()) by {
            assert(line_spans(s@, start as int) =~= Seq::<(int, int)>::empty());
        }
        assert(lines.take(li) =~= lines);
    }
    out
}

fn end_line(l: &Vec<char>) -> (r: bool)
    ensures
        r == is_end_line(l@),
{
    l.len() == 3 && crate::text::ascii_lower_exec(l[0]) == 'e' && crate::text::ascii_lower_exec(l[1]) == 'n'
        && crate::text::ascii_lower_exec(l[2]) == 'd'
}

fn pair_in(l: &Vec<char>) -> (r: Option<(String, String)>)
    ensures
        match pair_of(l@) {
            Some(p) => r matches Some(q) && q.0@ == p.0 && q.1@ == p.1,
            None => r is None,
        },
{
    let a = run_end(l, 0, Class::NotSpace);
    let g = run_end(l, a, Class::Space);
    let b = run_end(l, g, Class::NotSpace);
    if a > 0 && b > g {
        let first = slice_of(l, 0, a);
        let second = slice_of(l, g, b);
        Some((string_of(first.as_slice()), string_of(second.as_slice())))
    } else {
        None
    }
}

pub open spec fn state_of(in_ring: bool, header: Seq<char>, ring: RingText, outers: Seq<RingText>, holes: Seq<RingText>) -> Scan {
    if in_ring {
        Scan::InRing { header, ring, outers, holes }
    } else {
        Scan::Between { outers, holes }
    }
}

/// Read the text of a `.poly` file: its name line, then its rings, each closed by `END`; a ring
/// whose name starts with `!` is a hole. A ring needs three points, and the shape an outer ring.
pub fn parse_poly(text: &str) -> (r: Result<PolyText, PolyError>)
    ensures
        match poly_of(text@) {
            Ok((name, outers, holes)) => r matches Ok(p) && p.name@ == name && rings_view(p.outers@) == outers
                && rings_view(p.holes@) == holes,
            Err(f) => r matches Err(e) && fault_of(e) == f,
        },
{
    let lines = lines_of(text);
    let ghost lv = lines@.map_values(|l: Vec<char>| l@);
    if lines.len() == 0 {
        return Err(PolyError::Empty);
    }
    let mut outers: Vec<Vec<(String, String)>> = Vec::new();
    let mut holes: Vec<Vec<(String, String)>> = Vec::new();
    let mut ring: Vec<(String, String)> = Vec::new();
    let mut header: Vec<char> = Vec::new();
    let mut in_ring = false;
    let mut i: usize = 1;
    let ghost start = Scan::Between { outers: Seq::empty(), holes: Seq::empty() };
    assert(rings_view(outers@) =~= Seq::<RingText>::empty());
    assert(rings_view(holes@) =~= Seq::<RingText>::empty());
    let mut stopped = false;
    while i < lines.len()
        invariant
            1 <= i <= lines@.len(),
            start == (Scan::Between { outers: Seq::<RingText>::empty(), holes: Seq::<RingText>::empty() }),
            lv == lines@.map_values(|l: Vec<char>| l@),
            lv == poly_lines(text@),
            in_ring ==> header@.len() > 0,
            stopped ==> !in_ring && i < lines@.len() && is_end_line(lv[i as int]),
            scan(lv, 1, start) == scan(lv, i as int, state_of(in_ring, header@, ring_view(ring), rings_view(outers@), rings_view(holes@))),
        ensures
            stopped || i >= lines@.len(),
            stopped ==> !in_ring && i < lines@.len() && is_end_line(lv[i as int]),
            scan(lv, 1, start) == scan(lv, i as int, state_of(in_ring, header@, ring_view(ring), rings_view(outers@), rings_view(holes@))),
            in_ring ==> header@.len() > 0,
        decreases lines@.len() - i + (if stopped { 0int } else { 1int }),
    {
        if stopped {
            break;
        }
        let line = &lines[i];
        assert(lv[i as int] == line@);
        let ghost st = state_of(in_ring, header@, ring_view(ring), rings_view(outers@), rings_view(holes@));
        if !in_ring {
            if end_line(line) {
                stopped = true;
                continue;
            }
            proof {
                lemma_kept_nonempty(text@, i as int);
            }
            header = line.clone();
            assert(header@ == line@);
            ring = Vec::new();
            assert(ring_view(ring) =~= Seq::<(Seq<char>, Seq<char>)>::empty());
            in_ring = true;
        } else if end_line(line) {
            if ring.len() < 3 {
                assert(scan(lv, i as int, st) == Err::<(Seq<RingText>, Seq<RingText>), Fault>(Fault::TooFewPoints(header@)));
                return Err(PolyError::TooFewPoints { ring: string_of(header.as_slice()) });
            }
            let done = ring;
            ring = Vec::new();
            let ghost dv = ring_view(done);
            if header[0] == '!' {
                let ghost before = holes@;
                holes.push(done);
                assert(rings_view(holes@) =~= rings_view(before).push(dv));
            } else {
                let ghost before = outers@;
                outers.push(done);
                assert(rings_view(outers@) =~= rings_view(before).push(dv));
            }
            in_ring = false;
        } else {
            match pair_in(line) {
                Some(p) => {
                    if !is_float_text(p.0.as_str()) {
                        assert(scan(lv, i as int, st) == Err::<(Seq<RingText>, Seq<RingText>), Fault>(Fault::BadLongitude(line@)));
                        return Err(PolyError::BadLongitude { line: string_of(line.as_slice()) });
                    }
                    if !is_float_text(p.1.as_str()) {
                        assert(scan(lv, i as int, st) == Err::<(Seq<RingText>, Seq<RingText>), Fault>(Fault::BadLatitude(line@)));
                        return Err(PolyError::BadLatitude { line: string_of(line.as_slice()) });
                    }
                    let ghost before = ring@;
                    ring.push(p);
                    assert(ring_view(ring) =~= ring_view_of(before).push((p.0@, p.1@)));
                },
                None => {
                    assert(scan(lv, i as int, st) == Err::<(Seq<RingText>, Seq<RingText>), Fault>(Fault::NotAPair(line@)));
                    return Err(PolyError::NotAPair { line: string_of(line.as_slice()) });
                },
            }
        }
        i = i + 1;
    }
    let ghost st = state_of(in_ring, header@, ring_view(ring), rings_view(outers@), rings_view(holes@));
    if in_ring {
        assert(scan(lv, i as int, st) == Err::<(Seq<RingText>, Seq<RingText>), Fault>(Fault::Unclosed(header@)));
        return Err(PolyError::Unclosed { ring: string_of(header.as_slice()) });
    }
    assert(scan(lv, i as int, st) == Ok::<(Seq<RingText>, Seq<RingText>), Fault>((rings_view(outers@), rings_view(holes@))));
    if outers.len() == 0 {
        return Err(PolyError::NoOuterRing);
    }
    let name = string_of(lines[0].as_slice());
    Ok(PolyText { name, outers, holes })
}

pub open spec fn ring_view_of(r: Seq<(String, String)>) -> RingText {
    r.map_values(|p: (String, String)| (p.0@, p.1@))
}

proof fn lemma_kept_nonempty(text: Seq<char>, i: int)
    requires
        0 <= i < poly_lines(text).len(),
    ensures
        poly_lines(text)[i].len() > 0,
{
    lemma_kept_all_nonempty(text, line_spans(text, 0));
}

proof fn lemma_kept_all_nonempty(s: Seq<char>, spans: Seq<(int, int)>)
    ensures
        forall|j: int| 0 <= j < kept_lines(s, spans).len() ==> #[trigger] kept_lines(s, spans)[j].len() > 0,
    decreases spans.len(),
{
    if spans.len() > 0 {
        lemma_kept_all_nonempty(s, spans.drop_last());
        let rest = kept_lines(s, spans.drop_last());
        let k = kept_lines(s, spans);
        assert forall|j: int| 0 <= j < k.len() implies #[trigger] k[j].len() > 0 by {
            if j < rest.len() {
                assert(k[j] == rest[j]);
            }
        }
    }
}

} // verus!

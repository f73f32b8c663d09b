//! Pieces of GeoTIFF decoding that are independent of any floating-point arithmetic: the size
//! of a TIFF field type, and undoing the floating-point predictor on raw bytes.
use vstd::prelude::*;

verus! {

pub open spec fn field_size(kind: u16) -> nat {
    if kind == 1 || kind == 2 || kind == 6 || kind == 7 {
        1
    } else if kind == 3 || kind == 8 {
        2
    } else if kind == 4 || kind == 9 || kind == 11 {
        4
    } else if kind == 5 || kind == 10 || kind == 12 || kind == 16 || kind == 17 || kind == 18 {
        8
    } else {
        0
    }
}

/// Bytes per value of a TIFF field type; unknown types are 0, so they are skipped, not guessed.
pub fn type_size(kind: u16) -> (n: usize)
    ensures
        n == field_size(kind),
{
    match kind {
        1 | 2 | 6 | 7 => 1,
        3 | 8 => 2,
        4 | 9 | 11 => 4,
        5 | 10 | 12 | 16 | 17 | 18 => 8,
        _ => 0,
    }
}

/// Byte `i` of a row after the cumulative sum: `row[0] + ... + row[i]`, modulo 256.
pub open spec fn running_sum(row: Seq<u8>, i: int) -> u8
    decreases i,
{
    if i <= 0 {
        row[0]
    } else {
        ((running_sum(row, i - 1) + row[i]) % 256) as u8
    }
}

/// One row of `width` 4-byte samples after both stages: byte `k` of the output is taken from
/// byte-plane `3 - k % 4` (planes are most significant first) at sample `k / 4`.
pub open spec fn decoded_row(row: Seq<u8>, width: nat) -> Seq<u8> {
    Seq::new(4 * width, |k: int| running_sum(row, (3 - k % 4) * width + k / 4))
}

/// One row of `width` 4-byte samples as predictor 3 stores it: the samples' bytes split into
/// four planes, most significant first (byte `k` of sample `i` goes to `(3 - k) * width + i`),
/// then each byte replaced by its difference from the one before, modulo 256.
pub open spec fn encoded_row(samples: Seq<u8>, width: nat) -> Seq<u8> {
    let planes = Seq::new(4 * width, |j: int| samples[4 * (j % width as int) + (3 - j / width as int)]);
    Seq::new(
        4 * width,
        |j: int|
            if j == 0 {
                planes[0]
            } else {
                ((planes[j] - planes[j - 1]) % 256) as u8
            },
    )
}

proof fn lemma_running_sum_undoes_differences(planes: Seq<u8>, d: Seq<u8>, j: int)
    requires
        d.len() == planes.len(),
        0 <= j < planes.len(),
        d[0] == planes[0],
        forall|q: int| 0 < q < planes.len() ==> #[trigger] d[q] == ((planes[q] - planes[q - 1]) % 256) as u8,
    ensures
        running_sum(d, j) == planes[j],
    decreases j,
{
    if j > 0 {
        lemma_running_sum_undoes_differences(planes, d, j - 1);
        let a = planes[j - 1] as int;
        let b = planes[j] as int;
        assert(((a + (b - a) % 256) % 256) == b) by {
            if b >= a {
                assert((b - a) % 256 == b - a);
            } else {
                assert((b - a) % 256 == b - a + 256);
            }
        }
    }
}

/// Undoing the floating-point predictor gives back exactly the samples' bytes that were encoded
/// into a row, whatever they are: the round trip is bit-exact, NaNs and all.
pub proof fn float_predictor_round_trips(samples: Seq<u8>, width: nat)
    requires
        samples.len() == 4 * width,
    ensures
        decoded_row(encoded_row(samples, width), width) == samples,
{
    if width == 0 {
        assert(decoded_row(encoded_row(samples, width), width) =~= samples);
    } else {
        let w = width as int;
        let planes = Seq::new(4 * width, |j: int| samples[4 * (j % w) + (3 - j / w)]);
        let d = encoded_row(samples, width);
        assert forall|q: int| 0 < q < planes.len() implies #[trigger] d[q] == ((planes[q] - planes[q - 1]) % 256) as u8 by {}
        assert forall|k: int| 0 <= k < 4 * w implies #[trigger] decoded_row(d, width)[k] == samples[k] by {
            lemma_source_index(k, w);
            let j = (3 - k % 4) * w + k / 4;
            lemma_running_sum_undoes_differences(planes, d, j);
            vstd::arithmetic::div_mod::lemma_fundamental_div_mod_converse(j, w, 3 - k % 4, k / 4);
            vstd::arithmetic::div_mod::lemma_fundamental_div_mod(k, 4);
        }
        assert(decoded_row(d, width) =~= samples);
    }
}

/// Rows that fit entirely in `len` bytes, at most `height` of them.
pub open spec fn whole_rows(len: nat, width: nat, height: nat) -> nat {
    if width == 0 {
        0
    } else if len / (4 * width) < height {
        len / (4 * width)
    } else {
        height
    }
}

/// The buffer after the predictor is undone: each whole row decoded, the rest untouched.
pub open spec fn predictor_undone(b: Seq<u8>, width: nat, height: nat) -> Seq<u8> {
    let rb: int = (4 * width) as int;
    let done = whole_rows(b.len(), width, height);
    Seq::new(
        b.len(),
        |i: int|
            if i < done * rb {
                decoded_row(b.subrange((i / rb) * rb, (i / rb) * rb + rb), width)[i % rb]
            } else {
                b[i]
            },
    )
}

/// Rows of samples, `4 * width` bytes each, encoded one after another as predictor 3 stores them.
pub open spec fn encoded_rows(samples: Seq<u8>, width: nat) -> Seq<u8> {
    let rb = (4 * width) as int;
    Seq::new(
        samples.len(),
        |i: int| encoded_row(samples.subrange((i / rb) * rb, (i / rb) * rb + rb), width)[i % rb],
    )
}

/// Over a whole buffer: when it starts with `height` rows of samples encoded one after another,
/// undoing the predictor gives back all the samples' bytes exactly, and the bytes after them are
/// left as they were.
pub proof fn float_predictor_round_trips_in_a_buffer(b: Seq<u8>, samples: Seq<u8>, width: nat, height: nat)
    requires
        samples.len() == 4 * width * height,
        b.len() >= samples.len(),
        b.subrange(0, samples.len() as int) == encoded_rows(samples, width),
    ensures
        predictor_undone(b, width, height).subrange(0, samples.len() as int) == samples,
        predictor_undone(b, width, height).subrange(samples.len() as int, b.len() as int) == b.subrange(
            samples.len() as int,
            b.len() as int,
        ),
{
    let rb: int = (4 * width) as int;
    let h = height as int;
    if width == 0 {
        assert(samples.len() == 0);
        let out = predictor_undone(b, width, height);
        assert(out =~= b);
        assert(out.subrange(0, 0) =~= samples);
    } else {
        assert(samples.len() == h * rb) by (nonlinear_arith)
            requires
                samples.len() == 4 * width * height,
                rb == 4 * width,
                h == height,
        ;
        assert(whole_rows(b.len(), width, height) == height) by {
            vstd::arithmetic::div_mod::lemma_div_is_ordered(h * rb, b.len() as int, rb);
            vstd::arithmetic::div_mod::lemma_fundamental_div_mod_converse(h * rb, rb, h, 0);
        }
        let out = predictor_undone(b, width, height);
        assert forall|i: int| 0 <= i < h * rb implies #[trigger] out[i] == samples[i] by {
            let r = i / rb;
            vstd::arithmetic::div_mod::lemma_fundamental_div_mod(i, rb);
            vstd::arithmetic::div_mod::lemma_div_is_ordered(0, i, rb);
            assert(r < h) by {
                if r >= h {
                    vstd::arithmetic::mul::lemma_mul_inequality(h, r, rb);
                    assert(r * rb >= h * rb);
                }
            }
            let row = samples.subrange(r * rb, r * rb + rb);
            assert(0 <= r * rb) by (nonlinear_arith)
                requires
                    0 <= r,
                    0 < rb,
            ;
            assert(r * rb + rb <= h * rb) by (nonlinear_arith)
                requires
                    r < h,
                    0 < rb,
            ;
            float_predictor_round_trips(row, width);
            assert(b.subrange(r * rb, r * rb + rb) =~= encoded_row(row, width)) by {
                assert forall|t: int| 0 <= t < rb implies #[trigger] b.subrange(r * rb, r * rb + rb)[t] == encoded_row(row, width)[t] by {
                    lemma_row_index(r * rb + t, r, rb);
                    assert(b[r * rb + t] == b.subrange(0, samples.len() as int)[r * rb + t]);
                }
            }
            vstd::arithmetic::div_mod::lemma_mod_pos_bound(i, rb);
            vstd::arithmetic::mul::lemma_mul_is_commutative(r, rb);
            assert(r * rb + i % rb == i);
            assert(row[i % rb] == samples[i]);
        }
        assert(out.subrange(0, samples.len() as int) =~= samples);
        assert(out.subrange(samples.len() as int, b.len() as int) =~= b.subrange(samples.len() as int, b.len() as int));
    }
}

proof fn lemma_row_index(i: int, r: int, rb: int)
    requires
        rb > 0,
        r >= 0,
        r * rb <= i < r * rb + rb,
    ensures
        i / rb == r,
        i % rb == i - r * rb,
{
    vstd::arithmetic::div_mod::lemma_fundamental_div_mod_converse(i, rb, r, i - r * rb);
}

proof fn lemma_source_index(k: int, width: int)
    requires
        width > 0,
        0 <= k < 4 * width,
    ensures
        0 <= (3 - k % 4) * width + k / 4 < 4 * width,
        0 <= k % 4 < 4,
        0 <= k / 4 < width,
{
    assert(0 <= k / 4 < width) by (nonlinear_arith)
        requires
            width > 0,
            0 <= k < 4 * width,
    ;
    assert(0 <= (3 - k % 4) * width <= 3 * width) by (nonlinear_arith)
        requires
            width > 0,
            0 <= k % 4 < 4,
    ;
}

/// Undo TIFF predictor 3, the floating-point predictor, in place.
///
/// It works per row in two stages: a byte-wise cumulative sum, then a de-shuffle from
/// byte-planes back into samples. The plane order is most-significant first regardless of the
/// file's byte order, so the little-endian reassembly reads the planes in reverse. A trailing
/// partial row, and any row past `height`, is left as it is.
pub fn undo_float_predictor(bytes: &mut [u8], width: usize, height: usize)
    requires
        width * 4 <= usize::MAX,
    ensures
        final(bytes)@ == predictor_undone(old(bytes)@, width as nat, height as nat),
{
    let ghost orig = bytes@;
    let rb = width * 4;
    if rb == 0 {
        assert(bytes@ =~= predictor_undone(orig, width as nat, height as nat));
        return;
    }
    let n = bytes.len();
    let mut start: usize = 0;
    let mut row: usize = 0;
    while row < height && n - start >= rb
        invariant
            n == bytes@.len(),
            n == orig.len(),
            rb == 4 * width,
            rb > 0,
            row <= height,
            start == row * rb,
            start <= n,
            forall|i: int|
                0 <= i < start ==> #[trigger] bytes@[i] == decoded_row(
                    orig.subrange((i / rb as int) * rb, (i / rb as int) * rb + rb),
                    width as nat,
                )[i % rb as int],
            forall|i: int| start <= i < n ==> #[trigger] bytes@[i] == orig[i],
        decreases height - row,
    {
        let ghost old_row = orig.subrange(start as int, start + rb);
        // stage 1: bytes are stored as differences from their predecessor
        let mut sums: Vec<u8> = Vec::new();
        let mut i: usize = 0;
        while i < rb
            invariant
                n == bytes@.len(),
                n == orig.len(),
                start + rb <= n,
                i <= rb,
                sums@.len() == i,
                old_row == orig.subrange(start as int, start + rb),
                forall|q: int| start <= q < n ==> #[trigger] bytes@[q] == orig[q],
                forall|q: int| 0 <= q < i ==> #[trigger] sums@[q] == running_sum(old_row, q),
            decreases rb - i,
        {
            let b = bytes[start + i];
            assert(b == old_row[i as int]);
            if i == 0 {
                sums.push(b);
            } else {
                let prev = sums[i - 1];
                sums.push(((prev as u16 + b as u16) % 256) as u8);
            }
            i = i + 1;
        }
        // stage 2: regroup byte-planes into samples
        let ghost before = bytes@;
        let mut k: usize = 0;
        while k < rb
            invariant
                n == bytes@.len(),
                rb == 4 * width,
                rb > 0,
                start + rb <= n,
                k <= rb,
                sums@.len() == rb,
                forall|q: int| 0 <= q < rb ==> #[trigger] sums@[q] == running_sum(old_row, q),
                forall|q: int| 0 <= q < start ==> #[trigger] bytes@[q] == before[q],
                forall|q: int| start + k <= q < n ==> #[trigger] bytes@[q] == before[q],
                forall|q: int|
                    start <= q < start + k ==> #[trigger] bytes@[q] == decoded_row(
                        old_row,
                        width as nat,
                    )[q - start],
            decreases rb - k,
        {
            proof {
                lemma_source_index(k as int, width as int);
            }
            let plane = 3 - k % 4;
            let from = plane * width + k / 4;
            bytes[start + k] = sums[from];
            k = k + 1;
        }
        proof {
            assert forall|i: int| start <= i < start + rb implies #[trigger] bytes@[i] == decoded_row(
                orig.subrange((i / rb as int) * rb, (i / rb as int) * rb + rb),
                width as nat,
            )[i % rb as int] by {
                lemma_row_index(i, row as int, rb as int);
            }
            assert((row + 1) * rb == row * rb + rb) by (nonlinear_arith);
        }
        start = start + rb;
        row = row + 1;
    }
    proof {
        let done = whole_rows(orig.len(), width as nat, height as nat);
        assert(start == done * rb) by {
            if row < height {
                vstd::arithmetic::div_mod::lemma_fundamental_div_mod_converse(
                    n as int,
                    rb as int,
                    row as int,
                    n - start,
                );
            } else {
                assert(row * rb <= n);
                vstd::arithmetic::div_mod::lemma_div_is_ordered(row * rb as int, n as int, rb as int);
                vstd::arithmetic::div_mod::lemma_fundamental_div_mod_converse(
                    row * rb as int,
                    rb as int,
                    row as int,
                    0,
                );
                assert(n as int / rb as int >= height);
            }
        }
        assert(bytes@ =~= predictor_undone(orig, width as nat, height as nat));
    }
}

} // verus!

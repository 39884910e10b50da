use vstd::prelude::*;
use vstd::arithmetic::div_mod::lemma_fundamental_div_mod;

verus! {

/// Intensity byte for one escape result: a point that escaped at
/// iteration `n` is drawn at `255 - n` (brightest for the fastest
/// escape), a point that stayed bounded is drawn black.  The iteration
/// count is taken modulo 256, as the byte conversion does.
pub open spec fn intensity_of(e: Option<u32>) -> u8 {
    match e {
        Some(n) => (255 - n % 256) as u8,
        None => 0,
    }
}

/// Maps one escape result to its intensity byte.
pub fn intensity(e: Option<u32>) -> (r: u8)
    ensures
        r == intensity_of(e),
{
    match e {
        Some(n) => (255 - n % 256) as u8,
        None => 0,
    }
}

/// The pixel position handed to the coordinate mapper for buffer
/// position `index`: the row first and the column second.  The row, the
/// outer loop variable of the driver, is deliberately passed as the
/// mapper's horizontal argument, so the image comes out as if
/// transposed; preserving that order is part of the output contract.
pub fn pixel_for_index(bounds: (usize, usize), index: usize) -> (p: (usize, usize))
    requires
        bounds.0 >= 1,
    ensures
        p.0 == index as int / bounds.0 as int,
        p.1 == index as int % bounds.0 as int,
        index == p.0 * bounds.0 + p.1,
        p.1 < bounds.0,
        (index as int) < bounds.0 as int * bounds.1 as int ==> (p.0 as int) < bounds.1 as int,
{
    let row: usize = index / bounds.0;
    let col: usize = index % bounds.0;
    proof {
        lemma_fundamental_div_mod(index as int, bounds.0 as int);
        if (index as int) < bounds.0 as int * bounds.1 as int {
            assert((row as int) < bounds.1 as int) by (nonlinear_arith)
                requires
                    index as int == bounds.0 as int * (row as int) + col as int,
                    0 <= col as int,
                    bounds.0 as int >= 1,
                    (index as int) < bounds.0 as int * bounds.1 as int,
            ;
        }
    }
    (row, col)
}

/// Number of pixels of an image with the given bounds, where it fits a
/// `usize`.
pub fn pixel_count(bounds: (usize, usize)) -> (r: Option<usize>)
    ensures
        r matches Some(n) ==> n == bounds.0 as int * bounds.1 as int,
        r is None <==> bounds.0 as int * bounds.1 as int > usize::MAX as int,
{
    bounds.0.checked_mul(bounds.1)
}

/// Fills the output buffer with one intensity byte per pixel.
///
/// `escapes` holds the escape result of every pixel, in buffer order:
/// position `row * bounds.0 + col` belongs to the pixel at that row and
/// column.  The buffer must already have length `bounds.0 * bounds.1`;
/// every cell is overwritten with the intensity of the matching escape
/// result.
pub fn render(buffer: &mut Vec<u8>, bounds: (usize, usize), escapes: &Vec<Option<u32>>)
    requires
        old(buffer)@.len() == bounds.0 as int * bounds.1 as int,
        escapes@.len() == old(buffer)@.len(),
    ensures
        final(buffer)@.len() == old(buffer)@.len(),
        forall|k: int| 0 <= k < final(buffer)@.len() ==> final(buffer)@[k] == intensity_of(
            escapes@[k],
        ),
{
    let n: usize = buffer.len();
    let mut k: usize = 0;
    while k < n
        invariant
            0 <= k <= n,
            buffer@.len() == n,
            escapes@.len() == n,
            forall|j: int| 0 <= j < k ==> buffer@[j] == intensity_of(escapes@[j]),
        decreases n - k,
    {
        let v: u8 = intensity(escapes[k]);
        buffer.set(k, v);
        k = k + 1;
    }
}

/// Law: the intensity scale is exact.  A bounded pixel is drawn black;
/// a pixel that escaped at iteration `n` below the conventional limit
/// of 255 is drawn at exactly `255 - n`, which lies in `1..=255`.
pub proof fn lemma_intensity_range(n: u32)
    requires
        n < 255,
    ensures
        intensity_of(Some(n)) as int == 255 - n as int,
        1 <= intensity_of(Some(n)) as int <= 255,
        intensity_of(None) == 0,
{
}

/// Law: rendering is deterministic.  Two buffers that both satisfy the
/// renderer's contract for the same escape results are byte-identical;
/// rendering the same inputs twice therefore produces the same bytes.
pub proof fn lemma_render_deterministic(b1: Seq<u8>, b2: Seq<u8>, escapes: Seq<Option<u32>>)
    requires
        b1.len() == escapes.len(),
        b2.len() == escapes.len(),
        forall|k: int| 0 <= k < escapes.len() ==> b1[k] == intensity_of(escapes[k]),
        forall|k: int| 0 <= k < escapes.len() ==> b2[k] == intensity_of(escapes[k]),
    ensures
        b1 == b2,
{
    assert(b1 =~= b2);
}

} // verus!

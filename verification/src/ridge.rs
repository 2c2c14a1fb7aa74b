//! Ridges: greedy tracking of a local maximum from column to column, and their export.

use vstd::prelude::*;
use vstd::arithmetic::div_mod::*;
use vstd::string::StringExecFns;

use crate::numeric;
#[allow(unused_imports)]
use crate::plan;
#[allow(unused_imports)]
use crate::squeeze;

verus! {

/// Rows that are searched around the row of the seed.
pub const SEED_RADIUS: usize = 3;

/// Rows by which a ridge may move from one column to the next.
pub const STEP_RADIUS: usize = 2;

/// Value at (`row`, `col`) of an image.
pub open spec fn pixel<T>(amp: Seq<T>, width: int, row: int, col: int) -> T {
    amp[row * width + col]
}

/// Of rows `q` and `next` of a column, `r` is `q` where its value is greater, else `next`.
pub open spec fn preferred<T: PartialOrd>(
    amp: Seq<T>,
    width: int,
    col: int,
    q: int,
    next: int,
    r: int,
) -> bool {
    let (a, b) = (pixel(amp, width, q, col), pixel(amp, width, next, col));
    ||| numeric::above(a, b, true) && r == q
    ||| numeric::above(a, b, false) && r == next
}

/// `r` is the row that is picked among rows `lo` to `hi` of a column: going up, a row is
/// replaced by the next one unless its value is greater.
pub open spec fn picked<T: PartialOrd>(
    amp: Seq<T>,
    width: int,
    col: int,
    lo: int,
    hi: int,
    r: int,
) -> bool
    decreases hi - lo,
{
    if hi <= lo {
        r == lo
    } else {
        exists|q: int|
            {
                &&& picked(amp, width, col, lo, hi - 1, q)
                &&& #[trigger] preferred(amp, width, col, q, hi, r)
            }
    }
}

/// `r` is the row that is picked within `radius` rows of `centre`.
pub open spec fn nearby<T: PartialOrd>(
    amp: Seq<T>,
    width: int,
    num_scales: int,
    col: int,
    centre: int,
    radius: int,
    r: int,
) -> bool {
    picked(
        amp,
        width,
        col,
        plan::max_of(centre - radius, 0),
        plan::min_of(centre + radius, num_scales - 1),
        r,
    )
}

/// The picked row lies in the searched range.
pub proof fn pick_is_in_range<T: PartialOrd>(
    amp: Seq<T>,
    width: int,
    col: int,
    lo: int,
    hi: int,
    r: int,
)
    requires
        picked(amp, width, col, lo, hi, r),
        lo <= hi,
    ensures
        lo <= r <= hi,
    decreases hi - lo,
{
    if lo < hi {
        let q = choose|q: int|
            {
                &&& picked(amp, width, col, lo, hi - 1, q)
                &&& #[trigger] preferred(amp, width, col, q, hi, r)
            };
        pick_is_in_range(amp, width, col, lo, hi - 1, q);
    }
}

/// Where values are ordered like real numbers, the picked row holds the greatest value of the
/// searched range, and the last of several.
pub proof fn pick_is_the_maximum<T: PartialOrd>(
    val: spec_fn(T) -> real,
    amp: Seq<T>,
    width: int,
    col: int,
    lo: int,
    hi: int,
    r: int,
    i: int,
)
    requires
        picked(amp, width, col, lo, hi, r),
        lo <= i <= hi,
        numeric::exact_order(val),
    ensures
        val(pixel(amp, width, i, col)) <= val(pixel(amp, width, r, col)),
        i > r ==> val(pixel(amp, width, i, col)) < val(pixel(amp, width, r, col)),
    decreases hi - lo,
{
    pick_is_in_range(amp, width, col, lo, hi, r);
    if lo < hi {
        let q = choose|q: int|
            {
                &&& picked(amp, width, col, lo, hi - 1, q)
                &&& #[trigger] preferred(amp, width, col, q, hi, r)
            };
        if i < hi {
            pick_is_the_maximum(val, amp, width, col, lo, hi - 1, q, i);
        }
    }
}

fn argmax<T: Copy + PartialOrd>(
    amp: &Vec<T>,
    width: usize,
    num_scales: usize,
    col: usize,
    centre: usize,
    radius: usize,
) -> (r: usize)
    requires
        col < width,
        centre < num_scales,
        amp@.len() >= num_scales * width,
        radius <= 8,
    ensures
        r < num_scales,
        nearby(
            amp@,
            width as int,
            num_scales as int,
            col as int,
            centre as int,
            radius as int,
            r as int,
        ),
        plan::max_of(centre - radius, 0) <= r <= plan::min_of(centre + radius, num_scales - 1),
{
    let lo: usize = if centre >= radius {
        centre - radius
    } else {
        0
    };
    let hi: usize = if radius <= num_scales - 1 - centre {
        centre + radius
    } else {
        num_scales - 1
    };
    let len: usize = amp.len();
    let mut r: usize = lo;
    let mut i: usize = lo;
    while i < hi
        invariant
            lo <= i <= hi < num_scales,
            lo <= r <= i,
            col < width,
            len == amp@.len(),
            amp@.len() >= num_scales * width,
            picked(amp@, width as int, col as int, lo as int, i as int, r as int),
        decreases hi - i,
    {
        i = i + 1;
        proof {
            squeeze::pixel_index(r as int, col as int, width as int, num_scales as int);
            squeeze::pixel_index(i as int, col as int, width as int, num_scales as int);
            vstd::arithmetic::mul::lemma_mul_nonnegative(r as int, width as int);
            vstd::arithmetic::mul::lemma_mul_nonnegative(i as int, width as int);
        }
        let ghost q = r;
        let keep: bool = amp[r * width + col] > amp[i * width + col];
        if !keep {
            r = i;
        }
        proof {
            let (w, c, l, h) = (width as int, col as int, lo as int, i as int);
            assert(preferred(amp@, w, c, q as int, h, r as int));
        }
    }
    r
}

/// `rows` is the ridge through the columns of an image from a seed at (`guess`, `col0`):
/// the seed settles on the best row nearby (`r0`), its column follows `r0`, and from there
/// each column follows its neighbour towards the seed.
pub open spec fn followed<T: PartialOrd>(
    amp: Seq<T>,
    width: int,
    num_scales: int,
    col0: int,
    guess: int,
    r0: int,
    rows: Seq<usize>,
) -> bool {
    &&& rows.len() == width
    &&& nearby(amp, width, num_scales, col0, guess, SEED_RADIUS as int, r0)
    &&& nearby(amp, width, num_scales, col0, r0, STEP_RADIUS as int, rows[col0] as int)
    &&& forall|c: int, d: int|
        col0 <= c && d == c + 1 && d < width ==> nearby(
            amp,
            width,
            num_scales,
            d,
            (#[trigger] rows[c]) as int,
            STEP_RADIUS as int,
            (#[trigger] rows[d]) as int,
        )
    &&& forall|c: int, d: int|
        0 <= c && d == c + 1 && d <= col0 ==> nearby(
            amp,
            width,
            num_scales,
            c,
            (#[trigger] rows[d]) as int,
            STEP_RADIUS as int,
            (#[trigger] rows[c]) as int,
        )
}

fn track<T: Copy + PartialOrd>(
    amp: &Vec<T>,
    width: usize,
    num_scales: usize,
    col0: usize,
    guess: usize,
) -> (rows: Vec<usize>)
    requires
        col0 < width,
        guess < num_scales,
        amp@.len() >= num_scales * width,
    ensures
        exists|r0: int| #[trigger]
            followed(
                amp@,
                width as int,
                num_scales as int,
                col0 as int,
                guess as int,
                r0,
                rows@,
            ),
        forall|c: int| 0 <= c < width ==> #[trigger] rows@[c] < num_scales,
{
    let r0: usize = argmax(amp, width, num_scales, col0, guess, SEED_RADIUS);
    let mut rows: Vec<usize> = Vec::new();
    let mut i: usize = 0;
    while i < width
        invariant
            i <= width,
            rows@.len() == i,
            forall|k: int| 0 <= k < i ==> #[trigger] rows@[k] == 0,
        decreases width - i,
    {
        rows.push(0);
        i = i + 1;
    }
    let ghost (w, ns) = (width as int, num_scales as int);
    let mut r: usize = r0;
    let mut c: usize = col0;
    while c < width
        invariant
            col0 <= c <= width,
            rows@.len() == width,
            (w, ns) == (width as int, num_scales as int),
            r0 < num_scales,
            r < num_scales,
            amp@.len() >= num_scales * width,
            r == (if c == col0 {
                r0
            } else {
                rows@[c - 1]
            }),
            c > col0 ==> nearby(
                amp@,
                w,
                ns,
                col0 as int,
                r0 as int,
                STEP_RADIUS as int,
                rows@[col0 as int] as int,
            ),
            forall|a: int, b: int|
                col0 <= a && b == a + 1 && b < c ==> nearby(
                    amp@,
                    w,
                    ns,
                    b,
                    (#[trigger] rows@[a]) as int,
                    STEP_RADIUS as int,
                    (#[trigger] rows@[b]) as int,
                ),
            forall|k: int| 0 <= k < width ==> #[trigger] rows@[k] < num_scales,
        decreases width - c,
    {
        r = argmax(amp, width, num_scales, c, r, STEP_RADIUS);
        rows.set(c, r);
        c = c + 1;
    }
    let mut r: usize = rows[col0];
    let mut c: usize = col0;
    let ghost ahead = rows@;
    while c > 0
        invariant
            c <= col0 < width,
            rows@.len() == width == ahead.len(),
            (w, ns) == (width as int, num_scales as int),
            r0 < num_scales,
            r < num_scales,
            amp@.len() >= num_scales * width,
            r == rows@[c as int],
            forall|k: int| col0 <= k < width ==> #[trigger] rows@[k] == ahead[k],
            forall|a: int, b: int|
                c <= a && b == a + 1 && b <= col0 ==> nearby(
                    amp@,
                    w,
                    ns,
                    a,
                    (#[trigger] rows@[b]) as int,
                    STEP_RADIUS as int,
                    (#[trigger] rows@[a]) as int,
                ),
            forall|k: int| 0 <= k < width ==> #[trigger] rows@[k] < num_scales,
        decreases c,
    {
        c = c - 1;
        r = argmax(amp, width, num_scales, c, r, STEP_RADIUS);
        rows.set(c, r);
    }
    assert(followed(amp@, w, ns, col0 as int, guess as int, r0 as int, rows@));
    rows
}

/// There is a ridge to track: the image has columns and at least two rows, and the seed
/// lies in one of its columns.
pub open spec fn trackable(len: int, width: int, seed: Option<(usize, usize)>) -> bool {
    &&& width > 0
    &&& len / width >= 2
    &&& seed matches Some(s) && s.0 < width
}

/// `rows` is the ridge through an image from a seed (column and row).
pub open spec fn ridge_from<T: PartialOrd>(
    amp: Seq<T>,
    width: int,
    seed: (usize, usize),
    rows: Seq<usize>,
) -> bool {
    let ns = amp.len() as int / width;
    exists|r0: int| #[trigger]
        followed(amp, width, ns, seed.0 as int, plan::min_of(seed.1 as int, ns - 1), r0, rows)
}

/// Extracts the ridge through an image from a seed (column and row), if there is one. A
/// seed above the image counts for its last row.
pub fn extract_ridge<T: Copy + PartialOrd>(
    amp: &Vec<T>,
    width: usize,
    seed: Option<(usize, usize)>,
) -> (rows: Option<Vec<usize>>)
    ensures
        rows is Some <==> trackable(amp@.len() as int, width as int, seed),
        rows matches Some(v) ==> ridge_from(amp@, width as int, seed->0, v@),
        rows matches Some(v) ==> forall|c: int|
            0 <= c < width ==> #[trigger] v@[c] < amp@.len() as int / width as int,
{
    let (col, row): (usize, usize) = match seed {
        Some(s) => s,
        None => {
            return None;
        },
    };
    if width == 0 || col >= width {
        return None;
    }
    let num_scales: usize = amp.len() / width;
    if num_scales < 2 {
        return None;
    }
    proof {
        lemma_fundamental_div_mod(amp@.len() as int, width as int);
        lemma_mod_bound(amp@.len() as int, width as int);
        assert(width * num_scales == num_scales * width) by (nonlinear_arith);
    }
    let guess: usize = if row < num_scales {
        row
    } else {
        num_scales - 1
    };
    let rows: Vec<usize> = track(amp, width, num_scales, col, guess);
    proof {
        let ns = amp@.len() as int / width as int;
        let r0 = choose|r0: int| #[trigger]
            followed(
                amp@,
                width as int,
                num_scales as int,
                col as int,
                guess as int,
                r0,
                rows@,
            );
        assert(followed(
            amp@,
            width as int,
            ns,
            col as int,
            plan::min_of(row as int, ns - 1),
            r0,
            rows@,
        ));
        assert(ridge_from(amp@, width as int, (col, row), rows@));
    }
    Some(rows)
}

/// A ridge moves by at most two rows from any column to the next.
pub proof fn ridges_are_smooth<T: PartialOrd>(
    amp: Seq<T>,
    width: int,
    num_scales: int,
    col0: int,
    guess: int,
    r0: int,
    rows: Seq<usize>,
    c: int,
)
    requires
        followed(amp, width, num_scales, col0, guess, r0, rows),
        0 <= col0 < width,
        0 <= guess < num_scales,
        0 <= c < width - 1,
        forall|i: int| 0 <= i < width ==> #[trigger] rows[i] < num_scales,
    ensures
        -2 <= rows[c + 1] - rows[c] <= 2,
{
    let (w, ns) = (width, num_scales);
    if c >= col0 {
        assert(nearby(amp, w, ns, c + 1, rows[c] as int, 2, rows[c + 1] as int));
        nearby_is_near(amp, w, ns, c + 1, rows[c] as int, 2, rows[c + 1] as int);
    } else {
        assert(nearby(amp, w, ns, c, rows[c + 1] as int, 2, rows[c] as int));
        nearby_is_near(amp, w, ns, c, rows[c + 1] as int, 2, rows[c] as int);
    }
}

proof fn nearby_is_near<T: PartialOrd>(
    amp: Seq<T>,
    width: int,
    num_scales: int,
    col: int,
    centre: int,
    radius: int,
    r: int,
)
    requires
        nearby(amp, width, num_scales, col, centre, radius, r),
        0 <= centre < num_scales,
        radius >= 0,
    ensures
        centre - radius <= r <= centre + radius,
        0 <= r < num_scales,
{
    pick_is_in_range(
        amp,
        width,
        col,
        plan::max_of(centre - radius, 0),
        plan::min_of(centre + radius, num_scales - 1),
        r,
    );
}

/// The value at (`r`, `c`) is the greatest of column `c` within `radius` rows of `centre`.
pub open spec fn peak_near<T>(
    val: spec_fn(T) -> real,
    amp: Seq<T>,
    width: int,
    c: int,
    centre: int,
    radius: int,
    r: int,
) -> bool {
    &&& -radius <= r - centre <= radius
    &&& 0 <= r && (r + 1) * width <= amp.len()
    &&& forall|i: int|
        centre - radius <= i <= centre + radius && 0 <= i && (i + 1) * width <= amp.len() ==> val(
            #[trigger] pixel(amp, width, i, c),
        ) <= val(amp[r * width + c])
}

proof fn nearby_is_a_peak<T: PartialOrd>(
    val: spec_fn(T) -> real,
    amp: Seq<T>,
    width: int,
    c: int,
    centre: int,
    radius: int,
    r: int,
)
    requires
        width > 0,
        radius >= 0,
        numeric::exact_order(val),
        0 <= centre < amp.len() as int / width,
        nearby(amp, width, amp.len() as int / width, c, centre, radius, r),
    ensures
        peak_near(val, amp, width, c, centre, radius, r),
        0 <= r < amp.len() as int / width,
{
    let ns = amp.len() as int / width;
    nearby_is_near(amp, width, ns, c, centre, radius, r);
    rows_fit(amp.len() as int, width, r);
    assert forall|i: int|
        centre - radius <= i <= centre + radius && 0 <= i && (i + 1) * width <= amp.len() implies val(
        #[trigger] pixel(amp, width, i, c),
    ) <= val(amp[r * width + c]) by {
        rows_fit(amp.len() as int, width, i);
        pick_is_the_maximum(
            val,
            amp,
            width,
            c,
            plan::max_of(centre - radius, 0),
            plan::min_of(centre + radius, ns - 1),
            r,
            i,
        );
    }
}

proof fn rows_fit(len: int, width: int, i: int)
    requires
        width > 0,
        len >= 0,
        i >= 0,
    ensures
        (i + 1) * width <= len <==> i < len / width,
{
    assert((i + 1) * width <= len <==> i < len / width) by (nonlinear_arith)
        requires
            width > 0,
            len >= 0,
            i >= 0,
    ;
}

/// Where values are ordered like real numbers, a ridge keeps to the peak: in every column
/// away from the seed it is on the greatest value within two rows of where it was in the
/// column before; in the seed's own column it is there within two rows of the greatest value
/// within three rows of the seed, or of the last row for a seed above the image.
pub proof fn ridges_keep_to_the_peak<T: PartialOrd>(
    val: spec_fn(T) -> real,
    amp: Seq<T>,
    width: int,
    seed: (usize, usize),
    rows: Seq<usize>,
    c: int,
)
    requires
        numeric::exact_order(val),
        trackable(amp.len() as int, width, Some(seed)),
        ridge_from(amp, width, seed, rows),
        forall|i: int| 0 <= i < width ==> (#[trigger] rows[i] + 1) * width <= amp.len(),
        0 <= c < width,
    ensures
        rows.len() == width,
        c > seed.0 ==> peak_near(val, amp, width, c, rows[c - 1] as int, 2, rows[c] as int),
        c < seed.0 ==> peak_near(val, amp, width, c, rows[c + 1] as int, 2, rows[c] as int),
        c == seed.0 ==> exists|start: int| #[trigger]
            peak_near(val, amp, width, c, start, 2, rows[c] as int) && {
                ||| (seed.1 + 1) * width <= amp.len() && peak_near(
                    val,
                    amp,
                    width,
                    c,
                    seed.1 as int,
                    3,
                    start,
                )
                ||| (seed.1 + 1) * width > amp.len() && exists|last: int|
                    (last + 1) * width <= amp.len() < (last + 2) * width && #[trigger] peak_near(
                        val,
                        amp,
                        width,
                        c,
                        last,
                        3,
                        start,
                    )
            },
{
    let ns = amp.len() as int / width;
    let col0 = seed.0 as int;
    let guess = plan::min_of(seed.1 as int, ns - 1);
    let r0 = choose|r0: int| #[trigger] followed(amp, width, ns, col0, guess, r0, rows);
    rows_fit(amp.len() as int, width, rows[c] as int);
    if c > col0 {
        let d = c - 1;
        rows_fit(amp.len() as int, width, rows[d] as int);
        assert((rows[d] + 1) * width <= amp.len());
        assert(nearby(amp, width, ns, c, rows[d] as int, 2, rows[c] as int));
        nearby_is_a_peak(val, amp, width, c, rows[d] as int, 2, rows[c] as int);
    } else if c < col0 {
        let d = c + 1;
        rows_fit(amp.len() as int, width, rows[d] as int);
        assert((rows[d] + 1) * width <= amp.len());
        assert(nearby(amp, width, ns, c, rows[d] as int, 2, rows[c] as int));
        nearby_is_a_peak(val, amp, width, c, rows[d] as int, 2, rows[c] as int);
    } else {
        nearby_is_a_peak(val, amp, width, c, guess, 3, r0);
        nearby_is_a_peak(val, amp, width, c, r0, 2, rows[c] as int);
        rows_fit(amp.len() as int, width, seed.1 as int);
        rows_fit(amp.len() as int, width, ns - 1);
        rows_fit(amp.len() as int, width, ns);
        assert(peak_near(val, amp, width, c, guess, 3, r0));
    }
}

/// There is a ridge exactly where the image has two full rows or more and the seed is in one
/// of its columns.
pub proof fn two_rows_make_a_ridge(len: int, width: int, seed: Option<(usize, usize)>)
    requires
        len >= 0,
        width >= 0,
    ensures
        trackable(len, width, seed) <==> {
            &&& width > 0 && len >= 2 * width
            &&& seed matches Some((col, row)) && col < width
        },
{
    if width > 0 {
        rows_fit(len, width, 1);
    }
}

/// First line of an exported ridge.
pub open spec fn csv_header() -> Seq<char> {
    "time_s,f_row_hz,f_inst_hz,rel_dev,amplitude,phase_rad,coherence\n"@
}

/// `text` is the export of a ridge over its first `k` columns: the header, then for each
/// column what `line` says of column, row and image index.
pub open spec fn exported<L: Fn(usize, usize, usize) -> String>(
    line: L,
    rows: Seq<usize>,
    width: int,
    k: int,
    text: Seq<char>,
) -> bool
    decreases k,
{
    if k <= 0 {
        text == csv_header()
    } else {
        exists|before: Seq<char>, s: String|
            {
                &&& exported(line, rows, width, k - 1, before)
                &&& #[trigger] call_ensures(
                    line,
                    (
                        (k - 1) as usize,
                        rows[k - 1],
                        (rows[k - 1] * width + (k - 1)) as usize,
                    ),
                    s,
                )
                &&& text == #[trigger] before.add(s@)
            }
    }
}

/// There is a ridge to write: one row for every column of an image of two rows or more.
pub open spec fn exportable(rows: Seq<usize>, width: int, num_scales: int) -> bool {
    width > 0 && rows.len() == width && num_scales >= 2
}

/// A ridge that was extracted from an image can be written.
pub proof fn extracted_ridges_can_be_written<T: PartialOrd>(
    amp: Seq<T>,
    width: int,
    seed: (usize, usize),
    rows: Seq<usize>,
)
    requires
        trackable(amp.len() as int, width, Some(seed)),
        ridge_from(amp, width, seed, rows),
    ensures
        exportable(rows, width, amp.len() as int / width),
{
}

/// An export is the header and after it one line per column, in order; each line is that of
/// its column, of the ridge's row there and of that very pixel.
pub proof fn exports_have_a_line_per_column<L: Fn(usize, usize, usize) -> String>(
    line: L,
    said: spec_fn(int, int, int) -> Seq<char>,
    rows: Seq<usize>,
    width: int,
    num_scales: int,
    k: int,
    text: Seq<char>,
)
    requires
        forall|c: usize, r: usize, i: usize, s: String| #[trigger]
            call_ensures(line, (c, r, i), s) ==> s@ == said(c as int, r as int, i as int),
        0 <= k <= width == rows.len() <= usize::MAX,
        num_scales * width <= usize::MAX,
        forall|i: int| 0 <= i < rows.len() ==> #[trigger] rows[i] < num_scales,
        exported(line, rows, width, k, text),
    ensures
        text == csv_header() + Seq::new(
            k as nat,
            |c: int| said(c, rows[c] as int, rows[c] * width + c),
        ).flatten(),
    decreases k,
{
    let lines = Seq::new(k as nat, |c: int| said(c, rows[c] as int, rows[c] * width + c));
    if k <= 0 {
        assert(lines.flatten() =~= Seq::empty());
    } else {
        let fewer = Seq::new((k - 1) as nat, |c: int| said(c, rows[c] as int, rows[c] * width + c));
        let (before, s) = choose|before: Seq<char>, s: String|
            {
                &&& exported(line, rows, width, k - 1, before)
                &&& #[trigger] call_ensures(
                    line,
                    (
                        (k - 1) as usize,
                        rows[k - 1],
                        (rows[k - 1] * width + (k - 1)) as usize,
                    ),
                    s,
                )
                &&& text == #[trigger] before.add(s@)
            };
        exports_have_a_line_per_column(line, said, rows, width, num_scales, k - 1, before);
        squeeze::pixel_index(rows[k - 1] as int, k - 1, width, num_scales);
        vstd::arithmetic::mul::lemma_mul_nonnegative(rows[k - 1] as int, width);
        assert(lines.drop_last() =~= fewer);
        lines.lemma_flatten_and_flatten_alt_are_equivalent();
        fewer.lemma_flatten_and_flatten_alt_are_equivalent();
        assert(lines.flatten() == fewer.flatten() + lines.last());
        assert(text =~= csv_header() + lines.flatten());
    }
}

/// Writes a ridge as text, one line per column. Nothing is written without columns, with
/// fewer than two rows, or for a ridge of another width.
pub fn export_ridge_csv<L: Fn(usize, usize, usize) -> String>(
    rows: &Vec<usize>,
    width: usize,
    num_scales: usize,
    line: L,
) -> (csv: Option<String>)
    requires
        forall|i: int| 0 <= i < rows@.len() ==> #[trigger] rows@[i] < num_scales,
        num_scales * width <= usize::MAX,
        forall|c: usize, r: usize, i: usize| call_requires(line, (c, r, i)),
    ensures
        csv is Some <==> exportable(rows@, width as int, num_scales as int),
        csv matches Some(s) ==> exported(line, rows@, width as int, width as int, s@),
{
    if width == 0 || rows.len() != width || num_scales < 2 {
        return None;
    }
    let mut csv: String =
        "time_s,f_row_hz,f_inst_hz,rel_dev,amplitude,phase_rad,coherence\n".to_owned();
    let mut col: usize = 0;
    while col < width
        invariant
            col <= width == rows@.len(),
            forall|i: int| 0 <= i < rows@.len() ==> #[trigger] rows@[i] < num_scales,
            num_scales * width <= usize::MAX,
            forall|c: usize, r: usize, i: usize| call_requires(line, (c, r, i)),
            exported(line, rows@, width as int, col as int, csv@),
        decreases width - col,
    {
        let row: usize = rows[col];
        proof {
            squeeze::pixel_index(row as int, col as int, width as int, num_scales as int);
            vstd::arithmetic::mul::lemma_mul_nonnegative(row as int, width as int);
        }
        let i: usize = row * width + col;
        let s: String = line(col, row, i);
        let ghost before = csv@;
        csv.append(s.as_str());
        col = col + 1;
        proof {
            let k = col as int;
            assert(csv@ == before.add(s@));
            assert(call_ensures(
                line,
                (
                    (k - 1) as usize,
                    rows@[k - 1],
                    (rows@[k - 1] * (width as int) + (k - 1)) as usize,
                ),
                s,
            ));
        }
    }
    Some(csv)
}

} // verus!

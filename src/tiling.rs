use vstd::prelude::*;
use vstd::arithmetic::div_mod::{
    lemma_div_is_ordered, lemma_div_multiples_vanish, lemma_fundamental_div_mod,
    lemma_fundamental_div_mod_converse, lemma_mod_pos_bound,
};
use vstd::arithmetic::mul::lemma_mul_inequality;

verus! {

/// The image rows `start..end` (half-open), rendered by one task.
#[derive(Debug, Clone, Copy, PartialEq, Eq, Structural)]
pub struct RowRange {
    pub start: u32,
    pub end: u32,
}

impl RowRange {
    pub open spec fn wf(self) -> bool {
        self.start <= self.end
    }

    pub open spec fn len(self) -> nat {
        (self.end - self.start) as nat
    }
}

/// The `k`-th of the `tiles + 1` row boundaries that cut `height` rows into `tiles`
/// ranges of nearly equal size.
pub open spec fn row_bound(height: nat, tiles: nat, k: nat) -> nat {
    (k * height / tiles) as nat
}

/// The range of rows that tile `j` renders: tiles are numbered top first, so that
/// emitting them in order emits the image top to bottom.
pub open spec fn tile_rows(height: nat, tiles: nat, j: nat) -> RowRange {
    RowRange {
        start: row_bound(height, tiles, (tiles - 1 - j) as nat) as u32,
        end: row_bound(height, tiles, (tiles - j) as nat) as u32,
    }
}

proof fn lemma_row_bound(height: nat, tiles: nat, k1: nat, k2: nat)
    requires
        0 < tiles,
        k1 <= k2 <= tiles,
    ensures
        row_bound(height, tiles, k1) <= row_bound(height, tiles, k2) <= height,
        row_bound(height, tiles, 0) == 0,
        row_bound(height, tiles, tiles) == height,
{
    lemma_mul_inequality(k1 as int, k2 as int, height as int);
    lemma_mul_inequality(k2 as int, tiles as int, height as int);
    lemma_div_is_ordered((k1 * height) as int, (k2 * height) as int, tiles as int);
    lemma_div_is_ordered((k2 * height) as int, (tiles * height) as int, tiles as int);
    lemma_div_multiples_vanish(height as int, tiles as int);
    assert(tiles * height == height * tiles) by (nonlinear_arith);
}

fn row_bound_exec(height: u32, tiles: u32, k: u32) -> (r: u32)
    requires
        0 < tiles,
        k <= tiles,
    ensures
        r == row_bound(height as nat, tiles as nat, k as nat),
{
    proof {
        lemma_row_bound(height as nat, tiles as nat, k as nat, tiles as nat);
        lemma_mul_inequality(k as int, tiles as int, height as int);
        lemma_mul_inequality(tiles as int, 0x1_0000_0000int, height as int);
        lemma_mul_inequality(height as int, 0x1_0000_0000int, 0x1_0000_0000int);
    }
    ((k as u64) * (height as u64) / (tiles as u64)) as u32
}

/// Cuts `height` rows into `tiles` disjoint ranges that cover them all, top first:
/// the first range ends at the last row, each next range ends where the one before
/// it starts, and the last range starts at row 0.
pub fn split_rows(height: u32, tiles: u32) -> (r: Vec<RowRange>)
    requires
        tiles >= 1,
    ensures
        r@.len() == tiles,
        forall|j: int| 0 <= j < tiles ==> #[trigger] r@[j] == tile_rows(height as nat, tiles as nat, j as nat),
        forall|j: int| 0 <= j < tiles ==> (#[trigger] r@[j]).wf(),
        r@[0].end == height,
        r@[tiles - 1].start == 0,
        forall|j: int| 0 <= j < tiles - 1 ==> (#[trigger] r@[j]).start == r@[j + 1].end,
{
    let mut r: Vec<RowRange> = Vec::new();
    let mut j: u32 = 0;
    while j < tiles
        invariant
            j <= tiles,
            r@.len() == j,
            forall|i: int| 0 <= i < j ==> #[trigger] r@[i] == tile_rows(height as nat, tiles as nat, i as nat),
        decreases tiles - j,
    {
        let start = row_bound_exec(height, tiles, tiles - 1 - j);
        let end = row_bound_exec(height, tiles, tiles - j);
        r.push(RowRange { start, end });
        j = j + 1;
    }
    proof {
        assert forall|i: int| 0 <= i < tiles implies (#[trigger] r@[i]).wf() by {
            lemma_row_bound(height as nat, tiles as nat, (tiles - 1 - i) as nat, (tiles - i) as nat);
        }
        lemma_row_bound(height as nat, tiles as nat, 0, tiles as nat);
    }
    r
}


/// An image position: column `x` from the left, row `y` from the bottom.
#[derive(Debug, Clone, Copy, PartialEq, Eq, Structural)]
pub struct Pixel {
    pub x: u32,
    pub y: u32,
}

/// The `k`-th pixel of a scan that walks rows from row `top - 1` downwards, each row
/// left to right, over an image `width` pixels wide.
pub open spec fn scan_pixel(width: nat, top: nat, k: int) -> Pixel {
    Pixel { x: (k % width as int) as u32, y: (top - 1 - k / width as int) as u32 }
}

/// The pixels of rows `start..end`, top row first, each row left to right: the order in
/// which they are rendered and written out.
pub open spec fn scan_order(width: nat, start: nat, end: nat) -> Seq<Pixel> {
    Seq::new(((end - start) * width) as nat, |k: int| scan_pixel(width, end, k))
}

/// Lists the pixels of the rows in `rows`, in scan order.
pub fn tile_pixels(width: u32, rows: RowRange) -> (r: Vec<Pixel>)
    requires
        rows.wf(),
        rows.len() * width <= usize::MAX,
    ensures
        r@ == scan_order(width as nat, rows.start as nat, rows.end as nat),
{
    let mut r: Vec<Pixel> = Vec::new();
    let mut y: u32 = rows.end;
    while y > rows.start
        invariant
            rows.start <= y <= rows.end,
            rows.len() * width <= usize::MAX,
            r@.len() == (rows.end - y) * width,
            forall|k: int| 0 <= k < r@.len() ==> #[trigger] r@[k] == scan_pixel(width as nat, rows.end as nat, k),
        decreases y,
    {
        let mut x: u32 = 0;
        proof {
            lemma_mul_inequality((rows.end - y + 1) as int, rows.len() as int, width as int);
            assert((rows.end - y) * width + width == (rows.end - y + 1) * width) by (nonlinear_arith);
        }
        while x < width
            invariant
                rows.start < y <= rows.end,
                x <= width,
                (rows.end - y) * width + width <= rows.len() * width <= usize::MAX,
                r@.len() == (rows.end - y) * width + x,
                forall|k: int| 0 <= k < r@.len() ==> #[trigger] r@[k] == scan_pixel(width as nat, rows.end as nat, k),
            decreases width - x,
        {
            proof {
                lemma_fundamental_div_mod_converse(r@.len() as int, width as int, (rows.end - y) as int, x as int);
            }
            r.push(Pixel { x, y: y - 1 });
            x = x + 1;
        }
        proof {
            assert((rows.end - y) * width + width == (rows.end - (y - 1)) * width) by (nonlinear_arith);
        }
        y = y - 1;
    }
    proof {
        assert(r@ =~= scan_order(width as nat, rows.start as nat, rows.end as nat));
    }
    r
}


/// Joins the outputs of the tasks in task order, whichever task finished first.
pub fn gather<T>(tiles: Vec<Vec<T>>) -> (r: Vec<T>)
    ensures
        r@ == tiles@.map_values(|t: Vec<T>| t@).flatten(),
{
    let ghost all = tiles@.map_values(|t: Vec<T>| t@);
    let mut rest = tiles;
    let mut r: Vec<T> = Vec::new();
    assert(all.subrange(all.len() as int, all.len() as int) =~= Seq::<Seq<T>>::empty());
    while rest.len() > 0
        invariant
            rest@.len() <= all.len(),
            forall|i: int| 0 <= i < rest@.len() ==> (#[trigger] rest@[i])@ == all[i],
            r@ == all.subrange(rest@.len() as int, all.len() as int).flatten(),
        decreases rest.len(),
    {
        let ghost k = rest@.len() - 1;
        let mut t = rest.pop().unwrap();
        t.append(&mut r);
        r = t;
        assert(all.subrange(k, all.len() as int).drop_first() =~= all.subrange(k + 1, all.len() as int));
    }
    assert(all.subrange(0, all.len() as int) =~= all);
    r
}

/// Two consecutive row ranges, the upper one scanned first, scan as their union does.
proof fn lemma_scan_concat(width: nat, start: nat, mid: nat, end: nat)
    requires
        start <= mid <= end,
    ensures
        scan_order(width, mid, end) + scan_order(width, start, mid) == scan_order(width, start, end),
{
    let upper = scan_order(width, mid, end);
    let lower = scan_order(width, start, mid);
    let whole = scan_order(width, start, end);
    assert((end - mid) * width + (mid - start) * width == (end - start) * width) by (nonlinear_arith);
    assert forall|k: int| upper.len() <= k < whole.len() implies lower[k - upper.len()] == #[trigger] whole[k] by {
        if width == 0 {
            assert(whole.len() == 0) by (nonlinear_arith)
                requires whole.len() == (end - start) * width, width == 0;
        }
        let k2 = k - upper.len();
        let q = k2 / width as int;
        let r = k2 % width as int;
        lemma_fundamental_div_mod(k2, width as int);
        lemma_mod_pos_bound(k2, width as int);
        assert(k == (q + (end - mid)) * width + r) by (nonlinear_arith)
            requires k2 == width * q + r, k2 == k - (end - mid) * width;
        lemma_fundamental_div_mod_converse(k, width as int, q + (end - mid), r);
    }
    assert(upper + lower =~= whole);
}

/// The scans of the tiles `first..tiles` of `split_rows(height, tiles)`, joined in order.
spec fn gathered_scans(width: nat, height: nat, tiles: nat, first: nat) -> Seq<Seq<Pixel>> {
    Seq::new((tiles - first) as nat, |i: int| {
        let rows = tile_rows(height, tiles, (first + i) as nat);
        scan_order(width, rows.start as nat, rows.end as nat)
    })
}

proof fn lemma_gathered_suffix(width: nat, height: nat, tiles: nat, first: nat)
    requires
        1 <= tiles,
        first <= tiles,
        height <= u32::MAX,
    ensures
        gathered_scans(width, height, tiles, first).flatten()
            == scan_order(width, 0, row_bound(height, tiles, (tiles - first) as nat)),
    decreases tiles - first,
{
    lemma_row_bound(height, tiles, 0, tiles);
    let scans = gathered_scans(width, height, tiles, first);
    if first == tiles {
        assert((0 - 0) * width == 0) by (nonlinear_arith);
        assert(scan_order(width, 0, 0) =~= Seq::<Pixel>::empty());
    } else {
        lemma_gathered_suffix(width, height, tiles, first + 1);
        assert(scans.drop_first() =~= gathered_scans(width, height, tiles, first + 1));
        let lo = row_bound(height, tiles, (tiles - first - 1) as nat);
        let hi = row_bound(height, tiles, (tiles - first) as nat);
        lemma_row_bound(height, tiles, (tiles - first - 1) as nat, (tiles - first) as nat);
        lemma_scan_concat(width, 0, lo, hi);
    }
}

/// Rendering each range of `split_rows(height, tiles)` in scan order and gathering the
/// results in task order yields the whole image in scan order: every row once, top
/// row first, each row left to right.
pub proof fn lemma_tiles_gather_to_image(width: nat, height: nat, tiles: nat)
    requires
        1 <= tiles,
        height <= u32::MAX,
    ensures
        Seq::new(tiles, |j: int| {
            let rows = tile_rows(height, tiles, j as nat);
            scan_order(width, rows.start as nat, rows.end as nat)
        }).flatten() == scan_order(width, 0, height),
{
    lemma_gathered_suffix(width, height, tiles, 0);
    lemma_row_bound(height, tiles, 0, tiles);
    assert(gathered_scans(width, height, tiles, 0) =~= Seq::new(tiles, |j: int| {
        let rows = tile_rows(height, tiles, j as nat);
        scan_order(width, rows.start as nat, rows.end as nat)
    }));
}

} // verus!

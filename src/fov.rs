//! Field of view by recursive shadow casting over the six sextants of a hex grid.
//!
//! Slopes are exact fractions, so the rounding at half-integer boundaries is exact.
use crate::grid::{fits_i32, Direction, Pos, HEIGHT, WIDTH};
use vstd::prelude::*;

verus! {

/// Farthest row that a scan reaches: no two positions of the grid are farther apart.
pub const MAX_ROWS: u64 = 66;

/// A slope `num / den` within a sextant: tangential offset over row distance.
#[derive(Debug, Copy, Clone)]
pub struct Slope {
    pub num: u64,
    pub den: u64,
}

impl Slope {
    /// A slope between zero and one whose parts stay small.
    pub open spec fn ok(self) -> bool {
        1 <= self.den <= 2 * MAX_ROWS && self.num <= self.den
    }
}

/// `num / den` rounded to the nearest integer, halves rounded up.
pub open spec fn round_high_spec(num: int, den: int) -> int {
    (2 * num + den) / (2 * den)
}

/// `num / den` rounded to the nearest integer, halves rounded down.
pub open spec fn round_low_spec(num: int, den: int) -> int {
    (2 * num + den - 1) / (2 * den)
}

/// Rounds `num / den` to the nearest integer, halves up.
pub fn round_high(num: u64, den: u64) -> (r: u64)
    requires
        1 <= den <= u32::MAX,
        num <= u32::MAX,
    ensures
        r == round_high_spec(num as int, den as int),
        2 * den * r <= 2 * num + den < 2 * den * (r + 1),
{
    let r = (2 * num + den) / (2 * den);
    proof {
        vstd::arithmetic::div_mod::lemma_fundamental_div_mod((2 * num + den) as int, (2 * den) as int);
        assert(2 * den * r == (2 * den) * r) by (nonlinear_arith);
        assert(2 * den * (r + 1) == (2 * den) * r + 2 * den) by (nonlinear_arith);
    }
    r
}

/// Rounds `num / den` to the nearest integer, halves down.
pub fn round_low(num: u64, den: u64) -> (r: u64)
    requires
        1 <= den <= u32::MAX,
        num <= u32::MAX,
    ensures
        r == round_low_spec(num as int, den as int),
        2 * den * r <= 2 * num + den - 1 < 2 * den * (r + 1),
{
    let r = (2 * num + den - 1) / (2 * den);
    proof {
        vstd::arithmetic::div_mod::lemma_fundamental_div_mod((2 * num + den - 1) as int, (2 * den) as int);
        assert(2 * den * r == (2 * den) * r) by (nonlinear_arith);
        assert(2 * den * (r + 1) == (2 * den) * r + 2 * den) by (nonlinear_arith);
    }
    r
}

/// The tangent direction of a sextant: the way columns advance within a row.
pub open spec fn tangent(i: int) -> Direction {
    if i == 0 {
        Direction::Southeast
    } else if i == 1 {
        Direction::Southwest
    } else if i == 2 {
        Direction::West
    } else if i == 3 {
        Direction::Northwest
    } else if i == 4 {
        Direction::Northeast
    } else {
        Direction::East
    }
}

/// The normal direction of a sextant: the way rows advance.
pub open spec fn normal(i: int) -> Direction {
    if i == 0 {
        Direction::Northeast
    } else if i == 1 {
        Direction::East
    } else if i == 2 {
        Direction::Southeast
    } else if i == 3 {
        Direction::Southwest
    } else if i == 4 {
        Direction::West
    } else {
        Direction::Northwest
    }
}

/// The position `center + tangent * x + normal * y` of sextant `i`.
pub open spec fn sextant_pos(center: Pos, i: int, x: int, y: int) -> Pos {
    Pos {
        x: (center.x + tangent(i).dx() * x + normal(i).dx() * y) as i32,
        y: (center.y + tangent(i).dy() * x + normal(i).dy() * y) as i32,
    }
}

/// Whether `p` is a cell of one of the six sextants around `center`, at most
/// `MAX_ROWS` rows out.
pub open spec fn in_sextant_view(center: Pos, p: Pos) -> bool {
    exists|i: int, x: int, y: int|
        0 <= i < 6 && 0 <= x <= y && 1 <= y <= MAX_ROWS && p == #[trigger] sextant_pos(center, i, x, y)
}

/// Whether the slope `a` is below the slope `b`.
pub open spec fn below(a: Slope, b: Slope) -> bool {
    a.num * b.den < b.num * a.den
}

/// Whether `transparent` gives the same answer on equal positions.
pub open spec fn deterministic<F: Fn(Pos) -> bool>(transparent: F) -> bool {
    forall|p: Pos, a: bool, b: bool|
        transparent.ensures((p,), a) && transparent.ensures((p,), b) ==> a == b
}

/// The cells that the scan of sextant `i` reveals, in order, from column `x` of row
/// `y` on: the rest of the row up to column `x_max` between the slopes `start`
/// and `end`, with the rows behind it spliced in where they are scanned. `open`
/// tells whether a run of visible clear cells is under way.
pub open spec fn scan_from<F: Fn(Pos) -> bool>(
    center: Pos,
    transparent: F,
    i: int,
    y: int,
    x: int,
    x_max: int,
    start: Slope,
    end: Slope,
    open: bool,
) -> Seq<Pos>
    decreases MAX_ROWS - y, 1int, x_max + 1 - x,
{
    if y < 1 || y > MAX_ROWS {
        Seq::empty()
    } else if x > x_max {
        if open && below(start, end) && y < MAX_ROWS {
            row_reveals(center, transparent, i, y + 1, start, end)
        } else {
            Seq::empty()
        }
    } else {
        let p = sextant_pos(center, i, x, y);
        if seen_clear(transparent, p) {
            if x * start.den >= y * start.num && x * end.den <= y * end.num {
                seq![p] + scan_from(center, transparent, i, y, x + 1, x_max, start, end, true)
            } else {
                scan_from(center, transparent, i, y, x + 1, x_max, start, end, open)
            }
        } else {
            let before = Slope { num: (2 * x - 1) as u64, den: (2 * y) as u64 };
            let past = Slope { num: (2 * x + 1) as u64, den: (2 * y) as u64 };
            let deeper = if open && below(start, before) && y < MAX_ROWS {
                row_reveals(center, transparent, i, y + 1, start, before)
            } else {
                Seq::empty()
            };
            let rest = if !below(past, end) {
                Seq::empty()
            } else {
                scan_from(center, transparent, i, y, x + 1, x_max, past, end, false)
            };
            deeper + seq![p] + rest
        }
    }
}

/// The cells that the scan of row `y` of sextant `i` between the slopes `start`
/// and `end` reveals, rows behind it included, in order.
pub open spec fn row_reveals<F: Fn(Pos) -> bool>(
    center: Pos,
    transparent: F,
    i: int,
    y: int,
    start: Slope,
    end: Slope,
) -> Seq<Pos>
    decreases MAX_ROWS - y, 2int, 0int,
{
    if y < 1 || y > MAX_ROWS {
        Seq::empty()
    } else {
        scan_from(
            center,
            transparent,
            i,
            y,
            round_high_spec(y * start.num, start.den as int),
            round_low_spec(y * end.num, end.den as int),
            start,
            end,
            false,
        )
    }
}

/// The cells that the scans of the first `n` sextants reveal, in order.
pub open spec fn fov_reveals<F: Fn(Pos) -> bool>(center: Pos, transparent: F, n: int) -> Seq<Pos>
    decreases n,
{
    if n <= 0 {
        Seq::empty()
    } else {
        fov_reveals(center, transparent, n - 1) + row_reveals(
            center,
            transparent,
            n - 1,
            1,
            Slope { num: 0, den: 1 },
            Slope { num: 1, den: 1 },
        )
    }
}

/// Whether `transparent` reported `p` clear.
pub open spec fn seen_clear<F: Fn(Pos) -> bool>(transparent: F, p: Pos) -> bool {
    transparent.ensures((p,), true)
}

/// A center far enough from the ends of `i32` for every sextant cell to have
/// `i32` coordinates.
pub open spec fn center_ok(center: Pos) -> bool {
    fits_i32(center.x - 2 * MAX_ROWS) && fits_i32(center.x + 2 * MAX_ROWS) && fits_i32(
        center.y - 2 * MAX_ROWS,
    ) && fits_i32(center.y + 2 * MAX_ROWS)
}

/// A value in either part of a concatenation is in the whole.
proof fn lemma_contains_concat(a: Seq<Pos>, b: Seq<Pos>, p: Pos)
    requires
        a.contains(p) || b.contains(p),
    ensures
        (a + b).contains(p),
{
    if a.contains(p) {
        let k = choose|k: int| 0 <= k < a.len() && a[k] == p;
        assert((a + b)[k] == p);
    } else {
        let k = choose|k: int| 0 <= k < b.len() && b[k] == p;
        assert((a + b)[a.len() + k] == p);
    }
}

/// With every cell clear, the rest of row `y` from column `x` and every row behind
/// it are revealed in full.
proof fn lemma_clear_scan_from<F: Fn(Pos) -> bool>(
    center: Pos,
    transparent: F,
    i: int,
    y: int,
    x: int,
    open: bool,
)
    requires
        forall|p: Pos| #[trigger] seen_clear(transparent, p),
        1 <= y <= MAX_ROWS,
        0 <= x <= y + 1,
        x <= y || open,
    ensures
        forall|c: int|
            x <= c <= y ==> #[trigger] scan_from(
                center,
                transparent,
                i,
                y,
                x,
                y,
                Slope { num: 0, den: 1 },
                Slope { num: 1, den: 1 },
                open,
            ).contains(sextant_pos(center, i, c, y)),
        forall|c: int, r: int|
            y < r <= MAX_ROWS && 0 <= c <= r ==> scan_from(
                center,
                transparent,
                i,
                y,
                x,
                y,
                Slope { num: 0, den: 1 },
                Slope { num: 1, den: 1 },
                open,
            ).contains(#[trigger] sextant_pos(center, i, c, r)),
    decreases MAX_ROWS - y, 1int, y + 1 - x,
{
    let s = Slope { num: 0, den: 1 };
    let e = Slope { num: 1, den: 1 };
    let whole = scan_from(center, transparent, i, y, x, y, s, e, open);
    if x > y {
        if y < MAX_ROWS {
            lemma_clear_row(center, transparent, i, y + 1);
            assert(whole == row_reveals(center, transparent, i, y + 1, s, e));
        }
    } else {
        let p = sextant_pos(center, i, x, y);
        assert(seen_clear(transparent, p));
        lemma_clear_scan_from(center, transparent, i, y, x + 1, true);
        let rest = scan_from(center, transparent, i, y, x + 1, y, s, e, true);
        assert(whole == seq![p] + rest);
        assert forall|c: int| x <= c <= y implies #[trigger] whole.contains(sextant_pos(center, i, c, y)) by {
            if c == x {
                assert(seq![p][0] == p);
            }
            lemma_contains_concat(seq![p], rest, sextant_pos(center, i, c, y));
        }
        assert forall|c: int, r: int| y < r <= MAX_ROWS && 0 <= c <= r implies whole.contains(
            #[trigger] sextant_pos(center, i, c, r),
        ) by {
            lemma_contains_concat(seq![p], rest, sextant_pos(center, i, c, r));
        }
    }
}

/// With every cell clear, the scan of sextant `i` from row `y` on reveals every
/// cell of that row and of the rows behind it.
proof fn lemma_clear_row<F: Fn(Pos) -> bool>(center: Pos, transparent: F, i: int, y: int)
    requires
        forall|p: Pos| #[trigger] seen_clear(transparent, p),
        1 <= y <= MAX_ROWS,
    ensures
        forall|c: int, r: int|
            y <= r <= MAX_ROWS && 0 <= c <= r ==> row_reveals(
                center,
                transparent,
                i,
                y,
                Slope { num: 0, den: 1 },
                Slope { num: 1, den: 1 },
            ).contains(#[trigger] sextant_pos(center, i, c, r)),
    decreases MAX_ROWS - y, 2int, 0int,
{
    assert(y * 0 == 0 && y * 1 == y);
    vstd::arithmetic::div_mod::lemma_fundamental_div_mod_converse(1, 2, 0, 1);
    vstd::arithmetic::div_mod::lemma_fundamental_div_mod_converse(2 * y, 2, y, 0);
    assert(round_high_spec(0, 1) == 0);
    assert(round_low_spec(y, 1) == y);
    let s = Slope { num: 0, den: 1 };
    let e = Slope { num: 1, den: 1 };
    lemma_clear_scan_from(center, transparent, i, y, 0, false);
    let whole = scan_from(center, transparent, i, y, 0, y, s, e, false);
    assert(row_reveals(center, transparent, i, y, s, e) == whole);
    assert forall|c: int, r: int| y <= r <= MAX_ROWS && 0 <= c <= r implies whole.contains(
        #[trigger] sextant_pos(center, i, c, r),
    ) by {
        if r == y {
            assert(whole.contains(sextant_pos(center, i, c, y)));
        }
    }
}

/// Every sextant scan up to the `n`th appears in the whole field of view.
proof fn lemma_fov_has_sextant<F: Fn(Pos) -> bool>(center: Pos, transparent: F, n: int, i: int, p: Pos)
    requires
        0 <= i < n,
        row_reveals(center, transparent, i, 1, Slope { num: 0, den: 1 }, Slope { num: 1, den: 1 }).contains(p),
    ensures
        fov_reveals(center, transparent, n).contains(p),
    decreases n,
{
    let last = row_reveals(center, transparent, n - 1, 1, Slope { num: 0, den: 1 }, Slope { num: 1, den: 1 });
    if i < n - 1 {
        lemma_fov_has_sextant(center, transparent, n - 1, i, p);
    }
    lemma_contains_concat(fov_reveals(center, transparent, n - 1), last, p);
}

/// In an open room, where every cell is clear, the field of view holds every cell
/// of every sextant out to `MAX_ROWS` rows.
pub proof fn lemma_open_room_reveals_all<F: Fn(Pos) -> bool>(center: Pos, transparent: F, i: int, x: int, y: int)
    requires
        forall|p: Pos| #[trigger] seen_clear(transparent, p),
        0 <= i < 6,
        1 <= y <= MAX_ROWS,
        0 <= x <= y,
    ensures
        fov_reveals(center, transparent, 6).contains(sextant_pos(center, i, x, y)),
{
    lemma_clear_row(center, transparent, i, 1);
    lemma_fov_has_sextant(center, transparent, 6, i, sextant_pos(center, i, x, y));
}

/// Whether `p` is `center + tangent * x + normal * y` in sextant `i`, for some
/// row `y` from one to `MAX_ROWS` and column `x` from zero to `y`.
pub open spec fn cell_of(center: Pos, i: int, p: Pos) -> bool {
    exists|x: int, y: int| 0 <= x <= y && 1 <= y <= MAX_ROWS && p == #[trigger] sextant_pos(center, i, x, y)
}

/// Whether `p` is a cell of one of the first `n` sextants.
pub open spec fn in_some_sextant(center: Pos, n: int, p: Pos) -> bool {
    exists|i: int| 0 <= i < n && #[trigger] cell_of(center, i, p)
}

/// Cells of sextant `i` on both sides of a concatenation make a sequence of such cells.
proof fn lemma_cells_concat(center: Pos, i: int, a: Seq<Pos>, b: Seq<Pos>)
    requires
        forall|k: int| 0 <= k < a.len() ==> cell_of(center, i, #[trigger] a[k]),
        forall|k: int| 0 <= k < b.len() ==> cell_of(center, i, #[trigger] b[k]),
    ensures
        forall|k: int| 0 <= k < (a + b).len() ==> cell_of(center, i, #[trigger] (a + b)[k]),
{
    assert forall|k: int| 0 <= k < (a + b).len() implies cell_of(center, i, #[trigger] (a + b)[k]) by {
        if k < a.len() {
            assert((a + b)[k] == a[k]);
        } else {
            assert((a + b)[k] == b[k - a.len()]);
        }
    }
}

/// What the scan reveals from column `x` of row `y` on are cells of sextant `i`.
proof fn lemma_scan_from_cells<F: Fn(Pos) -> bool>(
    center: Pos,
    transparent: F,
    i: int,
    y: int,
    x: int,
    x_max: int,
    start: Slope,
    end: Slope,
    open: bool,
)
    requires
        0 <= x,
        open ==> x >= 1,
        x_max <= y,
        start.den >= 1,
        1 <= end.den,
        end.num <= end.den,
    ensures
        forall|k: int|
            0 <= k < scan_from(center, transparent, i, y, x, x_max, start, end, open).len() ==> cell_of(
                center,
                i,
                #[trigger] scan_from(center, transparent, i, y, x, x_max, start, end, open)[k],
            ),
    decreases MAX_ROWS - y, 1int, x_max + 1 - x,
{
    let whole = scan_from(center, transparent, i, y, x, x_max, start, end, open);
    if y < 1 || y > MAX_ROWS {
    } else if x > x_max {
        if open && below(start, end) && y < MAX_ROWS {
            lemma_row_cells(center, transparent, i, y + 1, start, end);
            assert(whole == row_reveals(center, transparent, i, y + 1, start, end));
        } else {
            assert(whole.len() == 0);
        }
    } else {
        let p = sextant_pos(center, i, x, y);
        let single = seq![p];
        assert(cell_of(center, i, p));
        assert forall|k: int| 0 <= k < single.len() implies cell_of(center, i, #[trigger] single[k]) by {
            assert(single[k] == p);
        }
        if seen_clear(transparent, p) {
            if x * start.den >= y * start.num && x * end.den <= y * end.num {
                lemma_scan_from_cells(center, transparent, i, y, x + 1, x_max, start, end, true);
                lemma_cells_concat(
                    center,
                    i,
                    single,
                    scan_from(center, transparent, i, y, x + 1, x_max, start, end, true),
                );
                assert(whole == single + scan_from(center, transparent, i, y, x + 1, x_max, start, end, true));
            } else {
                lemma_scan_from_cells(center, transparent, i, y, x + 1, x_max, start, end, open);
                assert(whole == scan_from(center, transparent, i, y, x + 1, x_max, start, end, open));
            }
        } else {
            let before = Slope { num: (2 * x - 1) as u64, den: (2 * y) as u64 };
            let past = Slope { num: (2 * x + 1) as u64, den: (2 * y) as u64 };
            let deeper = if open && below(start, before) && y < MAX_ROWS {
                row_reveals(center, transparent, i, y + 1, start, before)
            } else {
                Seq::empty()
            };
            let rest = if !below(past, end) {
                Seq::empty()
            } else {
                scan_from(center, transparent, i, y, x + 1, x_max, past, end, false)
            };
            if open && below(start, before) && y < MAX_ROWS {
                lemma_row_cells(center, transparent, i, y + 1, start, before);
            }
            if below(past, end) {
                lemma_scan_from_cells(center, transparent, i, y, x + 1, x_max, past, end, false);
            }
            lemma_cells_concat(center, i, deeper, single);
            lemma_cells_concat(center, i, deeper + single, rest);
            assert(whole == deeper + single + rest);
        }
    }
}

/// What the scan of row `y` of sextant `i` reveals are cells of that sextant.
proof fn lemma_row_cells<F: Fn(Pos) -> bool>(
    center: Pos,
    transparent: F,
    i: int,
    y: int,
    start: Slope,
    end: Slope,
)
    requires
        start.den >= 1,
        1 <= end.den,
        end.num <= end.den,
    ensures
        forall|k: int|
            0 <= k < row_reveals(center, transparent, i, y, start, end).len() ==> cell_of(
                center,
                i,
                #[trigger] row_reveals(center, transparent, i, y, start, end)[k],
            ),
    decreases MAX_ROWS - y, 2int, 0int,
{
    if 1 <= y <= MAX_ROWS {
        let a = y * start.num;
        assert(a >= 0) by (nonlinear_arith)
            requires
                y >= 1,
                start.num >= 0,
                a == y * start.num,
        ;
        vstd::arithmetic::div_mod::lemma_div_pos_is_pos(2 * a + start.den, 2 * start.den as int);
        let b = y * end.num;
        let q = round_low_spec(b, end.den as int);
        vstd::arithmetic::div_mod::lemma_fundamental_div_mod(2 * b + end.den - 1, 2 * end.den as int);
        assert(q <= y) by (nonlinear_arith)
            requires
                b == y * end.num,
                end.num <= end.den,
                end.den >= 1,
                y >= 1,
                2 * b + end.den - 1 == (2 * end.den) * q + (2 * b + end.den - 1) % (2 * end.den as int),
                0 <= (2 * b + end.den - 1) % (2 * end.den as int),
        ;
        assert(row_reveals(center, transparent, i, y, start, end) == scan_from(
            center,
            transparent,
            i,
            y,
            round_high_spec(a, start.den as int),
            round_low_spec(y * end.num, end.den as int),
            start,
            end,
            false,
        ));
        lemma_scan_from_cells(
            center,
            transparent,
            i,
            y,
            round_high_spec(a, start.den as int),
            round_low_spec(y * end.num, end.den as int),
            start,
            end,
            false,
        );
    }
}

/// A cell of a sextant is never the center itself.
#[verifier::rlimit(30)]
pub proof fn lemma_cell_not_center(center: Pos, i: int, p: Pos)
    requires
        center_ok(center),
        0 <= i < 6,
        cell_of(center, i, p),
    ensures
        p != center,
{
    let (x, y) = choose|x: int, y: int|
        0 <= x <= y && 1 <= y <= MAX_ROWS && p == #[trigger] sextant_pos(center, i, x, y);
    assert(0 <= x <= y <= 66);
    assert(fits_i32(center.x - 132) && fits_i32(center.x + 132) && fits_i32(center.y - 132) && fits_i32(
        center.y + 132,
    ));
    if i == 0 {
        assert(tangent(i).dx() * x == 1 * x && tangent(i).dy() * x == 0 * x);
        assert(normal(i).dx() * y == 0 * y && normal(i).dy() * y == -1 * y);
        let sx = center.x + tangent(i).dx() * x + normal(i).dx() * y;
        let sy = center.y + tangent(i).dy() * x + normal(i).dy() * y;
        assert(sx == center.x + 1 * x + 0 * y && sy == center.y + 0 * x + -1 * y);
        assert(center.x - 132 <= sx <= center.x + 132 && center.y - 132 <= sy <= center.y + 132)
            by (nonlinear_arith)
            requires
                sx == center.x + 1 * x + 0 * y,
                sy == center.y + 0 * x + -1 * y,
                0 <= x <= y <= 66,
        ;
        assert(fits_i32(sx) && fits_i32(sy));
        assert(p.x == sx as i32 && p.y == sy as i32);
        assert(p.x == sx && p.y == sy);
        assert(sx != center.x || sy != center.y) by (nonlinear_arith)
            requires
                sx == center.x + 1 * x + 0 * y,
                sy == center.y + 0 * x + -1 * y,
                0 <= x <= y,
                1 <= y,
        ;
    } else if i == 1 {
        assert(tangent(i).dx() * x == 0 * x && tangent(i).dy() * x == 1 * x);
        assert(normal(i).dx() * y == 1 * y && normal(i).dy() * y == -1 * y);
        let sx = center.x + tangent(i).dx() * x + normal(i).dx() * y;
        let sy = center.y + tangent(i).dy() * x + normal(i).dy() * y;
        assert(sx == center.x + 0 * x + 1 * y && sy == center.y + 1 * x + -1 * y);
        assert(center.x - 132 <= sx <= center.x + 132 && center.y - 132 <= sy <= center.y + 132)
            by (nonlinear_arith)
            requires
                sx == center.x + 0 * x + 1 * y,
                sy == center.y + 1 * x + -1 * y,
                0 <= x <= y <= 66,
        ;
        assert(fits_i32(sx) && fits_i32(sy));
        assert(p.x == sx as i32 && p.y == sy as i32);
        assert(p.x == sx && p.y == sy);
        assert(sx != center.x || sy != center.y) by (nonlinear_arith)
            requires
                sx == center.x + 0 * x + 1 * y,
                sy == center.y + 1 * x + -1 * y,
                0 <= x <= y,
                1 <= y,
        ;
    } else if i == 2 {
        assert(tangent(i).dx() * x == -1 * x && tangent(i).dy() * x == 1 * x);
        assert(normal(i).dx() * y == 1 * y && normal(i).dy() * y == 0 * y);
        let sx = center.x + tangent(i).dx() * x + normal(i).dx() * y;
        let sy = center.y + tangent(i).dy() * x + normal(i).dy() * y;
        assert(sx == center.x + -1 * x + 1 * y && sy == center.y + 1 * x + 0 * y);
        assert(center.x - 132 <= sx <= center.x + 132 && center.y - 132 <= sy <= center.y + 132)
            by (nonlinear_arith)
            requires
                sx == center.x + -1 * x + 1 * y,
                sy == center.y + 1 * x + 0 * y,
                0 <= x <= y <= 66,
        ;
        assert(fits_i32(sx) && fits_i32(sy));
        assert(p.x == sx as i32 && p.y == sy as i32);
        assert(p.x == sx && p.y == sy);
        assert(sx != center.x || sy != center.y) by (nonlinear_arith)
            requires
                sx == center.x + -1 * x + 1 * y,
                sy == center.y + 1 * x + 0 * y,
                0 <= x <= y,
                1 <= y,
        ;
    } else if i == 3 {
        assert(tangent(i).dx() * x == -1 * x && tangent(i).dy() * x == 0 * x);
        assert(normal(i).dx() * y == 0 * y && normal(i).dy() * y == 1 * y);
        let sx = center.x + tangent(i).dx() * x + normal(i).dx() * y;
        let sy = center.y + tangent(i).dy() * x + normal(i).dy() * y;
        assert(sx == center.x + -1 * x + 0 * y && sy == center.y + 0 * x + 1 * y);
        assert(center.x - 132 <= sx <= center.x + 132 && center.y - 132 <= sy <= center.y + 132)
            by (nonlinear_arith)
            requires
                sx == center.x + -1 * x + 0 * y,
                sy == center.y + 0 * x + 1 * y,
                0 <= x <= y <= 66,
        ;
        assert(fits_i32(sx) && fits_i32(sy));
        assert(p.x == sx as i32 && p.y == sy as i32);
        assert(p.x == sx && p.y == sy);
        assert(sx != center.x || sy != center.y) by (nonlinear_arith)
            requires
                sx == center.x + -1 * x + 0 * y,
                sy == center.y + 0 * x + 1 * y,
                0 <= x <= y,
                1 <= y,
        ;
    } else if i == 4 {
        assert(tangent(i).dx() * x == 0 * x && tangent(i).dy() * x == -1 * x);
        assert(normal(i).dx() * y == -1 * y && normal(i).dy() * y == 1 * y);
        let sx = center.x + tangent(i).dx() * x + normal(i).dx() * y;
        let sy = center.y + tangent(i).dy() * x + normal(i).dy() * y;
        assert(sx == center.x + 0 * x + -1 * y && sy == center.y + -1 * x + 1 * y);
        assert(center.x - 132 <= sx <= center.x + 132 && center.y - 132 <= sy <= center.y + 132)
            by (nonlinear_arith)
            requires
                sx == center.x + 0 * x + -1 * y,
                sy == center.y + -1 * x + 1 * y,
                0 <= x <= y <= 66,
        ;
        assert(fits_i32(sx) && fits_i32(sy));
        assert(p.x == sx as i32 && p.y == sy as i32);
        assert(p.x == sx && p.y == sy);
        assert(sx != center.x || sy != center.y) by (nonlinear_arith)
            requires
                sx == center.x + 0 * x + -1 * y,
                sy == center.y + -1 * x + 1 * y,
                0 <= x <= y,
                1 <= y,
        ;
    } else {
        assert(tangent(i).dx() * x == 1 * x && tangent(i).dy() * x == -1 * x);
        assert(normal(i).dx() * y == -1 * y && normal(i).dy() * y == 0 * y);
        let sx = center.x + tangent(i).dx() * x + normal(i).dx() * y;
        let sy = center.y + tangent(i).dy() * x + normal(i).dy() * y;
        assert(sx == center.x + 1 * x + -1 * y && sy == center.y + -1 * x + 0 * y);
        assert(center.x - 132 <= sx <= center.x + 132 && center.y - 132 <= sy <= center.y + 132)
            by (nonlinear_arith)
            requires
                sx == center.x + 1 * x + -1 * y,
                sy == center.y + -1 * x + 0 * y,
                0 <= x <= y <= 66,
        ;
        assert(fits_i32(sx) && fits_i32(sy));
        assert(p.x == sx as i32 && p.y == sy as i32);
        assert(p.x == sx && p.y == sy);
        assert(sx != center.x || sy != center.y) by (nonlinear_arith)
            requires
                sx == center.x + 1 * x + -1 * y,
                sy == center.y + -1 * x + 0 * y,
                0 <= x <= y,
                1 <= y,
        ;
    }
}

/// Every cell that the field of view reveals is `center + tangent * x + normal * y`
/// for one of the six sextants, a column `x >= 0` and a row `y` from one to
/// `MAX_ROWS`: sight never leaves the sextant transform. The sextant scans never
/// reveal the center itself.
pub proof fn lemma_fov_cells<F: Fn(Pos) -> bool>(center: Pos, transparent: F, n: int)
    requires
        0 <= n <= 6,
        center_ok(center),
    ensures
        forall|k: int|
            0 <= k < fov_reveals(center, transparent, n).len() ==> in_some_sextant(
                center,
                n,
                #[trigger] fov_reveals(center, transparent, n)[k],
            ) && fov_reveals(center, transparent, n)[k] != center,
    decreases n,
{
    if n > 0 {
        lemma_fov_cells(center, transparent, n - 1);
        let a = fov_reveals(center, transparent, n - 1);
        let b = row_reveals(center, transparent, n - 1, 1, Slope { num: 0, den: 1 }, Slope { num: 1, den: 1 });
        lemma_row_cells(center, transparent, n - 1, 1, Slope { num: 0, den: 1 }, Slope { num: 1, den: 1 });
        assert forall|k: int| 0 <= k < (a + b).len() implies in_some_sextant(center, n, #[trigger] (a + b)[k])
            && (a + b)[k] != center by {
            if k < a.len() {
                assert((a + b)[k] == a[k]);
                assert(in_some_sextant(center, n - 1, a[k]));
                let i = choose|i: int| 0 <= i < n - 1 && #[trigger] cell_of(center, i, a[k]);
                assert(cell_of(center, i, (a + b)[k]));
            } else {
                assert((a + b)[k] == b[k - a.len()]);
                assert(cell_of(center, n - 1, (a + b)[k]));
                lemma_cell_not_center(center, n - 1, (a + b)[k]);
            }
        }
        assert(fov_reveals(center, transparent, n) == a + b);
    }
}

/// Whatever `transparent` says, every neighbour of `center` is revealed: the first
/// row of each sextant is scanned from its first cell on.
pub proof fn lemma_neighbors_revealed<F: Fn(Pos) -> bool>(center: Pos, transparent: F, d: Direction)
    ensures
        fov_reveals(center, transparent, 6).contains(
            Pos { x: (center.x + d.dx()) as i32, y: (center.y + d.dy()) as i32 },
        ),
{
    let i = d.index_spec();
    let s = Slope { num: 0, den: 1 };
    let e = Slope { num: 1, den: 1 };
    let p = sextant_pos(center, i, 0, 1);
    assert(p == Pos { x: (center.x + d.dx()) as i32, y: (center.y + d.dy()) as i32 });
    vstd::arithmetic::div_mod::lemma_fundamental_div_mod_converse(1, 2, 0, 1);
    vstd::arithmetic::div_mod::lemma_fundamental_div_mod_converse(2, 2, 1, 0);
    assert(round_high_spec(0, 1) == 0);
    assert(round_low_spec(1, 1) == 1);
    let row = row_reveals(center, transparent, i, 1, s, e);
    assert(row == scan_from(center, transparent, i, 1, 0, 1, s, e, false));
    if seen_clear(transparent, p) {
        let rest = scan_from(center, transparent, i, 1, 1, 1, s, e, true);
        assert(row == seq![p] + rest);
        assert(row[0] == p);
    } else {
        let past = Slope { num: 1, den: 2 };
        let rest = if !below(past, e) {
            Seq::empty()
        } else {
            scan_from(center, transparent, i, 1, 1, 1, past, e, false)
        };
        assert(row == Seq::<Pos>::empty() + seq![p] + rest);
        assert(row[0] == p);
    }
    assert(row.contains(p));
    lemma_fov_has_sextant(center, transparent, 6, i, p);
}

/// Products of the small numbers that a scan handles stay small.
proof fn lemma_small_product(a: int, b: int)
    requires
        0 <= a <= 2 * MAX_ROWS + 1,
        0 <= b <= 2 * MAX_ROWS + 1,
    ensures
        0 <= a * b <= (2 * MAX_ROWS + 1) * (2 * MAX_ROWS + 1),
{
    assert(0 <= a * b <= (2 * MAX_ROWS + 1) * (2 * MAX_ROWS + 1)) by (nonlinear_arith)
        requires
            0 <= a <= 2 * MAX_ROWS + 1,
            0 <= b <= 2 * MAX_ROWS + 1,
    ;
}

fn tangent_of(i: usize) -> (r: Direction)
    ensures
        r == tangent(i as int),
{
    if i == 0 {
        Direction::Southeast
    } else if i == 1 {
        Direction::Southwest
    } else if i == 2 {
        Direction::West
    } else if i == 3 {
        Direction::Northwest
    } else if i == 4 {
        Direction::Northeast
    } else {
        Direction::East
    }
}

fn normal_of(i: usize) -> (r: Direction)
    ensures
        r == normal(i as int),
{
    if i == 0 {
        Direction::Northeast
    } else if i == 1 {
        Direction::East
    } else if i == 2 {
        Direction::Southeast
    } else if i == 3 {
        Direction::Southwest
    } else if i == 4 {
        Direction::West
    } else {
        Direction::Northwest
    }
}

/// Maps local sextant coordinates to a position.
fn transform(center: Pos, i: usize, x: u64, y: u64) -> (r: Pos)
    requires
        center_ok(center),
        i < 6,
        x <= y <= MAX_ROWS,
        1 <= y,
    ensures
        r == sextant_pos(center, i as int, x as int, y as int),
        in_sextant_view(center, r),
{
    let t = tangent_of(i);
    let n = normal_of(i);
    let tx = t.x() as i64;
    let ty = t.y() as i64;
    let nx = n.x() as i64;
    let ny = n.y() as i64;
    let xi = x as i64;
    let yi = y as i64;
    assert(-MAX_ROWS <= tx * xi <= MAX_ROWS && -MAX_ROWS <= ty * xi <= MAX_ROWS && -MAX_ROWS
        <= nx * yi <= MAX_ROWS && -MAX_ROWS <= ny * yi <= MAX_ROWS) by (nonlinear_arith)
        requires
            -1 <= tx <= 1,
            -1 <= ty <= 1,
            -1 <= nx <= 1,
            -1 <= ny <= 1,
            0 <= xi <= MAX_ROWS,
            0 <= yi <= MAX_ROWS,
    ;
    let r = Pos {
        x: (center.x as i64 + tx * xi + nx * yi) as i32,
        y: (center.y as i64 + ty * xi + ny * yi) as i32,
    };
    assert(r == sextant_pos(center, i as int, x as int, y as int));
    r
}

/// Scans row `y` of sextant `i` between the slopes `from` and `end`, and the rows
/// beyond it that stay in view, appending each revealed cell to `revealed`.
fn scan<F: Fn(Pos) -> bool>(
    center: Pos,
    i: usize,
    y: u64,
    from: Slope,
    end: Slope,
    transparent: &F,
    revealed: &mut Vec<Pos>,
)
    requires
        center_ok(center),
        i < 6,
        1 <= y <= MAX_ROWS,
        from.ok(),
        end.ok(),
        forall|p: Pos| #[trigger] transparent.requires((p,)),
        deterministic(*transparent),
    ensures
        final(revealed)@ == old(revealed)@ + row_reveals(center, *transparent, i as int, y as int, from, end),
    decreases MAX_ROWS - y, 2int, 0int,
{
    let mut start = from;
    let mut fov_exists = false;
    proof {
        lemma_small_product(y as int, start.num as int);
        lemma_small_product(y as int, end.num as int);
    }
    let x_min = round_high(y * start.num, start.den);
    let x_max = round_low(y * end.num, end.den);
    proof {
        assert(y * end.num <= y * end.den) by (nonlinear_arith)
            requires
                end.num <= end.den,
        ;
        if x_max > y {
            assert(2 * end.den * x_max >= 2 * (y * end.den) + 2 * end.den) by (nonlinear_arith)
                requires
                    x_max >= y + 1,
                    end.den >= 1,
            ;
        }
    }
    let mut x = x_min;
    while x <= x_max
        invariant
            center_ok(center),
            i < 6,
            1 <= y <= MAX_ROWS,
            start.ok(),
            end.ok(),
            x_max <= y,
            x_max == round_low_spec(y * end.num, end.den as int),
            forall|p: Pos| #[trigger] transparent.requires((p,)),
            deterministic(*transparent),
            fov_exists ==> x >= 1,
            old(revealed)@ + row_reveals(center, *transparent, i as int, y as int, from, end)
                == revealed@ + scan_from(
                center,
                *transparent,
                i as int,
                y as int,
                x as int,
                x_max as int,
                start,
                end,
                fov_exists,
            ),
        decreases x_max + 1 - x,
    {
        let pos = transform(center, i, x, y);
        proof {
            lemma_small_product(x as int, start.den as int);
            lemma_small_product(x as int, end.den as int);
            lemma_small_product(y as int, start.num as int);
            lemma_small_product(y as int, end.num as int);
            lemma_small_product(start.num as int, 2 * y);
            lemma_small_product(2 * x + 1, end.den as int);
            lemma_small_product(end.num as int, 2 * y);
        }
        let ghost rest_before = scan_from(
            center,
            *transparent,
            i as int,
            y as int,
            x as int,
            x_max as int,
            start,
            end,
            fov_exists,
        );
        let ghost seen = revealed@;
        let clear = transparent(pos);
        proof {
            assert(clear == seen_clear(*transparent, pos));
        }
        if clear {
            if x * start.den >= y * start.num && x * end.den <= y * end.num {
                revealed.push(pos);
                fov_exists = true;
                proof {
                    assert(revealed@ + scan_from(center, *transparent, i as int, y as int, x + 1, x_max as int, start, end, true)
                        =~= seen + rest_before);
                }
            }
        } else {
            let ghost open = fov_exists;
            let ghost before_slope = Slope { num: (2 * x - 1) as u64, den: (2 * y) as u64 };
            if fov_exists {
                proof {
                    lemma_small_product(2 * x - 1, start.den as int);
                }
                let before = Slope { num: 2 * x - 1, den: 2 * y };
                if start.num * before.den < before.num * start.den && y < MAX_ROWS {
                    scan(center, i, y + 1, start, before, transparent, revealed);
                }
            }
            let ghost deeper = if open && below(start, before_slope) && y < MAX_ROWS {
                row_reveals(center, *transparent, i as int, y + 1, start, before_slope)
            } else {
                Seq::empty()
            };
            assert(revealed@ == seen + deeper);
            revealed.push(pos);
            fov_exists = false;
            let past = Slope { num: 2 * x + 1, den: 2 * y };
            if past.num * end.den >= end.num * past.den {
                proof {
                    assert(revealed@ =~= seen + rest_before);
                }
                return;
            }
            assert(past.num < past.den) by (nonlinear_arith)
                requires
                    past.num * end.den < end.num * past.den,
                    end.num <= end.den,
                    end.den >= 1,
                    past.den >= 1,
            ;
            proof {
                assert(revealed@ + scan_from(center, *transparent, i as int, y as int, x + 1, x_max as int, past, end, false)
                    =~= seen + rest_before);
            }
            start = past;
        }
        x += 1;
    }
    proof {
        lemma_small_product(start.num as int, end.den as int);
        lemma_small_product(end.num as int, start.den as int);
    }
    if fov_exists && start.num * end.den < end.num * start.den && y < MAX_ROWS {
        scan(center, i, y + 1, start, end, transparent, revealed);
    } else {
        proof {
            assert(revealed@ =~= revealed@ + Seq::<Pos>::empty());
        }
    }
}

/// The positions visible from `center`, in the order the scan reveals them.
///
/// Each sextant is swept row by row; an opaque cell in sight is revealed and
/// narrows the slopes still in view behind it. A cell may be revealed more than
/// once. The scan stops `MAX_ROWS` rows out.
///
/// `transparent` must answer the same on equal positions. The result is exactly
/// the observer's own cell, then `fov_reveals(center, transparent, 6)`: the cells
/// of the six sextant scans, one after the other.
pub fn fov<F: Fn(Pos) -> bool>(center: Pos, transparent: &F) -> (r: Vec<Pos>)
    requires
        center_ok(center),
        forall|p: Pos| #[trigger] transparent.requires((p,)),
        deterministic(*transparent),
    ensures
        r@ == seq![center] + fov_reveals(center, *transparent, 6),
{
    let mut revealed: Vec<Pos> = Vec::new();
    revealed.push(center);
    let mut i: usize = 0;
    while i < 6
        invariant
            center_ok(center),
            forall|p: Pos| #[trigger] transparent.requires((p,)),
            deterministic(*transparent),
            i <= 6,
            revealed@ == seq![center] + fov_reveals(center, *transparent, i as int),
        decreases 6 - i,
    {
        scan(center, i, 1, Slope { num: 0, den: 1 }, Slope { num: 1, den: 1 }, transparent, &mut revealed);
        proof {
            assert(revealed@ =~= seq![center] + fov_reveals(center, *transparent, i + 1));
        }
        i += 1;
    }
    revealed
}

} // verus!

use vstd::prelude::*;
use rayon::iter::{IntoParallelRefIterator, ParallelIterator};
use crate::rect::{bounds_view, RectView, Rectangle};
use vstd::arithmetic::div_mod::{lemma_fundamental_div_mod, lemma_fundamental_div_mod_converse};
use vstd::arithmetic::mul::lemma_mul_inequality;

verus! {

/// The carpet moved so that its own minimum corner sits at `(x, y)`.
pub open spec fn placed_at(carpet: RectView, x: int, y: int) -> RectView {
    carpet.translate(x - carpet.min_x, y - carpet.min_y)
}

/// Some obstacle overlaps `r` with positive area.
pub open spec fn hits_any(r: RectView, obstacles: Seq<RectView>) -> bool {
    exists|k: int| 0 <= k < obstacles.len() && r.intersects(#[trigger] obstacles[k])
}

/// The carpet anchored at `(x, y)` lies on the sheet and overlaps no obstacle.
pub open spec fn fits_at(
    carpet: RectView,
    obstacles: Seq<RectView>,
    width: int,
    height: int,
    x: int,
    y: int,
) -> bool {
    let r = placed_at(carpet, x, y);
    r.within_sheet(width, height) && !hits_any(r, obstacles)
}

pub open spec fn rect_views(rs: Seq<Rectangle>) -> Seq<RectView> {
    rs.map_values(|r: Rectangle| r@)
}

pub open spec fn bounds_views(bs: Seq<(i64, i64, i64, i64)>) -> Seq<RectView> {
    bs.map_values(|b: (i64, i64, i64, i64)| bounds_view(b))
}

/// The verdict for each position, in the positions' order.
pub open spec fn batch_verdicts(
    carpet: RectView,
    positions: Seq<(i64, i64)>,
    obstacles: Seq<RectView>,
    width: int,
    height: int,
) -> Seq<bool> {
    Seq::new(
        positions.len(),
        |k: int| fits_at(carpet, obstacles, width, height, positions[k].0 as int, positions[k].1 as int),
    )
}

/// Turns `(min_x, min_y, max_x, max_y)` tuples into rectangles, in order.
pub fn rects_from_bounds(bounds: &Vec<(i64, i64, i64, i64)>) -> (r: Vec<Rectangle>)
    ensures
        rect_views(r@) == bounds_views(bounds@),
{
    let mut r: Vec<Rectangle> = Vec::new();
    let mut k: usize = 0;
    while k < bounds.len()
        invariant
            k <= bounds@.len(),
            r@.len() == k,
            forall|i: int| 0 <= i < k ==> #[trigger] r@[i]@ == bounds_view(bounds@[i]),
        decreases bounds@.len() - k,
    {
        r.push(Rectangle::from_bounds(bounds[k]));
        k += 1;
    }
    assert(rect_views(r@) =~= bounds_views(bounds@));
    r
}

/// The single-position test: the carpet anchored at `(x, y)` is inside the
/// sheet and overlaps none of the obstacles.
pub fn position_fits(
    carpet: &Rectangle,
    x: i64,
    y: i64,
    obstacles: &Vec<Rectangle>,
    width: i64,
    height: i64,
) -> (r: bool)
    ensures
        r == fits_at(carpet@, rect_views(obstacles@), width as int, height as int, x as int, y as int),
{
    let ghost placed = placed_at(carpet@, x as int, y as int);
    let lo_x: i128 = x as i128;
    let lo_y: i128 = y as i128;
    let hi_x: i128 = x as i128 + (carpet.max_x as i128 - carpet.min_x as i128);
    let hi_y: i128 = y as i128 + (carpet.max_y as i128 - carpet.min_y as i128);
    assert(placed == RectView { min_x: lo_x as int, min_y: lo_y as int, max_x: hi_x as int, max_y: hi_y as int });
    if lo_x < 0 || lo_y < 0 || hi_x > width as i128 || hi_y > height as i128 {
        return false;
    }
    let ghost views = rect_views(obstacles@);
    let mut k: usize = 0;
    while k < obstacles.len()
        invariant
            k <= obstacles@.len(),
            views == rect_views(obstacles@),
            placed == placed_at(carpet@, x as int, y as int),
            placed == (RectView { min_x: lo_x as int, min_y: lo_y as int, max_x: hi_x as int, max_y: hi_y as int }),
            forall|i: int| 0 <= i < k ==> !placed.intersects(#[trigger] views[i]),
        decreases obstacles@.len() - k,
    {
        let o = &obstacles[k];
        if !(hi_x <= o.min_x as i128 || o.max_x as i128 <= lo_x || hi_y <= o.min_y as i128
            || o.max_y as i128 <= lo_y) {
            assert(views[k as int] == obstacles@[k as int]@);
            assert(placed.intersects(views[k as int]));
            return false;
        }
        k += 1;
    }
    true
}

/// Relies on rayon's indexed parallel `map` followed by `collect` into a `Vec`:
/// the result has one entry per position, in the positions' order, each being
/// what `position_fits` returns for it.
#[verifier::external_body]
fn par_position_fits(
    carpet: &Rectangle,
    positions: &Vec<(i64, i64)>,
    obstacles: &Vec<Rectangle>,
    width: i64,
    height: i64,
) -> (r: Vec<bool>)
    ensures
        r@.len() == positions@.len(),
        forall|k: int|
            0 <= k < positions@.len() ==> #[trigger] r@[k] == fits_at(
                carpet@,
                rect_views(obstacles@),
                width as int,
                height as int,
                positions@[k].0 as int,
                positions@[k].1 as int,
            ),
{
    positions.par_iter().map(|p| position_fits(carpet, p.0, p.1, obstacles, width, height)).collect()
}

/// Tests every position independently; `r[k]` answers for `positions[k]`.
pub fn batch_collision_check(
    carpet_bounds: (i64, i64, i64, i64),
    positions: Vec<(i64, i64)>,
    placed_bounds: Vec<(i64, i64, i64, i64)>,
    sheet_width: i64,
    sheet_height: i64,
) -> (r: Vec<bool>)
    ensures
        r@ == batch_verdicts(
            bounds_view(carpet_bounds),
            positions@,
            bounds_views(placed_bounds@),
            sheet_width as int,
            sheet_height as int,
        ),
{
    let carpet = Rectangle::from_bounds(carpet_bounds);
    let obstacles = rects_from_bounds(&placed_bounds);
    let r = par_position_fits(&carpet, &positions, &obstacles, sheet_width, sheet_height);
    assert(r@ =~= batch_verdicts(
        bounds_view(carpet_bounds),
        positions@,
        bounds_views(placed_bounds@),
        sheet_width as int,
        sheet_height as int,
    ));
    r
}

/// Each verdict of a batch is the verdict of the single-position test on
/// that position, and there is exactly one verdict per position.
pub proof fn lemma_batch_agrees_with_single(
    carpet: RectView,
    positions: Seq<(i64, i64)>,
    obstacles: Seq<RectView>,
    width: int,
    height: int,
)
    ensures
        batch_verdicts(carpet, positions, obstacles, width, height).len() == positions.len(),
        forall|k: int|
            0 <= k < positions.len() ==> #[trigger] batch_verdicts(carpet, positions, obstacles, width, height)[k]
                == fits_at(carpet, obstacles, width, height, positions[k].0 as int, positions[k].1 as int),
{
}

/// Lattice step along one axis: the free extent (sheet extent minus carpet
/// extent) split into `g - 1` equal gaps, rounded down; `0` when `g <= 1`.
pub open spec fn grid_step(extent: int, carpet_extent: int, g: int) -> int {
    if g > 1 {
        (extent - carpet_extent) / (g - 1)
    } else {
        0
    }
}

/// The `k`-th candidate anchor in row-major order: `(i * x_step, j * y_step)`
/// with `i = k / g` (outer) and `j = k % g` (inner).
pub open spec fn grid_candidate(carpet: RectView, width: int, height: int, g: int, k: int) -> (int, int) {
    (
        (k / g) * grid_step(width, carpet.max_x - carpet.min_x, g),
        (k % g) * grid_step(height, carpet.max_y - carpet.min_y, g),
    )
}

pub open spec fn candidate_fits(
    carpet: RectView,
    obstacles: Seq<RectView>,
    width: int,
    height: int,
    g: int,
    k: int,
) -> bool {
    let c = grid_candidate(carpet, width, height, g, k);
    fits_at(carpet, obstacles, width, height, c.0, c.1)
}

/// The first fitting candidate among indices `k .. g * g`.
pub open spec fn first_fit_from(
    carpet: RectView,
    obstacles: Seq<RectView>,
    width: int,
    height: int,
    g: int,
    k: int,
) -> Option<(int, int)>
    decreases g * g - k,
{
    if k < 0 || k >= g * g {
        None
    } else if candidate_fits(carpet, obstacles, width, height, g, k) {
        Some(grid_candidate(carpet, width, height, g, k))
    } else {
        first_fit_from(carpet, obstacles, width, height, g, k + 1)
    }
}

/// What the grid search returns: the first fitting candidate of the
/// `g x g` lattice in row-major order, if any.
pub open spec fn grid_search_result(
    carpet: RectView,
    obstacles: Seq<RectView>,
    width: int,
    height: int,
    g: int,
) -> Option<(int, int)> {
    first_fit_from(carpet, obstacles, width, height, g, 0)
}

pub open spec fn position_view(p: Option<(i64, i64)>) -> Option<(int, int)> {
    match p {
        Some(q) => Some((q.0 as int, q.1 as int)),
        None => None,
    }
}

/// The anchors of the `g x g` lattice in row-major order.
pub fn grid_candidates(carpet: &Rectangle, width: i64, height: i64, g: usize) -> (r: Vec<(i64, i64)>)
    requires
        carpet@.well_formed(),
        carpet@.max_x - carpet@.min_x <= width,
        carpet@.max_y - carpet@.min_y <= height,
        g * g <= usize::MAX,
    ensures
        r@.len() == g * g,
        forall|k: int|
            0 <= k < g * g ==> (#[trigger] r@[k]).0 as int == grid_candidate(carpet@, width as int, height as int, g as int, k).0
                && r@[k].1 as int == grid_candidate(carpet@, width as int, height as int, g as int, k).1,
{
    let ghost gi = g as int;
    let free_x: u128 = (width as i128 - (carpet.max_x as i128 - carpet.min_x as i128)) as u128;
    let free_y: u128 = (height as i128 - (carpet.max_y as i128 - carpet.min_y as i128)) as u128;
    let step_x: u128 = if g > 1 { free_x / (g - 1) as u128 } else { 0 };
    let step_y: u128 = if g > 1 { free_y / (g - 1) as u128 } else { 0 };
    assert(step_x == grid_step(width as int, carpet@.max_x - carpet@.min_x, gi));
    assert(step_y == grid_step(height as int, carpet@.max_y - carpet@.min_y, gi));
    assert(g > 1 ==> (g - 1) * step_x <= free_x && (g - 1) * step_y <= free_y) by {
        if g > 1 {
            lemma_fundamental_div_mod(free_x as int, (g - 1) as int);
            lemma_fundamental_div_mod(free_y as int, (g - 1) as int);
        }
    }
    let mut r: Vec<(i64, i64)> = Vec::new();
    let mut i: usize = 0;
    while i < g
        invariant
            i <= g,
            gi == g,
            g * g <= usize::MAX,
            r@.len() == i * g,
            step_x == grid_step(width as int, carpet@.max_x - carpet@.min_x, gi),
            step_y == grid_step(height as int, carpet@.max_y - carpet@.min_y, gi),
            g > 1 ==> (g - 1) * step_x <= free_x && (g - 1) * step_y <= free_y,
            free_x <= width,
            free_y <= height,
            forall|k: int|
                0 <= k < r@.len() ==> (#[trigger] r@[k]).0 as int == grid_candidate(carpet@, width as int, height as int, gi, k).0
                    && r@[k].1 as int == grid_candidate(carpet@, width as int, height as int, gi, k).1,
        decreases g - i,
    {
        assert(i * step_x <= free_x) by {
            if g > 1 {
                lemma_mul_inequality(i as int, (g - 1) as int, step_x as int);
            }
        }
        let x: i64 = (i as u128 * step_x) as i64;
        let mut j: usize = 0;
        while j < g
            invariant
                i < g,
                j <= g,
                gi == g,
                g * g <= usize::MAX,
                r@.len() == i * g + j,
                x as int == i * step_x,
                step_y == grid_step(height as int, carpet@.max_y - carpet@.min_y, gi),
                step_x == grid_step(width as int, carpet@.max_x - carpet@.min_x, gi),
                g > 1 ==> (g - 1) * step_y <= free_y,
                free_y <= height,
                forall|k: int|
                    0 <= k < r@.len() ==> (#[trigger] r@[k]).0 as int == grid_candidate(carpet@, width as int, height as int, gi, k).0
                        && r@[k].1 as int == grid_candidate(carpet@, width as int, height as int, gi, k).1,
            decreases g - j,
        {
            assert(j * step_y <= free_y) by {
                if g > 1 {
                    lemma_mul_inequality(j as int, (g - 1) as int, step_y as int);
                }
            }
            let y: i64 = (j as u128 * step_y) as i64;
            let ghost k = i * g + j;
            proof {
                lemma_fundamental_div_mod_converse(k, gi, i as int, j as int);
                assert(i * g + j < g * g) by (nonlinear_arith)
                    requires i < g, j < g;
            }
            r.push((x, y));
            j += 1;
        }
        assert(i * g + g == (i + 1) * g) by (nonlinear_arith);
        i += 1;
    }
    r
}

/// With a carpet wider or taller than the sheet no candidate fits.
proof fn lemma_oversized_carpet_never_fits(
    carpet: RectView,
    obstacles: Seq<RectView>,
    width: int,
    height: int,
    g: int,
    k: int,
)
    requires
        carpet.max_x - carpet.min_x > width || carpet.max_y - carpet.min_y > height,
    ensures
        first_fit_from(carpet, obstacles, width, height, g, k) is None,
    decreases g * g - k,
{
    if 0 <= k < g * g {
        lemma_oversized_carpet_never_fits(carpet, obstacles, width, height, g, k + 1);
    }
}

/// Finds the first anchor, in row-major order over the `grid_size x grid_size`
/// lattice, at which the carpet lies on the sheet and overlaps no obstacle.
pub fn fast_grid_search(
    carpet_bounds: (i64, i64, i64, i64),
    placed_bounds: Vec<(i64, i64, i64, i64)>,
    sheet_width: i64,
    sheet_height: i64,
    grid_size: usize,
) -> (r: Option<(i64, i64)>)
    requires
        bounds_view(carpet_bounds).well_formed(),
        grid_size * grid_size <= usize::MAX,
    ensures
        position_view(r) == grid_search_result(
            bounds_view(carpet_bounds),
            bounds_views(placed_bounds@),
            sheet_width as int,
            sheet_height as int,
            grid_size as int,
        ),
{
    let ghost views = bounds_views(placed_bounds@);
    let ghost w = sheet_width as int;
    let ghost h = sheet_height as int;
    let ghost g = grid_size as int;
    let carpet = Rectangle::from_bounds(carpet_bounds);
    let obstacles = rects_from_bounds(&placed_bounds);
    if carpet.max_x as i128 - carpet.min_x as i128 > sheet_width as i128
        || carpet.max_y as i128 - carpet.min_y as i128 > sheet_height as i128 {
        proof {
            lemma_oversized_carpet_never_fits(carpet@, views, w, h, g, 0);
        }
        return None;
    }
    let positions = grid_candidates(&carpet, sheet_width, sheet_height, grid_size);
    let verdicts = par_position_fits(&carpet, &positions, &obstacles, sheet_width, sheet_height);
    let mut k: usize = 0;
    while k < verdicts.len()
        invariant
            k <= verdicts@.len(),
            views == bounds_views(placed_bounds@),
            w == sheet_width as int,
            h == sheet_height as int,
            g == grid_size as int,
            verdicts@.len() == positions@.len(),
            positions@.len() == g * g,
            rect_views(obstacles@) == views,
            carpet@ == bounds_view(carpet_bounds),
            forall|i: int|
                0 <= i < positions@.len() ==> #[trigger] verdicts@[i] == fits_at(
                    carpet@,
                    views,
                    w,
                    h,
                    positions@[i].0 as int,
                    positions@[i].1 as int,
                ),
            forall|i: int|
                0 <= i < g * g ==> (#[trigger] positions@[i]).0 as int == grid_candidate(carpet@, w, h, g, i).0
                    && positions@[i].1 as int == grid_candidate(carpet@, w, h, g, i).1,
            first_fit_from(carpet@, views, w, h, g, 0) == first_fit_from(carpet@, views, w, h, g, k as int),
        decreases verdicts@.len() - k,
    {
        assert(verdicts@[k as int] == candidate_fits(carpet@, views, w, h, g, k as int));
        if verdicts[k] {
            return Some(positions[k]);
        }
        k += 1;
    }
    None
}

/// A one-cell grid has the single candidate `(0, 0)`: the search returns it
/// exactly when the carpet anchored at the origin fits, and nothing otherwise.
pub proof fn lemma_single_cell_grid(carpet: RectView, obstacles: Seq<RectView>, width: int, height: int)
    ensures
        grid_search_result(carpet, obstacles, width, height, 1) == (if fits_at(carpet, obstacles, width, height, 0, 0) {
            Some((0int, 0int))
        } else {
            None::<(int, int)>
        }),
{
    assert(grid_candidate(carpet, width, height, 1, 0) == (0int, 0int));
    assert(first_fit_from(carpet, obstacles, width, height, 1, 1) is None);
}

proof fn lemma_first_fit_from(
    carpet: RectView,
    obstacles: Seq<RectView>,
    width: int,
    height: int,
    g: int,
    k: int,
)
    requires
        0 <= k <= g * g,
    ensures
        first_fit_from(carpet, obstacles, width, height, g, k) is None <==> forall|i: int|
            k <= i < g * g ==> !#[trigger] candidate_fits(carpet, obstacles, width, height, g, i),
        forall|p: (int, int)|
            first_fit_from(carpet, obstacles, width, height, g, k) == Some(p) ==> exists|i: int|
                k <= i < g * g && #[trigger] candidate_fits(carpet, obstacles, width, height, g, i) && p
                    == grid_candidate(carpet, width, height, g, i) && forall|e: int|
                    k <= e < i ==> !#[trigger] candidate_fits(carpet, obstacles, width, height, g, e),
    decreases g * g - k,
{
    if k < g * g {
        lemma_first_fit_from(carpet, obstacles, width, height, g, k + 1);
        if candidate_fits(carpet, obstacles, width, height, g, k) {
            assert forall|p: (int, int)|
                first_fit_from(carpet, obstacles, width, height, g, k) == Some(p) implies exists|i: int|
                    k <= i < g * g && #[trigger] candidate_fits(carpet, obstacles, width, height, g, i) && p
                        == grid_candidate(carpet, width, height, g, i) && forall|e: int|
                        k <= e < i ==> !#[trigger] candidate_fits(carpet, obstacles, width, height, g, e) by {
                assert(k <= k < g * g);
            }
        }
    }
}

/// The search examines exactly the `g * g` lattice candidates: it finds
/// nothing iff none of them fits, and otherwise returns the fitting candidate
/// of least row-major index.
pub proof fn lemma_grid_search_examines_all_candidates(
    carpet: RectView,
    obstacles: Seq<RectView>,
    width: int,
    height: int,
    g: int,
)
    ensures
        grid_search_result(carpet, obstacles, width, height, g) is None <==> forall|i: int|
            0 <= i < g * g ==> !#[trigger] candidate_fits(carpet, obstacles, width, height, g, i),
        forall|p: (int, int)|
            grid_search_result(carpet, obstacles, width, height, g) == Some(p) ==> exists|i: int|
                0 <= i < g * g && #[trigger] candidate_fits(carpet, obstacles, width, height, g, i) && p
                    == grid_candidate(carpet, width, height, g, i) && forall|e: int|
                    0 <= e < i ==> !#[trigger] candidate_fits(carpet, obstacles, width, height, g, e),
{
    assert(0 <= g * g) by (nonlinear_arith);
    lemma_first_fit_from(carpet, obstacles, width, height, g, 0);
}

} // verus!

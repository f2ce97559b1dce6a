//! A grid of equally sized cells whose shape is grown one row or column at
//! a time toward a target aspect ratio, filled in snake order.
use vstd::prelude::*;
use vstd::arithmetic::div_mod::{
    lemma_div_is_ordered_by_denominator, lemma_div_pos_is_pos, lemma_fundamental_div_mod_converse,
};
use vstd::string::*;
use crate::geometry::{
    clamp_i32, clamp_i32_wide, div_trunc, div_trunc_wide, fits_extent, lemma_mul_bound,
    GeneratedLayout, Rect, Rectangle,
};
use crate::command::{chars_of, first_word, word_bounds};

verus! {

#[derive(Clone, Copy, Debug, PartialEq, Eq, Structural)]
#[non_exhaustive]
pub struct Config {
    /// The aspect ratio to approximate with every grid extension is
    /// `target_aspect_width / target_aspect_height`.
    pub target_aspect_width: u16,
    pub target_aspect_height: u16,
    /// Padding around the edge of the layout area, in pixels.
    pub outer_padding: i32,
    /// Padding between views, in pixels.
    pub view_padding: i32,
}

impl Default for Config {
    fn default() -> (c: Self)
        ensures
            c.target_aspect_width == 16,
            c.target_aspect_height == 9,
            c.outer_padding == 6,
            c.view_padding == 6,
    {
        Config { target_aspect_width: 16, target_aspect_height: 9, outer_padding: 6, view_padding: 6 }
    }
}

/// Why a command or a layout request failed.
#[derive(Debug, PartialEq, Eq)]
#[non_exhaustive]
pub enum Error {
    UnknownCommand(String),
    MissingArgument(&'static str),
    InvalidArgument(&'static str),
    /// The cells of the grid have a negative extent or one that does not
    /// fit the rectangle fields.
    DegenerateArea,
}

/// A grid shape.
#[derive(Clone, Copy, Debug, PartialEq, Eq, Structural)]
pub struct Grid {
    pub columns: u32,
    pub rows: u32,
}

impl Grid {
    pub open spec fn cells(self) -> int {
        self.columns * self.rows
    }

    pub open spec fn wider(self) -> Grid {
        Grid { columns: (self.columns + 1) as u32, rows: self.rows }
    }

    pub open spec fn taller(self) -> Grid {
        Grid { columns: self.columns, rows: (self.rows + 1) as u32 }
    }
}

/// Extent of one of `n` cells along an output dimension `d`.
pub open spec fn cell_extent(c: Config, d: int, n: int) -> int {
    div_trunc(d - 2 * c.outer_padding + c.view_padding, n) - c.view_padding
}

/// Start of cell `k` of `n` along an output dimension `d`.
pub open spec fn cell_origin(c: Config, d: int, n: int, k: int) -> int {
    clamp_i32(
        div_trunc(c.outer_padding * n + (d - 2 * c.outer_padding + c.view_padding) * k, n),
    )
}

/// The cell aspect of `g` over the target aspect is `a / b`, where
/// `(a, b)` is this pair.
pub open spec fn aspect_terms(c: Config, w: int, h: int, g: Grid) -> (int, int) {
    (
        cell_extent(c, w, g.columns as int) * c.target_aspect_height,
        cell_extent(c, h, g.rows as int) * c.target_aspect_width,
    )
}

pub open spec fn max(a: int, b: int) -> int {
    if a >= b { a } else { b }
}

pub open spec fn min(a: int, b: int) -> int {
    if a <= b { a } else { b }
}

/// Whether the cells of `g1` come strictly closer to the target aspect
/// than those of `g2`: the score `max(a / b, b / a)` is lower. A cell with
/// an extent that is not positive scores worst.
pub open spec fn closer_to_target(c: Config, w: int, h: int, g1: Grid, g2: Grid) -> bool {
    let (a1, b1) = aspect_terms(c, w, h, g1);
    let (a2, b2) = aspect_terms(c, w, h, g2);
    if a1 <= 0 || b1 <= 0 {
        false
    } else if a2 <= 0 || b2 <= 0 {
        true
    } else {
        max(a1, b1) * min(a2, b2) < max(a2, b2) * min(a1, b1)
    }
}

/// One step of the search: one more column, unless one more row comes
/// strictly closer to the target.
pub open spec fn grow(c: Config, w: int, h: int, g: Grid) -> Grid {
    if closer_to_target(c, w, h, g.taller(), g.wider()) {
        g.taller()
    } else {
        g.wider()
    }
}

/// Grows `g` until it holds `n` cells; `fuel` bounds the steps.
pub open spec fn grow_until(c: Config, w: int, h: int, n: int, g: Grid, fuel: nat) -> Grid
    decreases fuel,
{
    if g.cells() >= n || fuel == 0 {
        g
    } else {
        grow_until(c, w, h, n, grow(c, w, h, g), (fuel - 1) as nat)
    }
}

/// The grid for `n` views, grown from a single cell. `n` steps always
/// suffice: each step adds one to `columns + rows`, which is at most `n`
/// while fewer than `n` cells are held.
pub open spec fn grid_for(c: Config, w: int, h: int, n: int) -> Grid {
    grow_until(c, w, h, n, Grid { columns: 1, rows: 1 }, n as nat)
}

/// The column of view `i` in a grid of `columns` columns: left to right on
/// even rows, right to left on odd ones.
pub open spec fn snake_column(columns: int, i: int) -> int {
    let base = i % columns;
    if (i / columns) % 2 == 0 {
        base
    } else {
        columns - 1 - base
    }
}

/// View `i` in the grid `g`.
pub open spec fn grid_view(c: Config, w: int, h: int, g: Grid, i: int) -> Rect {
    Rect {
        x: cell_origin(c, w, g.columns as int, snake_column(g.columns as int, i)),
        y: cell_origin(c, h, g.rows as int, i / (g.columns as int)),
        width: cell_extent(c, w, g.columns as int),
        height: cell_extent(c, h, g.rows as int),
    }
}

pub open spec fn digit_char(d: int) -> char {
    if d == 0 {
        '0'
    } else if d == 1 {
        '1'
    } else if d == 2 {
        '2'
    } else if d == 3 {
        '3'
    } else if d == 4 {
        '4'
    } else if d == 5 {
        '5'
    } else if d == 6 {
        '6'
    } else if d == 7 {
        '7'
    } else if d == 8 {
        '8'
    } else {
        '9'
    }
}

/// Decimal digits of `n`, without leading zeros.
pub open spec fn decimal(n: nat) -> Seq<char>
    decreases n,
{
    if n < 10 {
        seq![digit_char(n as int)]
    } else {
        decimal(n / 10) + seq![digit_char((n % 10) as int)]
    }
}

/// The layout name for the grid `g`: rows first.
pub open spec fn grid_name(g: Grid) -> Seq<char> {
    "uniform-grid: "@ + decimal(g.rows as nat) + "x"@ + decimal(g.columns as nat)
}

/// The last step of the search that ended at `g`: `g` took one column or
/// one row more than a grid too small for `n` views, and the other choice
/// would not have come strictly closer to the target.
pub open spec fn grown_greedily(c: Config, w: int, h: int, n: int, g: Grid) -> bool {
    ||| (g.columns >= 2 && (g.columns - 1) * g.rows < n && !closer_to_target(
        c,
        w,
        h,
        Grid { columns: (g.columns - 1) as u32, rows: (g.rows + 1) as u32 },
        g,
    ))
    ||| (g.rows >= 2 && g.columns * (g.rows - 1) < n && closer_to_target(
        c,
        w,
        h,
        g,
        Grid { columns: (g.columns + 1) as u32, rows: (g.rows - 1) as u32 },
    ))
}

proof fn lemma_grow_until(c: Config, w: int, h: int, n: int, g: Grid, fuel: nat)
    requires
        n <= u32::MAX,
        g.columns >= 1 && g.rows >= 1,
        fuel + g.columns + g.rows == n + 2,
    ensures
        grow_until(c, w, h, n, g, fuel).cells() >= n,
        grow_until(c, w, h, n, g, fuel).columns >= 1,
        grow_until(c, w, h, n, g, fuel).rows >= 1,
        g.cells() < n ==> grown_greedily(c, w, h, n, grow_until(c, w, h, n, g, fuel)),
    decreases fuel,
{
    if g.cells() < n {
        assert(g.columns + g.rows <= g.columns * g.rows + 1) by (nonlinear_arith)
            requires
                g.columns >= 1 && g.rows >= 1,
        ;
        let next = grow(c, w, h, g);
        lemma_grow_until(c, w, h, n, next, (fuel - 1) as nat);
        if next.cells() >= n {
            if next == g.wider() {
                assert(Grid { columns: (next.columns - 1) as u32, rows: (next.rows + 1) as u32 }
                    == g.taller());
            } else {
                assert(Grid { columns: (next.columns + 1) as u32, rows: (next.rows - 1) as u32 }
                    == g.wider());
            }
        }
    }
}

/// The grid holds every view; and for two views or more it was reached by a
/// greedy step from a grid that held too few.
pub proof fn grid_holds_views_greedily(c: Config, w: int, h: int, n: int)
    requires
        0 <= n <= u32::MAX,
    ensures
        grid_for(c, w, h, n).cells() >= n,
        grid_for(c, w, h, n).columns >= 1 && grid_for(c, w, h, n).rows >= 1,
        n >= 2 ==> grown_greedily(c, w, h, n, grid_for(c, w, h, n)),
{
    lemma_grow_until(c, w, h, n, Grid { columns: 1, rows: 1 }, n as nat);
}

/// Views fill the grid row by row, left to right on even rows and right to
/// left on odd ones, so that successive views stay side by side.
pub proof fn snake_order(columns: int, row: int, j: int)
    requires
        columns >= 1,
        row >= 0,
        0 <= j < columns,
    ensures
        (row * columns + j) / columns == row,
        row % 2 == 0 ==> snake_column(columns, row * columns + j) == j,
        row % 2 == 1 ==> snake_column(columns, row * columns + j) == columns - 1 - j,
        0 <= snake_column(columns, row * columns + j) < columns,
{
    lemma_fundamental_div_mod_converse(row * columns + j, columns, row, j);
}

/// Where neither padding is negative and the cells of the grid for
/// `n` views are not narrower than nothing, they fit the rectangle fields,
/// so a layout of `n` views can be made.
pub proof fn sane_grid_fits(c: Config, w: int, h: int, n: int)
    requires
        0 <= c.outer_padding,
        0 <= c.view_padding,
        0 <= w <= u32::MAX,
        0 <= h <= u32::MAX,
        0 <= n <= u32::MAX,
        cell_extent(c, w, grid_for(c, w, h, n).columns as int) >= 0,
        cell_extent(c, h, grid_for(c, w, h, n).rows as int) >= 0,
    ensures
        fits_extent(cell_extent(c, w, grid_for(c, w, h, n).columns as int)),
        fits_extent(cell_extent(c, h, grid_for(c, w, h, n).rows as int)),
{
    let g = grid_for(c, w, h, n);
    lemma_grow_until(c, w, h, n, Grid { columns: 1, rows: 1 }, n as nat);
    lemma_extent_at_most(c, w, g.columns as int);
    lemma_extent_at_most(c, h, g.rows as int);
}

proof fn lemma_extent_at_most(c: Config, d: int, k: int)
    requires
        0 <= c.outer_padding,
        k >= 1,
        d >= 0,
        0 <= c.view_padding,
        cell_extent(c, d, k) >= 0,
    ensures
        cell_extent(c, d, k) <= d,
{
    let a = d - 2 * c.outer_padding + c.view_padding;
    if a >= 0 {
        lemma_div_is_ordered_by_denominator(a, 1, k);
        assert(a / 1 == a);
        assert(div_trunc(a, k) == a / k);
        assert(cell_extent(c, d, k) == a / k - c.view_padding);
    } else {
        lemma_div_pos_is_pos(-a, k);
        assert(div_trunc(a, k) == -((-a) / k));
        assert(cell_extent(c, d, k) <= -c.view_padding);
    }
}

/// Extent of one of `n` cells along `d`.
fn cell_extent_exec(c: &Config, d: u32, n: u32) -> (r: i128)
    requires
        n >= 1,
    ensures
        r == cell_extent(*c, d as int, n as int),
        -0x10_0000_0000 <= r <= 0x10_0000_0000,
{
    let s = d as i128 - 2 * c.outer_padding as i128 + c.view_padding as i128;
    div_trunc_wide(s, n as i128) - c.view_padding as i128
}

/// Start of cell `k` of `n` along `d`.
fn cell_origin_exec(c: &Config, d: u32, n: u32, k: u32) -> (r: i32)
    requires
        n >= 1,
    ensures
        r == cell_origin(*c, d as int, n as int, k as int),
{
    let s = d as i128 - 2 * c.outer_padding as i128 + c.view_padding as i128;
    proof {
        lemma_mul_bound(c.outer_padding as int, n as int, 0x8000_0000, 0x1_0000_0000);
        lemma_mul_bound(s as int, k as int, 0x10_0000_0000, 0x1_0000_0000);
    }
    let t = c.outer_padding as i128 * n as i128 + s * k as i128;
    clamp_i32_wide(div_trunc_wide(t, n as i128))
}

fn closer_exec(c: &Config, w: u32, h: u32, g1: Grid, g2: Grid) -> (r: bool)
    requires
        g1.columns >= 1 && g1.rows >= 1,
        g2.columns >= 1 && g2.rows >= 1,
    ensures
        r == closer_to_target(*c, w as int, h as int, g1, g2),
{
    let tw = c.target_aspect_width as i128;
    let th = c.target_aspect_height as i128;
    let e1w = cell_extent_exec(c, w, g1.columns);
    let e1h = cell_extent_exec(c, h, g1.rows);
    let e2w = cell_extent_exec(c, w, g2.columns);
    let e2h = cell_extent_exec(c, h, g2.rows);
    proof {
        lemma_mul_bound(e1w as int, th as int, 0x10_0000_0000, 0x1_0000);
        lemma_mul_bound(e1h as int, tw as int, 0x10_0000_0000, 0x1_0000);
        lemma_mul_bound(e2w as int, th as int, 0x10_0000_0000, 0x1_0000);
        lemma_mul_bound(e2h as int, tw as int, 0x10_0000_0000, 0x1_0000);
    }
    let a1 = e1w * th;
    let b1 = e1h * tw;
    let a2 = e2w * th;
    let b2 = e2h * tw;
    if a1 <= 0 || b1 <= 0 {
        false
    } else if a2 <= 0 || b2 <= 0 {
        true
    } else {
        let (hi1, lo1) = if a1 >= b1 { (a1, b1) } else { (b1, a1) };
        let (hi2, lo2) = if a2 >= b2 { (a2, b2) } else { (b2, a2) };
        proof {
            lemma_mul_bound(hi1 as int, lo2 as int, 0x10_0000_0000_0000, 0x10_0000_0000_0000);
            lemma_mul_bound(hi2 as int, lo1 as int, 0x10_0000_0000_0000, 0x10_0000_0000_0000);
        }
        hi1 * lo2 < hi2 * lo1
    }
}

fn digit_str(d: u32) -> (r: &'static str)
    requires
        d < 10,
    ensures
        r@ == seq![digit_char(d as int)],
{
    proof {
        reveal_strlit("0");
        reveal_strlit("1");
        reveal_strlit("2");
        reveal_strlit("3");
        reveal_strlit("4");
        reveal_strlit("5");
        reveal_strlit("6");
        reveal_strlit("7");
        reveal_strlit("8");
        reveal_strlit("9");
    }
    match d {
        0 => "0",
        1 => "1",
        2 => "2",
        3 => "3",
        4 => "4",
        5 => "5",
        6 => "6",
        7 => "7",
        8 => "8",
        _ => "9",
    }
}

/// Appends the decimal digits of `n` to `s`.
fn push_decimal(s: &mut String, n: u32)
    ensures
        final(s)@ == old(s)@ + decimal(n as nat),
    decreases n,
{
    if n < 10 {
        s.append(digit_str(n));
    } else {
        push_decimal(s, n / 10);
        s.append(digit_str(n % 10));
        assert(final(s)@ =~= old(s)@ + decimal(n as nat));
    }
}

fn grow_exec(c: &Config, w: u32, h: u32, g: Grid) -> (r: Grid)
    requires
        g.columns >= 1 && g.rows >= 1,
        g.columns < u32::MAX && g.rows < u32::MAX,
    ensures
        r == grow(*c, w as int, h as int, g),
{
    let wide = Grid { columns: g.columns + 1, rows: g.rows };
    let tall = Grid { columns: g.columns, rows: g.rows + 1 };
    assert(wide == g.wider() && tall == g.taller());
    if closer_exec(c, w, h, tall, wide) {
        tall
    } else {
        wide
    }
}

/// View `i` of the grid `g`, whose cells are `ew` by `eh`.
fn view_at(c: &Config, w: u32, h: u32, g: Grid, ew: u32, eh: u32, i: u32) -> (r: Rectangle)
    requires
        g.columns >= 1 && g.rows >= 1,
        ew == cell_extent(*c, w as int, g.columns as int),
        eh == cell_extent(*c, h as int, g.rows as int),
    ensures
        r.is(grid_view(*c, w as int, h as int, g, i as int)),
{
    let base = i % g.columns;
    let row = i / g.columns;
    let column = if row % 2 == 0 {
        base
    } else {
        g.columns - 1 - base
    };
    Rectangle {
        x: cell_origin_exec(c, w, g.columns, column),
        y: cell_origin_exec(c, h, g.rows, row),
        width: ew,
        height: eh,
    }
}

/// The uniform grid layout generator.
pub struct UniformGrid {
    config: Config,
}

impl UniformGrid {
    pub closed spec fn spec_config(&self) -> Config {
        self.config
    }

    pub fn new(config: Config) -> (r: Self)
        ensures
            r.spec_config() == config,
    {
        Self { config }
    }

    pub fn config(&self) -> (r: &Config)
        ensures
            *r == self.spec_config(),
    {
        &self.config
    }

    /// This layout takes no commands: each fails with `UnknownCommand` and
    /// its first word.
    pub fn user_cmd(&mut self, cmd: String, tags: Option<u32>, output: &str) -> (r: Result<
        (),
        Error,
    >)
        ensures
            *final(self) == *old(self),
            r matches Err(Error::UnknownCommand(t)) && t@ == first_word(cmd@),
    {
        let _ = (tags, output);
        let text = cmd.as_str();
        let chars = chars_of(text);
        let (a, b, _, _) = word_bounds(&chars);
        Err(Error::UnknownCommand(String::from_str(text.substring_char(a, b))))
    }

    /// The grid shape for `view_count` views: grown from one cell, a column
    /// or a row at a time, until it holds them all.
    pub fn grid_size(&self, view_count: u32, usable_width: u32, usable_height: u32) -> (g: Grid)
        ensures
            g == grid_for(self.spec_config(), usable_width as int, usable_height as int, view_count as int),
            g.columns >= 1 && g.rows >= 1,
    {
        let c = &self.config;
        let ghost (w, h, n) = (usable_width as int, usable_height as int, view_count as int);
        let mut g = Grid { columns: 1, rows: 1 };
        let mut cells: u64 = 1;
        while cells < view_count as u64
            invariant
                cells == g.cells(),
                w == usable_width && h == usable_height && n == view_count,
                *c == self.spec_config(),
                g.columns >= 1 && g.rows >= 1,
                g.columns + g.rows <= n + 2,
                grow_until(*c, w, h, n, g, (n + 2 - g.columns - g.rows) as nat) == grid_for(*c, w, h, n),
            decreases n + 2 - g.columns - g.rows,
        {
            assert(g.columns + g.rows <= g.columns * g.rows + 1) by (nonlinear_arith)
                requires
                    g.columns >= 1 && g.rows >= 1,
            ;
            let ghost before = g;
            g = grow_exec(c, usable_width, usable_height, g);
            assert(g.columns + g.rows == before.columns + before.rows + 1);
            proof {
                lemma_mul_bound(g.columns as int, g.rows as int, 0xFFFF_FFFF, 0xFFFF_FFFF);
            }
            cells = g.columns as u64 * g.rows as u64;
        }
        g
    }

    /// Places `view_count` views in the grid that `grid_size` gives, in
    /// snake order. Fails with `DegenerateArea` exactly where there is a
    /// view to place and the cells do not fit the rectangle fields.
    pub fn generate_layout(
        &mut self,
        view_count: u32,
        usable_width: u32,
        usable_height: u32,
        tags: u32,
        output: &str,
    ) -> (r: Result<GeneratedLayout, Error>)
        ensures
            *final(self) == *old(self),
            ({
                let c = old(self).spec_config();
                let (w, h) = (usable_width as int, usable_height as int);
                let g = grid_for(c, w, h, view_count as int);
                &&& r is Ok <==> (view_count == 0 || (fits_extent(
                    cell_extent(c, w, g.columns as int),
                ) && fits_extent(cell_extent(c, h, g.rows as int))))
                &&& r matches Err(e) ==> e is DegenerateArea
                &&& r matches Ok(l) ==> {
                    &&& l.layout_name@ == grid_name(g)
                    &&& l.views@.len() == view_count
                    &&& forall|i: int|
                        0 <= i < view_count ==> #[trigger] l.views@[i].is(grid_view(c, w, h, g, i))
                }
            }),
    {
        let g = self.grid_size(view_count, usable_width, usable_height);
        let c = &self.config;
        let ghost (w, h) = (usable_width as int, usable_height as int);
        let ew = cell_extent_exec(c, usable_width, g.columns);
        let eh = cell_extent_exec(c, usable_height, g.rows);
        let mut views: Vec<Rectangle> = Vec::new();
        if view_count > 0 {
            if ew < 0 || ew > u32::MAX as i128 || eh < 0 || eh > u32::MAX as i128 {
                return Err(Error::DegenerateArea);
            }
        }
        let mut i: u32 = 0;
        while i < view_count
            invariant
                *c == self.spec_config(),
                g == grid_for(*c, w, h, view_count as int),
                w == usable_width && h == usable_height,
                g.columns >= 1 && g.rows >= 1,
                ew == cell_extent(*c, w, g.columns as int),
                eh == cell_extent(*c, h, g.rows as int),
                view_count > 0 ==> fits_extent(ew as int) && fits_extent(eh as int),
                i <= view_count,
                views@.len() == i,
                forall|k: int| 0 <= k < i ==> #[trigger] views@[k].is(grid_view(*c, w, h, g, k)),
            decreases view_count - i,
        {
            let r = view_at(c, usable_width, usable_height, g, ew as u32, eh as u32, i);
            views.push(r);
            i = i + 1;
        }
        let mut name = String::from_str("uniform-grid: ");
        push_decimal(&mut name, g.rows);
        name.append("x");
        push_decimal(&mut name, g.columns);
        let _ = (tags, output);
        Ok(GeneratedLayout { layout_name: name, views })
    }
}

} // verus!

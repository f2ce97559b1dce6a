//! One main window against an edge of the output, and a strip of equally
//! sized secondary windows beside it that scrolls along the edge.
use vstd::prelude::*;
use vstd::arithmetic::div_mod::{
    lemma_div_is_ordered, lemma_div_multiples_vanish, lemma_div_pos_is_pos, lemma_fundamental_div_mod,
    lemma_fundamental_div_mod_converse,
};
use vstd::string::*;
use crate::geometry::{
    clamp_i32, clamp_i32_wide, div_trunc, div_trunc_wide, lemma_mul_bound, fits_extent, fits_i32, GeneratedLayout,
    Rect, Rectangle, UNIT,
};
use crate::command::{
    amount_units, chars_of, first_word, parse_amount, second_word, same_chars, slice_of, word_bounds,
};

verus! {

/// The edge of the output that the main area extends from.
#[derive(Clone, Copy, Debug, PartialEq, Eq, Structural)]
pub enum Edge {
    Left,
    Right,
    Bottom,
    Top,
}

impl Edge {
    /// The output is split along its width for `Left` and `Right`, and the
    /// secondary strip then scrolls vertically.
    pub open spec fn splits_width(self) -> bool {
        self is Left || self is Right
    }
}

/// Ratios and offsets are fixed-point numbers in units of `1 / UNIT`.
#[derive(Clone, Copy, Debug, PartialEq, Eq, Structural)]
#[non_exhaustive]
pub struct Config {
    /// The main area will extend out from this edge.
    pub main_location: Edge,
    /// Share of the split axis given to the main area, times `UNIT`.
    pub main_ratio: i64,
    /// Share of the secondary area's cross axis taken by one secondary
    /// window, times `UNIT`; padding is accounted for, so half of `UNIT`
    /// fits exactly two windows.
    pub secondary_window_size: i64,
    /// Padding around the edge of the layout area, in pixels.
    pub outer_padding: i32,
    /// Padding between views, in pixels.
    pub view_padding: i32,
    /// Offset of the secondary strip in secondary windows, times `UNIT`.
    pub scroll_offset: i64,
}

impl Default for Config {
    fn default() -> (c: Self)
        ensures
            c.main_location == Edge::Left,
            c.main_ratio == 600_000,
            c.secondary_window_size == 500_000,
            c.outer_padding == 6,
            c.view_padding == 6,
            c.scroll_offset == 0,
    {
        Config {
            main_location: Edge::Left,
            main_ratio: 600_000,
            secondary_window_size: 500_000,
            outer_padding: 6,
            view_padding: 6,
            scroll_offset: 0,
        }
    }
}

/// Why a command or a layout request failed.
#[derive(Debug, PartialEq, Eq)]
#[non_exhaustive]
pub enum Error {
    UnknownCommand(String),
    MissingArgument(&'static str),
    InvalidArgument(&'static str),
    /// The padded geometry has a negative extent or does not fit the
    /// rectangle fields.
    DegenerateArea,
}

/// `d` less the outer padding on both sides.
pub open spec fn padded(c: Config, d: int) -> int {
    d - 2 * c.outer_padding
}

/// Extent of the main area along the split axis of length `d`.
pub open spec fn main_split(c: Config, d: int) -> int {
    div_trunc((padded(c, d) - c.view_padding) * c.main_ratio, UNIT as int)
}

/// Extent of the secondary area along the split axis of length `d`.
pub open spec fn secondary_split(c: Config, d: int) -> int {
    padded(c, d) - c.view_padding - main_split(c, d)
}

/// Extent of one secondary window along the scroll axis of length `d`.
pub open spec fn secondary_size(c: Config, d: int) -> int {
    div_trunc((padded(c, d) + c.view_padding) * c.secondary_window_size, UNIT as int)
        - c.view_padding
}

pub open spec fn main_rect(c: Config, w: int, h: int) -> Rect {
    let p = c.outer_padding as int;
    match c.main_location {
        Edge::Left => Rect { x: p, y: p, width: main_split(c, w), height: padded(c, h) },
        Edge::Top => Rect { x: p, y: p, width: padded(c, w), height: main_split(c, h) },
        Edge::Right => Rect {
            x: w - p - main_split(c, w),
            y: p,
            width: main_split(c, w),
            height: padded(c, h),
        },
        Edge::Bottom => Rect {
            x: p,
            y: h - p - main_split(c, h),
            width: padded(c, w),
            height: main_split(c, h),
        },
    }
}

/// The first secondary window, before scrolling.
pub open spec fn secondary_base(c: Config, w: int, h: int) -> Rect {
    let p = c.outer_padding as int;
    let v = c.view_padding as int;
    match c.main_location {
        Edge::Left => Rect {
            x: p + main_split(c, w) + v,
            y: p,
            width: secondary_split(c, w),
            height: secondary_size(c, h),
        },
        Edge::Top => Rect {
            x: p,
            y: p + main_split(c, h) + v,
            width: secondary_size(c, w),
            height: secondary_split(c, h),
        },
        Edge::Right => Rect {
            x: p,
            y: p,
            width: secondary_split(c, w),
            height: secondary_size(c, h),
        },
        Edge::Bottom => Rect {
            x: p,
            y: p,
            width: secondary_size(c, w),
            height: secondary_split(c, h),
        },
    }
}

/// Step from one secondary window to the next, along x.
pub open spec fn stride_x(c: Config, w: int) -> int {
    if c.main_location.splits_width() {
        0
    } else {
        secondary_size(c, w) + c.view_padding
    }
}

/// Step from one secondary window to the next, along y.
pub open spec fn stride_y(c: Config, h: int) -> int {
    if c.main_location.splits_width() {
        secondary_size(c, h) + c.view_padding
    } else {
        0
    }
}

/// Pixels that the strip is moved back by: `stride * offset`, rounded
/// toward zero and saturated.
pub open spec fn scroll_shift(stride: int, offset: int) -> int {
    clamp_i32(div_trunc(stride * offset, UNIT as int))
}

/// One coordinate of the secondary window `i`, in saturating arithmetic.
pub open spec fn strip_coord(base: int, stride: int, offset: int, i: int) -> int {
    clamp_i32(clamp_i32(base + clamp_i32(stride * i)) - scroll_shift(stride, offset))
}

/// The secondary window `i` (counted from zero).
pub open spec fn secondary_rect(c: Config, w: int, h: int, i: int) -> Rect {
    let b = secondary_base(c, w, h);
    Rect {
        x: strip_coord(b.x, stride_x(c, w), c.scroll_offset as int, i),
        y: strip_coord(b.y, stride_y(c, h), c.scroll_offset as int, i),
        width: b.width,
        height: b.height,
    }
}

/// Whether the geometry for an output of `w` by `h` can be laid out.
pub open spec fn layout_fits(c: Config, w: int, h: int) -> bool {
    main_rect(c, w, h).fits() && secondary_base(c, w, h).fits() && fits_i32(stride_x(c, w))
        && fits_i32(stride_y(c, h))
}

/// Window `k` of the layout: the main area first, then the strip.
pub open spec fn view_rect(c: Config, w: int, h: int, k: int) -> Rect {
    if k == 0 {
        main_rect(c, w, h)
    } else {
        secondary_rect(c, w, h, k - 1)
    }
}

/// `x` saturated into the range of `i64`.
pub open spec fn clamp_i64(x: int) -> int {
    if x < i64::MIN {
        i64::MIN as int
    } else if x > i64::MAX {
        i64::MAX as int
    } else {
        x
    }
}

/// The amount, in units of `1 / UNIT`, that the command `cmd` scrolls by;
/// `None` where it is not a valid `scroll` command.
pub open spec fn scroll_amount(cmd: Seq<char>) -> Option<int> {
    if first_word(cmd) == "scroll"@ {
        match second_word(cmd) {
            Some(w) => amount_units(w),
            None => None,
        }
    } else {
        None
    }
}

/// `c` with its strip scrolled by `v`, saturating.
pub open spec fn scrolled(c: Config, v: int) -> Config {
    Config { scroll_offset: clamp_i64(c.scroll_offset + v) as i64, ..c }
}

/// The main area is the first window whatever the scroll offset; scrolling
/// never resizes a window, nor decides whether a layout can be made.
pub proof fn main_view_ignores_scroll(c: Config, w: int, h: int, offset: i64)
    ensures
        view_rect(c, w, h, 0) == main_rect(c, w, h),
        view_rect(Config { scroll_offset: offset, ..c }, w, h, 0) == view_rect(c, w, h, 0),
        layout_fits(Config { scroll_offset: offset, ..c }, w, h) == layout_fits(c, w, h),
        forall|k: int|
            #![trigger view_rect(c, w, h, k)]
            view_rect(Config { scroll_offset: offset, ..c }, w, h, k).width == view_rect(
                c,
                w,
                h,
                k,
            ).width && view_rect(Config { scroll_offset: offset, ..c }, w, h, k).height
                == view_rect(c, w, h, k).height,
{
}

/// With no scroll offset the strip is not shifted: window `i` stands `i`
/// strides from the first.
pub proof fn zero_offset_is_unscrolled(c: Config, w: int, h: int, i: int)
    requires
        c.scroll_offset == 0,
    ensures
        secondary_rect(c, w, h, i).x == clamp_i32(
            secondary_base(c, w, h).x + clamp_i32(stride_x(c, w) * i),
        ),
        secondary_rect(c, w, h, i).y == clamp_i32(
            secondary_base(c, w, h).y + clamp_i32(stride_y(c, h) * i),
        ),
{
    assert(stride_x(c, w) * 0 == 0);
    assert(stride_y(c, h) * 0 == 0);
}

proof fn lemma_div_trunc_exact(m: int)
    ensures
        div_trunc(m * UNIT, UNIT as int) == m,
{
    if m >= 0 {
        lemma_fundamental_div_mod_converse(m * UNIT, UNIT as int, m, 0);
    } else {
        lemma_fundamental_div_mod_converse(-m * UNIT, UNIT as int, -m, 0);
        assert(-(m * UNIT) == -m * UNIT) by (nonlinear_arith);
    }
}

/// One more window of scroll offset moves the strip back by one stride.
proof fn lemma_shift_step(s: int, o: int)
    requires
        o % (UNIT as int) == 0 || (o >= 0 && s >= 0),
    ensures
        div_trunc(s * (o + UNIT), UNIT as int) == div_trunc(s * o, UNIT as int) + s,
{
    let u = UNIT as int;
    assert(s * (o + u) == s * o + s * u) by (nonlinear_arith);
    if o % u == 0 {
        let q = o / u;
        lemma_fundamental_div_mod_converse(o, u, q, 0);
        assert(s * o == (s * q) * u) by (nonlinear_arith)
            requires
                o == q * u,
        ;
        assert(s * (o + u) == (s * q + s) * u) by (nonlinear_arith)
            requires
                o == q * u,
        ;
        lemma_div_trunc_exact(s * q);
        lemma_div_trunc_exact(s * q + s);
    } else {
        assert(s * o >= 0) by (nonlinear_arith)
            requires
                o >= 0,
                s >= 0,
        ;
        assert(s * u >= 0) by (nonlinear_arith)
            requires
                s >= 0,
                u == 1_000_000,
        ;
        let x = s * o;
        let q = x / u;
        let r = x % u;
        lemma_fundamental_div_mod(x, u);
        lemma_fundamental_div_mod_converse(x + s * u, u, q + s, r);
        assert(x + s * u == (q + s) * u + r) by (nonlinear_arith)
            requires
                x == u * q + r,
        ;
    }
}

/// Raising the scroll offset by one window moves every secondary window
/// back by exactly one stride, where no coordinate saturates and the
/// offset is a whole number of windows or both offset and padding are not
/// negative.
pub proof fn scroll_moves_one_stride(c: Config, w: int, h: int, i: int)
    requires
        layout_fits(c, w, h),
        c.scroll_offset + UNIT <= i64::MAX,
        (c.scroll_offset as int) % (UNIT as int) == 0 || (c.scroll_offset >= 0 && c.view_padding >= 0),
        fits_i32(stride_x(c, w) * i) && fits_i32(stride_y(c, h) * i),
        fits_i32(secondary_base(c, w, h).x + stride_x(c, w) * i),
        fits_i32(secondary_base(c, w, h).y + stride_y(c, h) * i),
        fits_i32(div_trunc(stride_x(c, w) * (c.scroll_offset + UNIT), UNIT as int)),
        fits_i32(div_trunc(stride_y(c, h) * (c.scroll_offset + UNIT), UNIT as int)),
        fits_i32(div_trunc(stride_x(c, w) * c.scroll_offset, UNIT as int)),
        fits_i32(div_trunc(stride_y(c, h) * c.scroll_offset, UNIT as int)),
        fits_i32(secondary_base(c, w, h).x + stride_x(c, w) * i - div_trunc(
            stride_x(c, w) * (c.scroll_offset + UNIT),
            UNIT as int,
        )),
        fits_i32(secondary_base(c, w, h).y + stride_y(c, h) * i - div_trunc(
            stride_y(c, h) * (c.scroll_offset + UNIT),
            UNIT as int,
        )),
        fits_i32(secondary_base(c, w, h).x + stride_x(c, w) * i - div_trunc(
            stride_x(c, w) * c.scroll_offset,
            UNIT as int,
        )),
        fits_i32(secondary_base(c, w, h).y + stride_y(c, h) * i - div_trunc(
            stride_y(c, h) * c.scroll_offset,
            UNIT as int,
        )),
    ensures
        ({
            let next = Config { scroll_offset: (c.scroll_offset + UNIT) as i64, ..c };
            &&& secondary_rect(next, w, h, i).x == secondary_rect(c, w, h, i).x - stride_x(c, w)
            &&& secondary_rect(next, w, h, i).y == secondary_rect(c, w, h, i).y - stride_y(c, h)
            &&& secondary_rect(next, w, h, i).width == secondary_rect(c, w, h, i).width
            &&& secondary_rect(next, w, h, i).height == secondary_rect(c, w, h, i).height
        }),
{
    let o = c.scroll_offset as int;
    let b = secondary_base(c, w, h);
    assert(b.width >= 0 && b.height >= 0);
    lemma_shift_step(stride_x(c, w), o);
    lemma_shift_step(stride_y(c, h), o);
}

/// Scrolling by an amount and then by its negation restores the
/// configuration, and with it the layout, where the first scroll did not
/// saturate.
pub proof fn scroll_round_trip(c: Config, there: Seq<char>, back: Seq<char>)
    requires
        scroll_amount(there) is Some,
        scroll_amount(back) == Some(-scroll_amount(there).unwrap()),
        i64::MIN <= c.scroll_offset + scroll_amount(there).unwrap() <= i64::MAX,
    ensures
        scrolled(scrolled(c, scroll_amount(there).unwrap()), scroll_amount(back).unwrap()) == c,
        forall|w: int, h: int, k: int|
            view_rect(
                scrolled(scrolled(c, scroll_amount(there).unwrap()), scroll_amount(back).unwrap()),
                w,
                h,
                k,
            ) == view_rect(c, w, h, k),
{
}

/// With a secondary window size of one half, two secondary windows and one
/// padding fill the padded extent, up to one pixel lost to rounding.
pub proof fn half_size_fills_strip(c: Config, d: int)
    requires
        c.secondary_window_size == UNIT / 2,
        padded(c, d) + c.view_padding >= 0,
    ensures
        padded(c, d) - 1 <= 2 * secondary_size(c, d) + c.view_padding <= padded(c, d),
        (padded(c, d) + c.view_padding) % 2 == 0 ==> 2 * secondary_size(c, d) + c.view_padding
            == padded(c, d),
{
    let a = padded(c, d) + c.view_padding;
    assert(a * (UNIT / 2) == (a / 2) * UNIT + (a % 2) * (UNIT / 2)) by {
        lemma_fundamental_div_mod(a, 2);
        assert(a * 500_000 == (2 * (a / 2) + a % 2) * 500_000);
    }
    let q = a / 2;
    lemma_fundamental_div_mod(a, 2);
    assert(0 <= a % 2 < 2);
    lemma_fundamental_div_mod_converse(a * (UNIT / 2), UNIT as int, q, (a % 2) * (UNIT / 2));
}

/// A share `r` of `UNIT` or less of a length `a` is between zero and `a`.
proof fn lemma_share_within(a: int, r: int)
    requires
        a >= 0,
        0 <= r <= UNIT,
    ensures
        0 <= div_trunc(a * r, UNIT as int) <= a,
{
    let u = UNIT as int;
    assert(0 <= a * r <= u * a) by (nonlinear_arith)
        requires
            a >= 0,
            0 <= r <= u,
    ;
    lemma_div_pos_is_pos(a * r, u);
    lemma_div_is_ordered(a * r, u * a, u);
    lemma_div_multiples_vanish(a, u);
}

/// Every window of the layout fits its rectangle fields where the padding
/// is not negative and fits the output, both ratios lie between zero and
/// one, a secondary window is not narrower than nothing, and the output is
/// under `2^30` pixels a side.
pub proof fn sane_config_fits(c: Config, w: int, h: int)
    requires
        0 <= c.outer_padding,
        0 <= c.view_padding,
        2 * c.outer_padding + c.view_padding <= w <= 0x3FFF_FFFF,
        2 * c.outer_padding + c.view_padding <= h <= 0x3FFF_FFFF,
        0 <= c.main_ratio <= UNIT,
        0 <= c.secondary_window_size <= UNIT,
        secondary_size(c, w) >= 0,
        secondary_size(c, h) >= 0,
    ensures
        layout_fits(c, w, h),
{
    lemma_share_within(padded(c, w) - c.view_padding, c.main_ratio as int);
    lemma_share_within(padded(c, h) - c.view_padding, c.main_ratio as int);
    lemma_share_within(padded(c, w) + c.view_padding, c.secondary_window_size as int);
    lemma_share_within(padded(c, h) + c.view_padding, c.secondary_window_size as int);
}

/// `a * f / UNIT`, rounded toward zero.
fn scale(a: i128, f: i64) -> (q: i128)
    requires
        -0x100_0000_0000 <= a <= 0x100_0000_0000,
    ensures
        q == div_trunc(a * f, UNIT as int),
        -0x1_0000_0000_0000_0000_0000_0000 <= q <= 0x1_0000_0000_0000_0000_0000_0000,
{
    let fw = f as i128;
    proof {
        lemma_mul_bound(a as int, fw as int, 0x100_0000_0000, 0x8000_0000_0000_0000);
    }
    div_trunc_wide(a * fw, UNIT as i128)
}

/// The rectangle `(x, y, w, h)`, where all four fit its fields.
fn checked_rect(x: i128, y: i128, w: i128, h: i128) -> (r: Option<Rectangle>)
    ensures
        r is Some <==> (Rect { x: x as int, y: y as int, width: w as int, height: h as int }).fits(),
        r matches Some(rr) ==> rr.is(
            Rect { x: x as int, y: y as int, width: w as int, height: h as int },
        ),
{
    if i32::MIN as i128 <= x && x <= i32::MAX as i128 && i32::MIN as i128 <= y && y
        <= i32::MAX as i128 && 0 <= w && w <= u32::MAX as i128 && 0 <= h && h
        <= u32::MAX as i128 {
        Some(Rectangle { x: x as i32, y: y as i32, width: w as u32, height: h as u32 })
    } else {
        None
    }
}

fn shift_of(stride: i32, offset: i64) -> (r: i32)
    ensures
        r == scroll_shift(stride as int, offset as int),
{
    proof {
        lemma_mul_bound(stride as int, offset as int, 0x8000_0000, 0x8000_0000_0000_0000);
    }
    let m = stride as i128 * offset as i128;
    clamp_i32_wide(div_trunc_wide(m, UNIT as i128))
}

/// One coordinate of the strip window `i`.
fn strip_coord_exec(base: i32, stride: i32, shift: i32, i: u32) -> (r: i32)
    ensures
        r == clamp_i32(clamp_i32(base + clamp_i32(stride * i)) - shift),
{
    proof {
        lemma_mul_bound(stride as int, i as int, 0x8000_0000, 0x1_0000_0000);
    }
    let step = clamp_i32_wide(stride as i128 * i as i128);
    let moved = clamp_i32_wide(base as i128 + step as i128);
    clamp_i32_wide(moved as i128 - shift as i128)
}

/// The carousel layout generator; it owns its configuration, and with it
/// the scroll offset of its strip.
pub struct Carousel {
    config: Config,
}

impl Carousel {
    pub closed spec fn spec_config(&self) -> Config {
        self.config
    }

    pub fn new(config: Config) -> (r: Self)
        ensures
            r.spec_config() == config,
    {
        Self { config }
    }

    pub fn config(&self) -> (r: &Config)
        ensures
            *r == self.spec_config(),
    {
        &self.config
    }

    /// Runs a command: `scroll <amount>` adds the real number `amount`
    /// (digits with an optional point, sign and exponent) to the scroll
    /// offset, rounded toward zero to the fixed-point unit and saturating.
    /// An amount beyond the `i64` fixed-point range, or one that is not a
    /// number, is an invalid argument. Any failure leaves the configuration
    /// as it was.
    pub fn user_cmd(&mut self, cmd: String, tags: Option<u32>, output: &str) -> (r: Result<
        (),
        Error,
    >)
        ensures
            match scroll_amount(cmd@) {
                Some(v) => r is Ok && final(self).spec_config() == scrolled(
                    old(self).spec_config(),
                    v,
                ),
                None => r is Err && *final(self) == *old(self),
            },
            first_word(cmd@) != "scroll"@ ==> (r matches Err(Error::UnknownCommand(t)) && t@
                == first_word(cmd@)),
            first_word(cmd@) == "scroll"@ && second_word(cmd@) is None ==> (r matches Err(
                Error::MissingArgument(a),
            ) && a@ == "amount"@),
            first_word(cmd@) == "scroll"@ && second_word(cmd@) is Some && amount_units(
                second_word(cmd@).unwrap(),
            ) is None ==> (r matches Err(Error::InvalidArgument(a)) && a@ == "amount"@),
    {
        proof {
            reveal_strlit("amount");
        }
        let _ = (tags, output);
        let text = cmd.as_str();
        let chars = chars_of(text);
        let (a, b, c, d) = word_bounds(&chars);
        let verb = slice_of(&chars, a, b);
        if !same_chars(&verb, "scroll") {
            return Err(Error::UnknownCommand(String::from_str(text.substring_char(a, b))));
        }
        if c >= chars.len() {
            return Err(Error::MissingArgument("amount"));
        }
        let word = slice_of(&chars, c, d);
        match parse_amount(&word) {
            Some(v) => {
                let sum = self.config.scroll_offset as i128 + v as i128;
                self.config.scroll_offset = if sum < i64::MIN as i128 {
                    i64::MIN
                } else if sum > i64::MAX as i128 {
                    i64::MAX
                } else {
                    sum as i64
                };
                Ok(())
            },
            None => Err(Error::InvalidArgument("amount")),
        }
    }

    /// Places `view_count` windows on an output of `usable_width` by
    /// `usable_height`: the main area first, then the strip in order.
    /// Fails with `DegenerateArea` exactly where the geometry does not fit.
    pub fn generate_layout(
        &mut self,
        view_count: u32,
        usable_width: u32,
        usable_height: u32,
        tags: u32,
        output: &str,
    ) -> (r: Result<GeneratedLayout, Error>)
        ensures
            *final(self) == *old(self),
            r is Ok <==> layout_fits(old(self).spec_config(), usable_width as int, usable_height as int),
            r matches Err(e) ==> e is DegenerateArea,
            r matches Ok(g) ==> {
                &&& g.layout_name@ == "carousel"@
                &&& g.views@.len() == view_count
                &&& forall|k: int|
                    0 <= k < view_count ==> #[trigger] g.views@[k].is(
                        view_rect(old(self).spec_config(), usable_width as int, usable_height as int, k),
                    )
            },
    {
        let c = self.config;
        let ghost (w, h) = (usable_width as int, usable_height as int);
        let p = c.outer_padding as i128;
        let v = c.view_padding as i128;
        let pw = usable_width as i128 - 2 * p;
        let ph = usable_height as i128 - 2 * p;
        let main_w = scale(pw - v, c.main_ratio);
        let main_h = scale(ph - v, c.main_ratio);
        let second_w = pw - v - main_w;
        let second_h = ph - v - main_h;
        let size_w = scale(pw + v, c.secondary_window_size) - v;
        let size_h = scale(ph + v, c.secondary_window_size) - v;
        let uw = usable_width as i128;
        let uh = usable_height as i128;
        let main = match c.main_location {
            Edge::Left => checked_rect(p, p, main_w, ph),
            Edge::Top => checked_rect(p, p, pw, main_h),
            Edge::Right => checked_rect(uw - p - main_w, p, main_w, ph),
            Edge::Bottom => checked_rect(p, uh - p - main_h, pw, main_h),
        };
        let base = match c.main_location {
            Edge::Left => checked_rect(p + main_w + v, p, second_w, size_h),
            Edge::Top => checked_rect(p, p + main_h + v, size_w, second_h),
            Edge::Right => checked_rect(p, p, second_w, size_h),
            Edge::Bottom => checked_rect(p, p, size_w, second_h),
        };
        let (sx, sy): (i128, i128) = match c.main_location {
            Edge::Left | Edge::Right => (0, size_h + v),
            Edge::Top | Edge::Bottom => (size_w + v, 0),
        };
        assert(main is Some <==> main_rect(c, w, h).fits());
        assert(base is Some <==> secondary_base(c, w, h).fits());
        assert(sx == stride_x(c, w) && sy == stride_y(c, h));
        let (main, base) = match (main, base) {
            (Some(m), Some(b)) => (m, b),
            _ => return Err(Error::DegenerateArea),
        };
        if sx < i32::MIN as i128 || sx > i32::MAX as i128 || sy < i32::MIN as i128 || sy
            > i32::MAX as i128 {
            return Err(Error::DegenerateArea);
        }
        let shift_x = shift_of(sx as i32, c.scroll_offset);
        let shift_y = shift_of(sy as i32, c.scroll_offset);
        let mut views: Vec<Rectangle> = Vec::new();
        if view_count > 0 {
            views.push(main);
        }
        let mut i: u32 = 0;
        while i + 1 < view_count
            invariant
                c == self.spec_config(),
                view_count > 0 ==> views@.len() == i + 1,
                view_count == 0 ==> views@.len() == 0 && i == 0,
                i < view_count || i == 0,
                main.is(main_rect(c, w, h)),
                base.is(secondary_base(c, w, h)),
                sx == stride_x(c, w),
                sy == stride_y(c, h),
                fits_i32(sx as int) && fits_i32(sy as int),
                shift_x == scroll_shift(sx as int, c.scroll_offset as int),
                shift_y == scroll_shift(sy as int, c.scroll_offset as int),
                forall|k: int| 0 <= k < views@.len() ==> #[trigger] views@[k].is(view_rect(c, w, h, k)),
            decreases view_count - i,
        {
            let r = Rectangle {
                x: strip_coord_exec(base.x, sx as i32, shift_x, i),
                y: strip_coord_exec(base.y, sy as i32, shift_y, i),
                width: base.width,
                height: base.height,
            };
            assert(r.is(view_rect(c, w, h, i + 1)));
            views.push(r);
            i = i + 1;
        }
        let _ = (tags, output);
        Ok(GeneratedLayout { layout_name: String::from_str("carousel"), views })
    }
}

} // verus!

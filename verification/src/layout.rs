//! The axis/layout engine: from the active view's throughput values and the
//! drawing bounds it derives the rounded axis ceiling, the tick marks, and
//! each bar's position and size, ready for a renderer to draw.

use vstd::prelude::*;

use crate::rounding::{
    digit_count, lemma_digit_count_at_most, lemma_pow10_monotone, lemma_pow10_values,
    lemma_round_up_bound, lemma_round_up_ge, round_to_digit, round_up_spec,
};

verus! {

/// The drawing bounds of one render call.
#[derive(Clone, Copy, Debug, PartialEq, Eq, Structural)]
pub struct LayoutConfig {
    /// Total width of the drawing, left margin included.
    pub available_width: u64,
    /// Width reserved at the left for the vertical axis and its labels.
    pub left_margin: u64,
    /// Height of the plot area; bars and ticks are measured from its top.
    pub max_plot_height: u64,
    /// Narrowest bar the chart may draw.
    pub min_bar_width: u64,
    /// Widest bar the chart may draw.
    pub max_bar_width: u64,
}

impl LayoutConfig {
    /// Well-formed drawing bounds: some width beyond the left margin, a
    /// positive plot height, and an ordered pair of positive bar-width
    /// bounds.
    pub open spec fn wf(self) -> bool {
        &&& self.left_margin < self.available_width
        &&& self.max_plot_height >= 1
        &&& 1 <= self.min_bar_width <= self.max_bar_width
    }

    /// Whether these bounds are accepted by the engine.
    pub fn is_valid(&self) -> (r: bool)
        ensures
            r == self.wf(),
    {
        self.left_margin < self.available_width && self.max_plot_height >= 1
            && 1 <= self.min_bar_width && self.min_bar_width <= self.max_bar_width
    }
}

/// A malformed render call: the engine rejects it instead of clamping the
/// bounds to something drawable.
#[derive(Clone, Copy, Debug, PartialEq, Eq, Structural)]
pub enum LayoutError {
    /// The drawing width does not reach beyond the left margin.
    InvalidWidth,
    /// The plot height is zero.
    InvalidHeight,
    /// The bar-width bounds are zero or out of order.
    InvalidBarWidths,
}

/// One axis tick: its value and its pixel offset below the plot's top edge.
#[derive(Clone, Copy, Debug, PartialEq, Eq, Structural)]
pub struct Tick {
    pub value: u64,
    pub offset: u64,
}

/// One bar's placement: its value, its left edge, its top edge, and its
/// size.
#[derive(Clone, Copy, Debug, PartialEq, Eq, Structural)]
pub struct BarGeometry {
    pub value: u64,
    pub x: u64,
    pub y: u64,
    pub width: u64,
    pub height: u64,
}

/// A render-ready chart layout.
#[derive(Debug)]
pub struct AxisLayout {
    pub axis_ceiling: u64,
    pub tick_step: u64,
    pub ticks: Vec<Tick>,
    pub bar_width: u64,
    pub bar_spacing: u64,
    pub bars: Vec<BarGeometry>,
}

/// A successful render decision: either there is nothing to draw, or a
/// complete layout.
#[derive(Debug)]
pub enum LayoutOutcome {
    NoData,
    Chart(AxisLayout),
}

/// Descending order of a value sequence.
pub open spec fn sorted_desc_values(s: Seq<u64>) -> bool {
    forall|i: int, j: int| 0 <= i <= j < s.len() ==> s[i] >= s[j]
}

/// The largest value of a sequence; 0 for an empty one.
pub open spec fn seq_max(s: Seq<u64>) -> u64
    decreases s.len(),
{
    if s.len() == 0 {
        0
    } else {
        let m = seq_max(s.drop_first());
        if s[0] >= m {
            s[0]
        } else {
            m
        }
    }
}

/// In a descending sequence the first value is the largest.
pub proof fn lemma_seq_max_sorted(s: Seq<u64>)
    requires
        sorted_desc_values(s),
        s.len() > 0,
    ensures
        seq_max(s) == s[0],
    decreases s.len(),
{
    reveal_with_fuel(seq_max, 2);
    if s.len() > 1 {
        let t = s.drop_first();
        assert(forall|i: int| 0 <= i < t.len() ==> t[i] == s[i + 1]);
        lemma_seq_max_sorted(t);
    }
}

/// Which malformed-geometry error a rejected configuration gets.
pub open spec fn layout_error_spec(c: LayoutConfig) -> LayoutError {
    if c.available_width <= c.left_margin {
        LayoutError::InvalidWidth
    } else if c.max_plot_height == 0 {
        LayoutError::InvalidHeight
    } else {
        LayoutError::InvalidBarWidths
    }
}

/// The clamped width of one bar: the drawing span shared by the bars, each
/// carrying a tenth of its width as spacing, kept inside the configured
/// bounds.
pub open spec fn bar_width_spec(c: LayoutConfig, count: int) -> int {
    let raw = (c.available_width - c.left_margin) * 10 / (count * 11);
    if raw > c.max_bar_width {
        c.max_bar_width as int
    } else if raw < c.min_bar_width {
        c.min_bar_width as int
    } else {
        raw
    }
}

/// The pixel size of `value` under the axis ceiling: the plot height scaled
/// by the value's share of the ceiling.
pub open spec fn scaled_height_spec(value: u64, ceiling: u64, max_plot_height: u64) -> int {
    value * max_plot_height / (ceiling as int)
}

proof fn lemma_scaled_height(value: int, ceiling: int, h: int)
    requires
        0 <= value <= ceiling,
        1 <= ceiling,
        0 <= h,
    ensures
        0 <= value * h / ceiling <= h,
        value == ceiling ==> value * h / ceiling == h,
{
    assert(0 <= value * h <= ceiling * h) by (nonlinear_arith)
        requires
            0 <= value <= ceiling,
            0 <= h,
    ;
    vstd::arithmetic::div_mod::lemma_div_is_ordered(value * h, ceiling * h, ceiling);
    vstd::arithmetic::div_mod::lemma_div_multiples_vanish(h, ceiling);
    vstd::arithmetic::div_mod::lemma_div_pos_is_pos(value * h, ceiling);
}

/// The scaled height, computed without overflow through a wider word.
fn scaled_height(value: u64, ceiling: u64, max_plot_height: u64) -> (r: u64)
    requires
        value <= ceiling,
        ceiling >= 1,
    ensures
        r == scaled_height_spec(value, ceiling, max_plot_height),
        r <= max_plot_height,
        value == ceiling ==> r == max_plot_height,
{
    proof {
        lemma_scaled_height(value as int, ceiling as int, max_plot_height as int);
        assert((value as u128) * (max_plot_height as u128) <= u128::MAX) by (nonlinear_arith)
            requires
                value as u128 <= u64::MAX,
                max_plot_height as u128 <= u64::MAX,
        ;
    }
    ((value as u128) * (max_plot_height as u128) / (ceiling as u128)) as u64
}

/// What the engine promises of one bar: the bar of rank `i` carries the
/// view's value of that rank, stands one bar-plus-gap further right than its
/// neighbour, and rises from the bottom of the plot to its value's share of
/// the ceiling.
pub open spec fn bar_matches(
    b: BarGeometry,
    i: int,
    value: u64,
    bar_width: int,
    bar_spacing: int,
    ceiling: u64,
    config: LayoutConfig,
) -> bool {
    &&& b.value == value
    &&& b.width == bar_width
    &&& b.x == config.left_margin + i * (bar_width + bar_spacing)
    &&& b.height == scaled_height_spec(value, ceiling, config.max_plot_height)
    &&& b.y == config.max_plot_height - b.height
}

/// Everything the engine promises of a computed chart layout.
pub open spec fn layout_matches(c: AxisLayout, values: Seq<u64>, config: LayoutConfig) -> bool {
    &&& c.axis_ceiling == round_up_spec(seq_max(values) as nat, 2)
    &&& c.axis_ceiling >= seq_max(values)
    &&& c.axis_ceiling >= 1
    &&& c.tick_step == if c.axis_ceiling / 10 >= 1 {
        c.axis_ceiling / 10
    } else {
        1u64
    }
    &&& c.ticks@.len() >= 2
    &&& forall|i: int|
        0 <= i < c.ticks@.len() - 1 ==> (#[trigger] c.ticks@[i]).value == i * c.tick_step
    &&& c.ticks@[c.ticks@.len() - 1].value == c.axis_ceiling
    &&& (c.ticks@.len() - 2) * c.tick_step < c.axis_ceiling <= (c.ticks@.len() - 1) * c.tick_step
    &&& forall|i: int|
        0 <= i < c.ticks@.len() ==> (#[trigger] c.ticks@[i]).offset == config.max_plot_height
            - scaled_height_spec(c.ticks@[i].value, c.axis_ceiling, config.max_plot_height)
    &&& c.bar_width == bar_width_spec(config, values.len() as int)
    &&& c.bar_spacing == c.bar_width / 10
    &&& c.bars@.len() == values.len()
    &&& forall|i: int|
        0 <= i < values.len() ==> bar_matches(
            #[trigger] c.bars@[i],
            i,
            values[i],
            c.bar_width as int,
            c.bar_spacing as int,
            c.axis_ceiling,
            config,
        )
}

/// With the view's values in descending order, the first bar is the largest:
/// its height is the plot height scaled by the largest value's share of the
/// axis ceiling, and the ceiling is never below that value.
pub proof fn lemma_largest_bar(c: AxisLayout, values: Seq<u64>, config: LayoutConfig)
    requires
        layout_matches(c, values, config),
        sorted_desc_values(values),
        values.len() > 0,
    ensures
        c.bars@[0].height == config.max_plot_height * seq_max(values) / (c.axis_ceiling as int),
        c.axis_ceiling >= seq_max(values),
{
    lemma_seq_max_sorted(values);
    assert(c.bars@[0].height == scaled_height_spec(values[0], c.axis_ceiling, config.max_plot_height));
    assert(values[0] * config.max_plot_height == config.max_plot_height * values[0]);
}

/// Bars stand in descending order of value: the layout never reorders the
/// view it was computed from.
pub proof fn lemma_bars_descending(c: AxisLayout, values: Seq<u64>, config: LayoutConfig)
    requires
        layout_matches(c, values, config),
        sorted_desc_values(values),
    ensures
        forall|i: int, j: int|
            0 <= i <= j < c.bars@.len() ==> (#[trigger] c.bars@[i]).value
                >= (#[trigger] c.bars@[j]).value,
{
    assert forall|i: int, j: int|
        0 <= i <= j < c.bars@.len() implies (#[trigger] c.bars@[i]).value
        >= (#[trigger] c.bars@[j]).value by {
        assert(c.bars@[i].value == values[i]);
        assert(c.bars@[j].value == values[j]);
    }
}

/// Computes the complete layout of one chart from the active view's
/// throughput values, largest first, and the drawing bounds.
///
/// An empty view is the valid "no data" outcome, never an error; malformed
/// drawing bounds are errors. The value bound and the width-sum bound keep
/// every pixel coordinate inside the machine word.
pub fn compute_layout(values: &Vec<u64>, config: &LayoutConfig) -> (r: Result<
    LayoutOutcome,
    LayoutError,
>)
    requires
        sorted_desc_values(values@),
        forall|i: int| 0 <= i < values@.len() ==> values@[i] < 10_000_000_000_000_000_000,
        values@.len() * (config.max_bar_width + config.max_bar_width / 10) + config.left_margin
            <= u64::MAX,
    ensures
        r is Err <==> !config.wf(),
        match r {
            Result::Ok(LayoutOutcome::NoData) => values@.len() == 0,
            Result::Ok(LayoutOutcome::Chart(c)) => values@.len() > 0 && layout_matches(
                c,
                values@,
                *config,
            ),
            Result::Err(e) => e == layout_error_spec(*config),
        },
{
    if config.available_width <= config.left_margin {
        return Result::Err(LayoutError::InvalidWidth);
    }
    if config.max_plot_height == 0 {
        return Result::Err(LayoutError::InvalidHeight);
    }
    if config.min_bar_width == 0 || config.min_bar_width > config.max_bar_width {
        return Result::Err(LayoutError::InvalidBarWidths);
    }
    let n = values.len();
    if n == 0 {
        return Result::Ok(LayoutOutcome::NoData);
    }
    let max_value = values[0];
    proof {
        lemma_seq_max_sorted(values@);
        lemma_round_up_ge(max_value as nat, 2);
        lemma_round_up_bound(max_value as nat, 2);
        lemma_pow10_values();
        lemma_digit_count_at_most(max_value as nat, 19);
        lemma_pow10_monotone(digit_count(max_value as nat), 19);
    }
    let axis_ceiling = round_to_digit(max_value, 2);
    assert(1 <= axis_ceiling <= 10_000_000_000_000_000_000);
    if axis_ceiling == 0 {
        // unreachable: rounding always yields a positive ceiling
        return Result::Ok(LayoutOutcome::NoData);
    }
    let tick_step: u64 = if axis_ceiling / 10 >= 1 {
        axis_ceiling / 10
    } else {
        1
    };
    let mut ticks: Vec<Tick> = Vec::new();
    let mut tv: u64 = 0;
    while tv < axis_ceiling
        invariant
            config.max_plot_height >= 1,
            1 <= axis_ceiling <= 10_000_000_000_000_000_000,
            1 <= tick_step <= axis_ceiling,
            tick_step == if axis_ceiling / 10 >= 1 {
                axis_ceiling / 10
            } else {
                1u64
            },
            tv == ticks@.len() * tick_step,
            tv < axis_ceiling + tick_step,
            forall|i: int|
                0 <= i < ticks@.len() ==> (#[trigger] ticks@[i]).value == i * tick_step,
            forall|i: int|
                0 <= i < ticks@.len() ==> (#[trigger] ticks@[i]).offset == config.max_plot_height
                    - scaled_height_spec(ticks@[i].value, axis_ceiling, config.max_plot_height),
        decreases axis_ceiling + tick_step - tv,
    {
        let offset = config.max_plot_height - scaled_height(tv, axis_ceiling, config.max_plot_height);
        ticks.push(Tick { value: tv, offset });
        proof {
            assert((ticks@.len() - 1) * tick_step + tick_step == ticks@.len() * tick_step)
                by (nonlinear_arith);
        }
        tv = tv + tick_step;
    }
    let top_offset = config.max_plot_height - scaled_height(
        axis_ceiling,
        axis_ceiling,
        config.max_plot_height,
    );
    ticks.push(Tick { value: axis_ceiling, offset: top_offset });
    let ghost m = ticks@.len() - 1;
    assert(ticks@[m].value == axis_ceiling);
    assert((m - 1) * tick_step == m * tick_step - tick_step) by (nonlinear_arith);
    assert((m - 1) * tick_step < axis_ceiling <= m * tick_step);
    let span = config.available_width - config.left_margin;
    let raw = (span as u128) * 10 / ((n as u128) * 11);
    let bar_width: u64 = if raw > config.max_bar_width as u128 {
        config.max_bar_width
    } else if raw < config.min_bar_width as u128 {
        config.min_bar_width
    } else {
        raw as u64
    };
    assert(bar_width as int == bar_width_spec(*config, n as int));
    assert(config.min_bar_width <= bar_width <= config.max_bar_width);
    let bar_spacing = bar_width / 10;
    proof {
        vstd::arithmetic::div_mod::lemma_div_is_ordered(
            bar_width as int,
            config.max_bar_width as int,
            10,
        );
    }
    let mut bars: Vec<BarGeometry> = Vec::new();
    let mut i: usize = 0;
    while i < n
        invariant
            i <= n == values@.len(),
            sorted_desc_values(values@),
            n >= 1,
            config.max_plot_height >= 1,
            axis_ceiling >= 1,
            seq_max(values@) == values@[0],
            values@[0] <= axis_ceiling,
            bar_spacing == bar_width / 10,
            bar_width <= config.max_bar_width,
            bar_spacing <= config.max_bar_width / 10,
            n * (config.max_bar_width + config.max_bar_width / 10) + config.left_margin
                <= u64::MAX,
            bars@.len() == i,
            forall|j: int|
                0 <= j < i ==> bar_matches(
                    #[trigger] bars@[j],
                    j,
                    values@[j],
                    bar_width as int,
                    bar_spacing as int,
                    axis_ceiling,
                    *config,
                ),
        decreases n - i,
    {
        let v = values[i];
        assert(v <= values@[0]);
        let height = scaled_height(v, axis_ceiling, config.max_plot_height);
        let y = config.max_plot_height - height;
        proof {
            let k = config.max_bar_width + config.max_bar_width / 10;
            assert(bar_width + bar_spacing <= k);
            assert(i * (bar_width + bar_spacing) <= (n - 1) * k) by (nonlinear_arith)
                requires
                    0 <= i <= n - 1,
                    0 <= bar_width + bar_spacing <= k,
            ;
            assert((n - 1) * k + k == n * k) by (nonlinear_arith);
            assert(k <= n * k) by (nonlinear_arith)
                requires
                    1 <= n,
                    0 <= k,
            ;
        }
        let x = config.left_margin + (i as u64) * (bar_width + bar_spacing);
        bars.push(BarGeometry { value: v, x, y, width: bar_width, height });
        i = i + 1;
    }
    Result::Ok(
        LayoutOutcome::Chart(
            AxisLayout { axis_ceiling, tick_step, ticks, bar_width, bar_spacing, bars },
        ),
    )
}

} // verus!

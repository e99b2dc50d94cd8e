use web_bench_ui::layout::{compute_layout, LayoutConfig, LayoutError, LayoutOutcome};

fn chart_config() -> LayoutConfig {
    LayoutConfig {
        available_width: 1000,
        left_margin: 70,
        max_plot_height: 270,
        min_bar_width: 50,
        max_bar_width: 55,
    }
}

fn expect_chart(r: Result<LayoutOutcome, LayoutError>) -> web_bench_ui::layout::AxisLayout {
    match r {
        Ok(LayoutOutcome::Chart(layout)) => layout,
        Ok(LayoutOutcome::NoData) => panic!("expected a chart, got no data"),
        Err(e) => panic!("expected a chart, got {:?}", e),
    }
}

#[test]
fn empty_values_give_no_data() {
    let values: Vec<u64> = vec![];
    match compute_layout(&values, &chart_config()) {
        Ok(LayoutOutcome::NoData) => {}
        other => panic!("expected no data, got {:?}", other),
    }
}

#[test]
fn two_bars_under_a_rounded_ceiling() {
    let values: Vec<u64> = vec![100, 50];
    let layout = expect_chart(compute_layout(&values, &chart_config()));
    assert_eq!(layout.axis_ceiling, 110);
    assert_eq!(layout.tick_step, 11);
    assert_eq!(layout.ticks.len(), 11);
    assert_eq!(layout.ticks[0].value, 0);
    assert_eq!(layout.ticks[0].offset, 270);
    assert_eq!(layout.ticks[1].value, 11);
    assert_eq!(layout.ticks[10].value, 110);
    assert_eq!(layout.ticks[10].offset, 0);
    // the raw width (1000 - 70) * 10 / 22 exceeds the bound, so it clamps
    assert_eq!(layout.bar_width, 55);
    assert_eq!(layout.bar_spacing, 5);
    assert_eq!(layout.bars.len(), 2);
    assert_eq!(layout.bars[0].value, 100);
    assert_eq!(layout.bars[0].x, 70);
    assert_eq!(layout.bars[0].height, 100 * 270 / 110);
    assert_eq!(layout.bars[0].y, 270 - 100 * 270 / 110);
    assert_eq!(layout.bars[1].value, 50);
    assert_eq!(layout.bars[1].x, 130);
    assert_eq!(layout.bars[1].height, 50 * 270 / 110);
}

#[test]
fn largest_bar_fills_its_share_of_the_ceiling() {
    let values: Vec<u64> = vec![31323];
    let layout = expect_chart(compute_layout(&values, &chart_config()));
    assert_eq!(layout.axis_ceiling, 32000);
    assert!(layout.axis_ceiling >= 31323);
    assert_eq!(layout.tick_step, 3200);
    assert_eq!(layout.ticks.len(), 11);
    assert_eq!(layout.ticks[10].value, 32000);
    assert_eq!(layout.bars[0].height, 31323 * 270 / 32000);
    assert!(layout.bars[0].height <= 270);
}

#[test]
fn ticks_reach_a_ceiling_that_no_step_multiple_hits() {
    // a ceiling of 23 steps by 2 and still ends exactly at 23
    let values: Vec<u64> = vec![22];
    let layout = expect_chart(compute_layout(&values, &chart_config()));
    assert_eq!(layout.axis_ceiling, 23);
    assert_eq!(layout.tick_step, 2);
    let last = layout.ticks.len() - 1;
    assert_eq!(layout.ticks[last].value, 23);
    assert_eq!(layout.ticks[last - 1].value, 22);
    for w in layout.ticks.windows(2) {
        assert!(w[0].value < w[1].value);
    }
}

#[test]
fn single_digit_ceiling_ticks_by_one() {
    let values: Vec<u64> = vec![5];
    let layout = expect_chart(compute_layout(&values, &chart_config()));
    assert_eq!(layout.axis_ceiling, 6);
    assert_eq!(layout.tick_step, 1);
    assert_eq!(layout.ticks.len(), 7);
    assert_eq!(layout.ticks[6].value, 6);
}

#[test]
fn all_zero_values_still_draw_a_chart() {
    let values: Vec<u64> = vec![0, 0];
    let layout = expect_chart(compute_layout(&values, &chart_config()));
    assert_eq!(layout.axis_ceiling, 1);
    assert_eq!(layout.bars[0].height, 0);
    assert_eq!(layout.bars[0].y, 270);
}

#[test]
fn crowded_chart_clamps_bars_to_the_minimum_width() {
    let values: Vec<u64> = vec![20; 20];
    let layout = expect_chart(compute_layout(&values, &chart_config()));
    // the raw width (1000 - 70) * 10 / 220 falls below the bound
    assert_eq!(layout.bar_width, 50);
    assert_eq!(layout.bar_spacing, 5);
    assert_eq!(layout.bars[19].x, 70 + 19 * 55);
}

#[test]
fn uncrowded_chart_keeps_the_raw_bar_width() {
    let mut config = chart_config();
    config.min_bar_width = 10;
    config.max_bar_width = 1000;
    let values: Vec<u64> = vec![100, 50];
    let layout = expect_chart(compute_layout(&values, &config));
    assert_eq!(layout.bar_width, (1000 - 70) * 10 / 22);
}

#[test]
fn width_not_beyond_margin_is_rejected() {
    let mut config = chart_config();
    config.available_width = 70;
    let values: Vec<u64> = vec![100];
    assert_eq!(
        compute_layout(&values, &config).unwrap_err(),
        LayoutError::InvalidWidth
    );
    config.available_width = 0;
    config.left_margin = 0;
    assert_eq!(
        compute_layout(&values, &config).unwrap_err(),
        LayoutError::InvalidWidth
    );
}

#[test]
fn zero_height_is_rejected() {
    let mut config = chart_config();
    config.max_plot_height = 0;
    let values: Vec<u64> = vec![100];
    assert_eq!(
        compute_layout(&values, &config).unwrap_err(),
        LayoutError::InvalidHeight
    );
}

#[test]
fn bar_width_bounds_out_of_order_are_rejected() {
    let mut config = chart_config();
    config.min_bar_width = 60;
    config.max_bar_width = 55;
    let values: Vec<u64> = vec![100];
    assert_eq!(
        compute_layout(&values, &config).unwrap_err(),
        LayoutError::InvalidBarWidths
    );
    let mut config = chart_config();
    config.min_bar_width = 0;
    assert_eq!(
        compute_layout(&values, &config).unwrap_err(),
        LayoutError::InvalidBarWidths
    );
}

#[test]
fn malformed_config_is_rejected_even_without_values() {
    let values: Vec<u64> = vec![];
    let mut config = chart_config();
    config.max_plot_height = 0;
    assert_eq!(
        compute_layout(&values, &config).unwrap_err(),
        LayoutError::InvalidHeight
    );
}

#[test]
fn config_validity_check_matches_the_engine() {
    assert!(chart_config().is_valid());
    let mut config = chart_config();
    config.left_margin = 1000;
    assert!(!config.is_valid());
}

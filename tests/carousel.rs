use river_layouts::carousel::{Carousel, Config, Edge, Error};
use river_layouts::geometry::Rectangle;

fn rect(x: i32, y: i32, width: u32, height: u32) -> Rectangle {
    Rectangle { x, y, width, height }
}

fn layout_of(config: Config, view_count: u32, width: u32, height: u32) -> Vec<Rectangle> {
    let mut carousel = Carousel::new(config);
    carousel.generate_layout(view_count, width, height, 0, "out").unwrap().views
}

fn with_edge(edge: Edge) -> Config {
    let mut config = Config::default();
    config.main_location = edge;
    config
}

#[test]
fn default_config_values() {
    let config = Config::default();
    assert_eq!(config.main_location, Edge::Left);
    assert_eq!(config.main_ratio, 600_000);
    assert_eq!(config.secondary_window_size, 500_000);
    assert_eq!(config.outer_padding, 6);
    assert_eq!(config.view_padding, 6);
    assert_eq!(config.scroll_offset, 0);
}

#[test]
fn default_scenario_three_views() {
    let mut carousel = Carousel::new(Config::default());
    let layout = carousel.generate_layout(3, 1206, 768, 1, "HDMI-A-1").unwrap();
    assert_eq!(layout.layout_name, "carousel");
    assert_eq!(
        layout.views,
        vec![rect(6, 6, 712, 756), rect(724, 6, 476, 375), rect(724, 387, 476, 375)]
    );
}

#[test]
fn view_count_matches_request() {
    for n in 0..12u32 {
        assert_eq!(layout_of(Config::default(), n, 1206, 768).len(), n as usize);
    }
}

#[test]
fn main_view_is_first_whatever_the_count_or_scroll() {
    let main = rect(6, 6, 712, 756);
    for n in 1..6u32 {
        assert_eq!(layout_of(Config::default(), n, 1206, 768)[0], main);
    }
    let mut scrolled = Config::default();
    scrolled.scroll_offset = 2_750_000;
    assert_eq!(layout_of(scrolled, 4, 1206, 768)[0], main);
}

#[test]
fn one_window_of_offset_moves_one_stride() {
    let base = layout_of(Config::default(), 5, 1206, 768);
    let mut config = Config::default();
    config.scroll_offset = 1_000_000;
    let moved = layout_of(config, 5, 1206, 768);
    for i in 1..5 {
        assert_eq!(moved[i].x, base[i].x);
        assert_eq!(moved[i].y, base[i].y - 381);
        assert_eq!(moved[i].height, base[i].height);
    }
    assert_eq!(base[3], rect(724, 768, 476, 375));
}

#[test]
fn fractional_offset_rounds_toward_zero() {
    let mut config = Config::default();
    config.scroll_offset = 500_000;
    assert_eq!(layout_of(config, 2, 1206, 768)[1], rect(724, -184, 476, 375));
    config.scroll_offset = -500_000;
    assert_eq!(layout_of(config, 2, 1206, 768)[1], rect(724, 196, 476, 375));
}

#[test]
fn half_size_windows_fill_the_strip() {
    let views = layout_of(Config::default(), 2, 1206, 768);
    assert_eq!(2 * views[1].height + 6, 756);
}

#[test]
fn right_edge_layout() {
    let views = layout_of(with_edge(Edge::Right), 3, 1206, 768);
    assert_eq!(views, vec![rect(488, 6, 712, 756), rect(6, 6, 476, 375), rect(6, 387, 476, 375)]);
}

#[test]
fn top_edge_layout() {
    let views = layout_of(with_edge(Edge::Top), 3, 1206, 768);
    assert_eq!(views, vec![rect(6, 6, 1194, 450), rect(6, 462, 594, 300), rect(606, 462, 594, 300)]);
}

#[test]
fn bottom_edge_layout() {
    let views = layout_of(with_edge(Edge::Bottom), 3, 1206, 768);
    assert_eq!(views, vec![rect(6, 312, 1194, 450), rect(6, 6, 594, 300), rect(606, 6, 594, 300)]);
}

#[test]
fn too_small_output_is_degenerate() {
    let mut carousel = Carousel::new(Config::default());
    let result = carousel.generate_layout(2, 10, 768, 0, "out");
    assert_eq!(result.err(), Some(Error::DegenerateArea));
}

#[test]
fn far_scroll_saturates_positions() {
    let mut config = Config::default();
    config.scroll_offset = -9_000_000_000_000_000_000;
    let views = layout_of(config, 3, 1206, 768);
    assert_eq!(views[1].y, i32::MAX);
    assert_eq!(views[0], rect(6, 6, 712, 756));
}

#[test]
fn scroll_there_and_back() {
    let mut carousel = Carousel::new(Config::default());
    let before = carousel.generate_layout(4, 1206, 768, 0, "out").unwrap().views;
    carousel.user_cmd("scroll 3".to_string(), None, "out").unwrap();
    assert_eq!(carousel.config().scroll_offset, 3_000_000);
    let during = carousel.generate_layout(4, 1206, 768, 0, "out").unwrap().views;
    assert_ne!(during, before);
    carousel.user_cmd("scroll -3".to_string(), Some(1), "out").unwrap();
    assert_eq!(carousel.config().scroll_offset, 0);
    assert_eq!(carousel.generate_layout(4, 1206, 768, 0, "out").unwrap().views, before);
}

#[test]
fn scroll_without_amount_is_missing_argument() {
    let mut carousel = Carousel::new(Config::default());
    assert_eq!(
        carousel.user_cmd("scroll".to_string(), None, "out"),
        Err(Error::MissingArgument("amount"))
    );
    assert_eq!(carousel.config().scroll_offset, 0);
}

#[test]
fn scroll_with_bad_amount_is_invalid_argument() {
    let mut carousel = Carousel::new(Config::default());
    for bad in [
        "scroll abc",
        "scroll .",
        "scroll --1",
        "scroll 1.2.3",
        "scroll 1e",
        "scroll e3",
        "scroll 1e3.5",
        "scroll 1e+",
        "scroll inf",
        "scroll 99999999999999",
        "scroll 1e99999999999999999999999",
    ] {
        assert_eq!(
            carousel.user_cmd(bad.to_string(), None, "out"),
            Err(Error::InvalidArgument("amount"))
        );
    }
    assert_eq!(carousel.config().scroll_offset, 0);
}

#[test]
fn unknown_command_names_its_verb() {
    let mut carousel = Carousel::new(Config::default());
    assert_eq!(
        carousel.user_cmd("frobnicate now".to_string(), None, "out"),
        Err(Error::UnknownCommand("frobnicate".to_string()))
    );
    assert_eq!(
        carousel.user_cmd("   ".to_string(), None, "out"),
        Err(Error::UnknownCommand(String::new()))
    );
}

#[test]
fn scroll_amounts_accumulate() {
    let mut carousel = Carousel::new(Config::default());
    carousel.user_cmd("  scroll\t2.5  extra".to_string(), None, "out").unwrap();
    assert_eq!(carousel.config().scroll_offset, 2_500_000);
    carousel.user_cmd("scroll -0.25".to_string(), None, "out").unwrap();
    assert_eq!(carousel.config().scroll_offset, 2_250_000);
    carousel.user_cmd("scroll +.5".to_string(), None, "out").unwrap();
    assert_eq!(carousel.config().scroll_offset, 2_750_000);
    carousel.user_cmd("scroll 3.".to_string(), None, "out").unwrap();
    assert_eq!(carousel.config().scroll_offset, 5_750_000);
    carousel.user_cmd("scroll 0.1234567".to_string(), None, "out").unwrap();
    assert_eq!(carousel.config().scroll_offset, 5_873_456);
}

#[test]
fn scroll_offset_saturates() {
    let mut config = Config::default();
    config.scroll_offset = i64::MAX - 1;
    let mut carousel = Carousel::new(config);
    carousel.user_cmd("scroll 1".to_string(), None, "out").unwrap();
    assert_eq!(carousel.config().scroll_offset, i64::MAX);
}

#[test]
fn scroll_amount_with_exponent() {
    let mut carousel = Carousel::new(Config::default());
    carousel.user_cmd("scroll 1e3".to_string(), None, "out").unwrap();
    assert_eq!(carousel.config().scroll_offset, 1_000_000_000);
    carousel.user_cmd("scroll -1.5e+2".to_string(), None, "out").unwrap();
    assert_eq!(carousel.config().scroll_offset, 850_000_000);
    carousel.user_cmd("scroll 2.5E-1".to_string(), None, "out").unwrap();
    assert_eq!(carousel.config().scroll_offset, 850_250_000);
    carousel.user_cmd("scroll 123456789e-8".to_string(), None, "out").unwrap();
    assert_eq!(carousel.config().scroll_offset, 851_484_567);
    carousel.user_cmd("scroll 1e-7".to_string(), None, "out").unwrap();
    assert_eq!(carousel.config().scroll_offset, 851_484_567);
    carousel.user_cmd("scroll 0e999999999999999999999999".to_string(), None, "out").unwrap();
    assert_eq!(carousel.config().scroll_offset, 851_484_567);
    carousel.user_cmd("scroll -851.484567".to_string(), None, "out").unwrap();
    assert_eq!(carousel.config().scroll_offset, 0);
}

#[test]
fn full_ratios_without_padding_still_fit() {
    let mut config = Config::default();
    config.main_ratio = 1_000_000;
    config.secondary_window_size = 1_000_000;
    config.outer_padding = 0;
    config.view_padding = 0;
    assert_eq!(layout_of(config, 2, 100, 100), vec![rect(0, 0, 100, 100), rect(100, 0, 0, 100)]);
}

use river_layouts::geometry::Rectangle;
use river_layouts::uniform_grid::{Config, Error, Grid, UniformGrid};

fn rect(x: i32, y: i32, width: u32, height: u32) -> Rectangle {
    Rectangle { x, y, width, height }
}

#[test]
fn grid_default_config_values() {
    let config = Config::default();
    assert_eq!(config.target_aspect_width, 16);
    assert_eq!(config.target_aspect_height, 9);
    assert_eq!(config.outer_padding, 6);
    assert_eq!(config.view_padding, 6);
}

#[test]
fn grid_view_count_matches_request() {
    let mut grid = UniformGrid::new(Config::default());
    for n in 0..20u32 {
        let layout = grid.generate_layout(n, 1920, 1080, 0, "out").unwrap();
        assert_eq!(layout.views.len(), n as usize);
    }
}

#[test]
fn grid_shapes_on_a_wide_output() {
    let grid = UniformGrid::new(Config::default());
    let shapes: Vec<(u32, u32)> = [1u32, 2, 3, 4, 5, 6, 7, 9, 10]
        .iter()
        .map(|n| {
            let g = grid.grid_size(*n, 1920, 1080);
            (g.columns, g.rows)
        })
        .collect();
    assert_eq!(shapes, vec![(1, 1), (2, 1), (2, 2), (2, 2), (3, 2), (3, 2), (3, 3), (3, 3), (4, 3)]);
}

#[test]
fn grid_holds_every_view() {
    let grid = UniformGrid::new(Config::default());
    for n in 1..60u32 {
        let Grid { columns, rows } = grid.grid_size(n, 1920, 1080);
        assert!(columns * rows >= n);
        assert!((columns - 1) * rows < n || columns * (rows - 1) < n);
    }
}

#[test]
fn grid_snake_order_two_rows_three_columns() {
    let mut grid = UniformGrid::new(Config::default());
    let layout = grid.generate_layout(6, 1920, 1080, 0, "out").unwrap();
    assert_eq!(layout.layout_name, "uniform-grid: 2x3");
    assert_eq!(
        layout.views,
        vec![
            rect(6, 6, 632, 531),
            rect(644, 6, 632, 531),
            rect(1282, 6, 632, 531),
            rect(1282, 543, 632, 531),
            rect(644, 543, 632, 531),
            rect(6, 543, 632, 531),
        ]
    );
}

#[test]
fn grid_single_view_fills_the_output() {
    let mut grid = UniformGrid::new(Config::default());
    let layout = grid.generate_layout(1, 1920, 1080, 0, "out").unwrap();
    assert_eq!(layout.layout_name, "uniform-grid: 1x1");
    assert_eq!(layout.views, vec![rect(6, 6, 1908, 1068)]);
}

#[test]
fn grid_no_views_is_empty() {
    let mut grid = UniformGrid::new(Config::default());
    let layout = grid.generate_layout(0, 4, 4, 0, "out").unwrap();
    assert_eq!(layout.layout_name, "uniform-grid: 1x1");
    assert!(layout.views.is_empty());
}

#[test]
fn grid_tall_cells_on_square_output() {
    let mut grid = UniformGrid::new(Config::default());
    let layout = grid.generate_layout(3, 1000, 1000, 0, "out").unwrap();
    assert_eq!(layout.layout_name, "uniform-grid: 3x1");
    assert_eq!(layout.views, vec![rect(6, 6, 988, 325), rect(6, 337, 988, 325), rect(6, 668, 988, 325)]);
}

#[test]
fn grid_ten_views_name() {
    let mut grid = UniformGrid::new(Config::default());
    let layout = grid.generate_layout(10, 1920, 1080, 0, "out").unwrap();
    assert_eq!(layout.layout_name, "uniform-grid: 3x4");
    assert_eq!(layout.views[4], rect(1441, 364, 472, 352));
}

#[test]
fn grid_too_small_output_is_degenerate() {
    let mut grid = UniformGrid::new(Config::default());
    assert_eq!(grid.generate_layout(1, 4, 4, 0, "out").err(), Some(Error::DegenerateArea));
}

#[test]
fn grid_rejects_every_command() {
    let mut grid = UniformGrid::new(Config::default());
    assert_eq!(
        grid.user_cmd("scroll 1".to_string(), None, "out"),
        Err(Error::UnknownCommand("scroll".to_string()))
    );
    assert_eq!(
        grid.user_cmd("frobnicate".to_string(), None, "out"),
        Err(Error::UnknownCommand("frobnicate".to_string()))
    );
}

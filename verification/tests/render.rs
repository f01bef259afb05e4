use mandelbrot::grid::SampleResult;
use mandelbrot::palette::{get_palette, PresetPalette};
use mandelbrot::range::ColorRange;
use mandelbrot::render::{color_of, create_image};

fn grid_of(columns: Vec<Vec<Option<u64>>>) -> SampleResult {
    SampleResult {
        x_res: columns.len() as u32,
        y_res: columns.first().map_or(0, |column| column.len() as u32),
        grid: columns,
    }
}

fn offsets(value: u64, min: u64, max: u64) -> [u8; 3] {
    [(value - min) as u8, (max - value) as u8, (max - min) as u8]
}

fn never(_: u64, _: u64, _: u64) -> [u8; 3] {
    panic!("no blend is asked for")
}

#[test]
fn a_cell_without_estimate_has_the_background_colour() {
    let black = [0, 0, 0];
    for palette in [PresetPalette::Viridis, PresetPalette::BlackWhite, PresetPalette::Aurora] {
        let stops = get_palette(&palette);
        for range in [
            ColorRange { min: 0, max: 0 },
            ColorRange { min: 7, max: 7 },
            ColorRange { min: 1, max: 200 },
            ColorRange { min: 0, max: u64::MAX },
        ] {
            assert_eq!(color_of(None, &range, &stops, &never), black);
        }
    }
    assert_eq!(color_of(None, &ColorRange { min: 9, max: 1 }, &Vec::new(), &never), black);
}

#[test]
fn a_range_of_one_value_gives_the_first_stop() {
    let range = ColorRange { min: 40, max: 40 };
    let aurora = get_palette(&PresetPalette::Aurora);
    assert_eq!(color_of(Some(40), &range, &aurora, &never), [0x00, 0x1a, 0x33]);
    assert_eq!(color_of(Some(0), &range, &aurora, &never), [0x00, 0x1a, 0x33]);
    assert_eq!(color_of(Some(u64::MAX), &range, &aurora, &never), [0x00, 0x1a, 0x33]);
    let black_white = get_palette(&PresetPalette::BlackWhite);
    assert_eq!(color_of(Some(40), &range, &black_white, &never), [255, 255, 255]);
    let viridis = get_palette(&PresetPalette::Viridis);
    assert_eq!(color_of(Some(40), &range, &viridis, &never), [0, 0, 0]);
}

#[test]
fn an_estimate_inside_the_range_is_blended_as_it_is() {
    let range = ColorRange { min: 10, max: 60 };
    let stops = get_palette(&PresetPalette::Viridis);
    assert_eq!(color_of(Some(25), &range, &stops, &offsets), [15, 35, 50]);
    assert_eq!(color_of(Some(10), &range, &stops, &offsets), [0, 50, 50]);
    assert_eq!(color_of(Some(60), &range, &stops, &offsets), [50, 0, 50]);
}

#[test]
fn an_estimate_outside_the_range_is_moved_to_its_end() {
    let range = ColorRange { min: 10, max: 60 };
    let stops = get_palette(&PresetPalette::Viridis);
    assert_eq!(color_of(Some(61), &range, &stops, &offsets), [50, 0, 50]);
    assert_eq!(color_of(Some(u64::MAX), &range, &stops, &offsets), [50, 0, 50]);
    assert_eq!(color_of(Some(9), &range, &stops, &offsets), [0, 50, 50]);
    assert_eq!(color_of(Some(0), &range, &stops, &offsets), [0, 50, 50]);
}

#[test]
fn create_image_colours_each_cell_at_its_place() {
    let data = grid_of(vec![
        vec![Some(50), None],
        vec![Some(30), Some(90)],
        vec![Some(10), Some(70)],
    ]);
    let image = create_image(PresetPalette::Viridis, data, 3, &offsets);
    assert_eq!(image.pixel(0, 0), Some([40, 20, 60]));
    assert_eq!(image.pixel(0, 1), Some([0, 0, 0]));
    assert_eq!(image.pixel(1, 0), Some([20, 40, 60]));
    assert_eq!(image.pixel(1, 1), Some([60, 0, 60]));
    assert_eq!(image.pixel(2, 0), Some([0, 60, 60]));
    assert_eq!(image.pixel(2, 1), Some([60, 0, 60]));
}

#[test]
fn pixels_outside_the_raster_are_none() {
    let data = grid_of(vec![vec![Some(1), Some(2)], vec![Some(3), Some(4)], vec![None, None]]);
    let image = create_image(PresetPalette::Aurora, data, 9, &offsets);
    assert_eq!(image.pixel(2, 1), Some([0, 0, 0]));
    assert_eq!(image.pixel(3, 0), None);
    assert_eq!(image.pixel(3, 1), None);
    assert_eq!(image.pixel(0, 2), None);
    assert_eq!(image.pixel(2, 2), None);
    assert_eq!(image.pixel(u32::MAX, u32::MAX), None);
}

#[test]
fn a_grid_without_estimates_gives_an_image_of_the_background() {
    let data = grid_of(vec![vec![None; 4]; 5]);
    let image = create_image(PresetPalette::BlackWhite, data, 0, &never);
    for x in 0..5 {
        for y in 0..4 {
            assert_eq!(image.pixel(x, y), Some([0, 0, 0]));
        }
    }
    assert_eq!(image.pixel(5, 0), None);
    assert_eq!(image.pixel(0, 4), None);
}

#[test]
fn a_grid_of_equal_estimates_gives_the_first_stop() {
    let data = grid_of(vec![vec![Some(6), None], vec![Some(6), Some(6)]]);
    let image = create_image(PresetPalette::BlackWhite, data, 1, &never);
    assert_eq!(image.pixel(0, 0), Some([255, 255, 255]));
    assert_eq!(image.pixel(0, 1), Some([0, 0, 0]));
    assert_eq!(image.pixel(1, 0), Some([255, 255, 255]));
    assert_eq!(image.pixel(1, 1), Some([255, 255, 255]));
}

#[test]
fn an_image_of_no_cells() {
    let image = create_image(PresetPalette::Viridis, grid_of(vec![]), 0, &never);
    assert_eq!(image.pixel(0, 0), None);
}

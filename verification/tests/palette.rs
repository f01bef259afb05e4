use mandelbrot::palette::{
    get_palette, hex_to_rgb, palette_to_rgb, parse_hex_color, sample_palette, PresetPalette,
};

#[test]
fn hex_to_rgb_reads_three_channels() {
    assert_eq!(hex_to_rgb("#1ea187"), [0x1e, 0xa1, 0x87]);
    assert_eq!(hex_to_rgb("#FFFFFF"), [255, 255, 255]);
    assert_eq!(hex_to_rgb("#000000"), [0, 0, 0]);
    assert_eq!(hex_to_rgb("#0a0B0c"), [10, 11, 12]);
    assert_eq!(hex_to_rgb("#ff6600"), [255, 102, 0]);
}

#[test]
fn hex_to_rgb_skips_every_leading_hash() {
    assert_eq!(hex_to_rgb("1ea187"), [0x1e, 0xa1, 0x87]);
    assert_eq!(hex_to_rgb("###1ea187"), [0x1e, 0xa1, 0x87]);
}

#[test]
fn hex_to_rgb_reads_no_more_than_six_characters() {
    assert_eq!(hex_to_rgb("#1ea187ff"), [0x1e, 0xa1, 0x87]);
    assert_eq!(hex_to_rgb("#1ea187 and more"), [0x1e, 0xa1, 0x87]);
    assert_eq!(hex_to_rgb("#102030#"), [0x10, 0x20, 0x30]);
}

#[test]
fn a_channel_may_be_a_plus_sign_and_a_digit() {
    assert_eq!(parse_hex_color("#+F+a+0"), Some([15, 10, 0]));
    assert_eq!(parse_hex_color("#++0000"), None);
    assert_eq!(parse_hex_color("#F+0000"), None);
    assert_eq!(parse_hex_color("#-F0000"), None);
}

#[test]
fn parse_hex_color_agrees_with_hex_to_rgb() {
    for name in ["#440c54", "#47337e", "9eda3a", "##330033"] {
        assert_eq!(parse_hex_color(name), Some(hex_to_rgb(name)));
    }
}

#[test]
fn texts_that_denote_no_colour() {
    assert_eq!(parse_hex_color(""), None);
    assert_eq!(parse_hex_color("#"), None);
    assert_eq!(parse_hex_color("######"), None);
    assert_eq!(parse_hex_color("#12345"), None);
    assert_eq!(parse_hex_color("#12345g"), None);
    assert_eq!(parse_hex_color("#1234 6"), None);
    assert_eq!(parse_hex_color("#12#456"), None);
    assert_eq!(parse_hex_color("0x123456"), None);
    assert_eq!(parse_hex_color("#\u{e9}12345"), None);
    assert_eq!(parse_hex_color("#1234\u{ff11}\u{ff12}"), None);
}

#[test]
fn palette_to_rgb_keeps_the_order() {
    assert_eq!(
        palette_to_rgb(vec!["#010203", "#a0b0c0", "#FFFFFF"]),
        vec![[1, 2, 3], [0xa0, 0xb0, 0xc0], [255, 255, 255]]
    );
    assert_eq!(palette_to_rgb(vec![]), Vec::<[u8; 3]>::new());
}

#[test]
fn the_black_and_white_palette() {
    assert_eq!(get_palette(&PresetPalette::BlackWhite), vec![[255, 255, 255], [0, 0, 0]]);
}

#[test]
fn the_viridis_palette() {
    assert_eq!(
        get_palette(&PresetPalette::Viridis),
        vec![
            [0x00, 0x00, 0x00],
            [0x44, 0x0c, 0x54],
            [0x47, 0x33, 0x7e],
            [0x36, 0x5c, 0x8d],
            [0x27, 0x7f, 0x8e],
            [0x1e, 0xa1, 0x87],
            [0x49, 0xc2, 0x6c],
            [0x9e, 0xda, 0x3a],
            [0x9e, 0xda, 0x3a],
        ]
    );
}

#[test]
fn the_aurora_palette() {
    assert_eq!(
        get_palette(&PresetPalette::Aurora),
        vec![
            [0x00, 0x1a, 0x33],
            [0x00, 0x3d, 0x66],
            [0x00, 0x7f, 0x7f],
            [0x00, 0xb3, 0x4d],
            [0xb3, 0xef, 0x00],
            [0xff, 0xd9, 0x66],
            [0xff, 0x66, 0x00],
            [0x99, 0x00, 0x4d],
            [0x33, 0x00, 0x33],
        ]
    );
}

#[test]
fn every_palette_has_two_stops_or_more() {
    for palette in [PresetPalette::Viridis, PresetPalette::BlackWhite, PresetPalette::Aurora] {
        assert!(get_palette(&palette).len() >= 2);
    }
}

#[test]
fn the_default_palette_is_viridis() {
    assert_eq!(PresetPalette::default(), PresetPalette::Viridis);
}

#[test]
fn sample_palette_hands_over_a_stop_and_the_next() {
    assert_eq!(sample_palette(&PresetPalette::Aurora, 0, &|a, _| a), [0x00, 0x1a, 0x33]);
    assert_eq!(sample_palette(&PresetPalette::Aurora, 0, &|_, b| b), [0x00, 0x3d, 0x66]);
    assert_eq!(sample_palette(&PresetPalette::Aurora, 3, &|a, _| a), [0x00, 0xb3, 0x4d]);
    assert_eq!(sample_palette(&PresetPalette::Aurora, 3, &|_, b| b), [0xb3, 0xef, 0x00]);
    assert_eq!(
        sample_palette(&PresetPalette::Aurora, 3, &|a, b| [a[1], b[0], b[2]]),
        [0xb3, 0xb3, 0x00]
    );
}

#[test]
fn sample_palette_stops_at_the_last_stop() {
    let last = [0x33, 0x00, 0x33];
    assert_eq!(sample_palette(&PresetPalette::Aurora, 7, &|a, _| a), [0x99, 0x00, 0x4d]);
    assert_eq!(sample_palette(&PresetPalette::Aurora, 7, &|_, b| b), last);
    assert_eq!(sample_palette(&PresetPalette::Aurora, 8, &|a, _| a), last);
    assert_eq!(sample_palette(&PresetPalette::Aurora, 8, &|_, b| b), last);
    assert_eq!(sample_palette(&PresetPalette::Aurora, 9, &|a, _| a), last);
    assert_eq!(sample_palette(&PresetPalette::Aurora, usize::MAX, &|_, b| b), last);
    assert_eq!(sample_palette(&PresetPalette::BlackWhite, 1, &|a, _| a), [0, 0, 0]);
}

#[test]
fn sample_palette_mixes_as_a_linear_blend_would() {
    let halfway = |a: [u8; 3], b: [u8; 3]| {
        let mix = |p: u8, q: u8| (p as f64 + (q as f64 - p as f64) * 0.5) as u8;
        [mix(a[0], b[0]), mix(a[1], b[1]), mix(a[2], b[2])]
    };
    assert_eq!(sample_palette(&PresetPalette::BlackWhite, 0, &halfway), [127, 127, 127]);
    assert_eq!(sample_palette(&PresetPalette::Viridis, 1, &halfway), [0x45, 0x1f, 0x69]);
}

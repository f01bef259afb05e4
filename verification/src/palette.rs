//! The built-in palettes: each an ordered list of colour stops, written as
//! hexadecimal colour strings.

use vstd::prelude::*;
use vstd::string::StrSliceExecFns;

verus! {

/// The palettes to choose from.
#[derive(Clone, Copy, Debug, PartialEq, Eq, Structural)]
pub enum PresetPalette {
    Viridis,
    BlackWhite,
    Aurora,
}

impl Default for PresetPalette {
    fn default() -> (palette: PresetPalette)
        ensures
            palette == PresetPalette::Viridis,
    {
        PresetPalette::Viridis
    }
}

/// The value of a hexadecimal digit, in either case.
pub open spec fn hex_digit(c: char) -> Option<int> {
    if '0' <= c <= '9' {
        Some(c as u32 - '0' as u32)
    } else if 'a' <= c <= 'f' {
        Some(c as u32 - 'a' as u32 + 10)
    } else if 'A' <= c <= 'F' {
        Some(c as u32 - 'A' as u32 + 10)
    } else {
        None
    }
}

/// The value of a channel written as the two characters `high` and `low`:
/// two hexadecimal digits, or a plus sign and one digit.
pub open spec fn hex_channel(high: char, low: char) -> Option<u8> {
    match hex_digit(low) {
        None => None,
        Some(units) => if high == '+' {
            Some(units as u8)
        } else {
            match hex_digit(high) {
                None => None,
                Some(sixteens) => Some((16 * sixteens + units) as u8),
            }
        },
    }
}

/// How many `#` the text starts with.
pub open spec fn leading_hashes(text: Seq<char>) -> nat
    decreases text.len(),
{
    if text.len() > 0 && text[0] == '#' {
        1 + leading_hashes(text.drop_first())
    } else {
        0
    }
}

/// The colour that six characters spell: three channels of two characters
/// each, red first.
pub open spec fn channels_of(
    r1: char,
    r0: char,
    g1: char,
    g0: char,
    b1: char,
    b0: char,
) -> Option<[u8; 3]> {
    match (hex_channel(r1, r0), hex_channel(g1, g0), hex_channel(b1, b0)) {
        (Some(red), Some(green), Some(blue)) => Some([red, green, blue]),
        _ => None,
    }
}

/// The colour that a text denotes: after any number of `#`, six characters
/// that spell a colour. What follows them is not read. `None` where the text
/// is too short or a channel is not well written.
pub open spec fn hex_color(text: Seq<char>) -> Option<[u8; 3]> {
    let digits = text.skip(leading_hashes(text) as int);
    if digits.len() < 6 {
        None
    } else {
        channels_of(digits[0], digits[1], digits[2], digits[3], digits[4], digits[5])
    }
}

/// A text that starts with `count` characters `#` and goes on with another
/// character, or ends there, has `count` leading `#`.
proof fn lemma_leading_hashes(text: Seq<char>, count: nat)
    requires
        count <= text.len(),
        forall|i: int| 0 <= i < count ==> text[i] == '#',
        count == text.len() || text[count as int] != '#',
    ensures
        leading_hashes(text) == count,
    decreases count,
{
    if count > 0 {
        lemma_leading_hashes(text.drop_first(), (count - 1) as nat);
    }
}

/// The value of a hexadecimal digit, or `None` for any other character.
fn hex_digit_value(c: char) -> (value: Option<u8>)
    ensures
        value is Some <==> hex_digit(c) is Some,
        value matches Some(v) ==> v == hex_digit(c)->0 && v < 16,
{
    let code: u32 = c as u32;
    if '0' as u32 <= code && code <= '9' as u32 {
        Some((code - '0' as u32) as u8)
    } else if 'a' as u32 <= code && code <= 'f' as u32 {
        Some((code - 'a' as u32 + 10) as u8)
    } else if 'A' as u32 <= code && code <= 'F' as u32 {
        Some((code - 'A' as u32 + 10) as u8)
    } else {
        None
    }
}

/// The value of a channel written as `high` and `low`, or `None` where the
/// two characters are no channel.
fn hex_channel_value(high: char, low: char) -> (value: Option<u8>)
    ensures
        value == hex_channel(high, low),
{
    match hex_digit_value(low) {
        None => None,
        Some(units) => {
            if high == '+' {
                Some(units)
            } else {
                match hex_digit_value(high) {
                    None => None,
                    Some(sixteens) => Some(16 * sixteens + units),
                }
            }
        },
    }
}

/// Reads a colour from a text such as `#1ea187`, or `None` where the text
/// denotes no colour.
pub fn parse_hex_color(hex: &str) -> (rgb: Option<[u8; 3]>)
    ensures
        rgb == hex_color(hex@),
{
    let len: usize = hex.unicode_len();
    let mut start: usize = 0;
    while start < len && hex.get_char(start) == '#'
        invariant
            start <= len,
            len == hex@.len(),
            forall|i: int| 0 <= i < start ==> hex@[i] == '#',
        decreases len - start,
    {
        start += 1;
    }
    proof {
        lemma_leading_hashes(hex@, start as nat);
    }
    if len - start < 6 {
        return None;
    }
    let red = hex_channel_value(hex.get_char(start), hex.get_char(start + 1));
    let green = hex_channel_value(hex.get_char(start + 2), hex.get_char(start + 3));
    let blue = hex_channel_value(hex.get_char(start + 4), hex.get_char(start + 5));
    match (red, green, blue) {
        (Some(r), Some(g), Some(b)) => {
            let rgb = [r, g, b];
            assert(rgb =~= hex_color(hex@)->0);
            Some(rgb)
        },
        _ => None,
    }
}

/// Reads a colour from a text such as `#1ea187`.
pub fn hex_to_rgb(hex: &str) -> (rgb: [u8; 3])
    requires
        hex_color(hex@) is Some,
    ensures
        Some(rgb) == hex_color(hex@),
{
    match parse_hex_color(hex) {
        Some(color) => color,
        None => unreached(),
    }
}

/// The colour stops that a list of colour strings denotes, in order.
pub fn palette_to_rgb(palette: Vec<&str>) -> (stops: Vec<[u8; 3]>)
    requires
        forall|i: int| 0 <= i < palette.len() ==> hex_color(#[trigger] palette[i]@) is Some,
    ensures
        stops.len() == palette.len(),
        forall|i: int| 0 <= i < stops.len() ==> Some(#[trigger] stops[i]) == hex_color(palette[i]@),
{
    let mut stops: Vec<[u8; 3]> = Vec::new();
    let mut i: usize = 0;
    while i < palette.len()
        invariant
            i <= palette.len(),
            stops.len() == i,
            forall|k: int| 0 <= k < palette.len() ==> hex_color(#[trigger] palette[k]@) is Some,
            forall|k: int| 0 <= k < i ==> Some(#[trigger] stops[k]) == hex_color(palette[k]@),
        decreases palette.len() - i,
    {
        stops.push(hex_to_rgb(palette[i]));
        i += 1;
    }
    stops
}

/// The stops of the black-and-white palette by position.
pub open spec fn black_white_stop(i: int) -> [u8; 3] {
    if i == 0 {
        [0xFFu8, 0xFFu8, 0xFFu8]
    } else {
        [0x00u8, 0x00u8, 0x00u8]
    }
}

/// The stops of the viridis palette by position.
pub open spec fn viridis_stop(i: int) -> [u8; 3] {
    if i == 0 {
        [0x00u8, 0x00u8, 0x00u8]
    } else if i == 1 {
        [0x44u8, 0x0cu8, 0x54u8]
    } else if i == 2 {
        [0x47u8, 0x33u8, 0x7eu8]
    } else if i == 3 {
        [0x36u8, 0x5cu8, 0x8du8]
    } else if i == 4 {
        [0x27u8, 0x7fu8, 0x8eu8]
    } else if i == 5 {
        [0x1eu8, 0xa1u8, 0x87u8]
    } else if i == 6 {
        [0x49u8, 0xc2u8, 0x6cu8]
    } else if i == 7 {
        [0x9eu8, 0xdau8, 0x3au8]
    } else {
        [0x9eu8, 0xdau8, 0x3au8]
    }
}

/// The stops of the aurora palette by position.
pub open spec fn aurora_stop(i: int) -> [u8; 3] {
    if i == 0 {
        [0x00u8, 0x1au8, 0x33u8]
    } else if i == 1 {
        [0x00u8, 0x3du8, 0x66u8]
    } else if i == 2 {
        [0x00u8, 0x7fu8, 0x7fu8]
    } else if i == 3 {
        [0x00u8, 0xb3u8, 0x4du8]
    } else if i == 4 {
        [0xb3u8, 0xefu8, 0x00u8]
    } else if i == 5 {
        [0xffu8, 0xd9u8, 0x66u8]
    } else if i == 6 {
        [0xffu8, 0x66u8, 0x00u8]
    } else if i == 7 {
        [0x99u8, 0x00u8, 0x4du8]
    } else {
        [0x33u8, 0x00u8, 0x33u8]
    }
}

/// The stops of each palette, first stop first.
pub open spec fn preset_stops(palette: PresetPalette) -> Seq<[u8; 3]> {
    match palette {
        PresetPalette::BlackWhite => Seq::new(2, |i: int| black_white_stop(i)),
        PresetPalette::Viridis => Seq::new(9, |i: int| viridis_stop(i)),
        PresetPalette::Aurora => Seq::new(9, |i: int| aurora_stop(i)),
    }
}

/// A `#` and six more characters denote the colour that the six spell.
proof fn lemma_hash_and_six(text: Seq<char>)
    requires
        text.len() == 7,
        text[0] == '#',
        text[1] != '#',
    ensures
        hex_color(text) == channels_of(text[1], text[2], text[3], text[4], text[5], text[6]),
{
    lemma_leading_hashes(text, 1);
}

/// What the colour strings of the black-and-white palette denote.
proof fn lemma_black_white_names()
    ensures
        hex_color("#FFFFFF"@) == Some([0xFFu8, 0xFFu8, 0xFFu8]),
        hex_color("#000000"@) == Some([0x00u8, 0x00u8, 0x00u8]),
{
    assert(hex_color("#FFFFFF"@) == Some([0xFFu8, 0xFFu8, 0xFFu8])) by {
        reveal_strlit("#FFFFFF");
        lemma_hash_and_six("#FFFFFF"@);
        assert(hex_color("#FFFFFF"@)->0 =~= [0xFFu8, 0xFFu8, 0xFFu8]);
    }
    assert(hex_color("#000000"@) == Some([0x00u8, 0x00u8, 0x00u8])) by {
        reveal_strlit("#000000");
        lemma_hash_and_six("#000000"@);
        assert(hex_color("#000000"@)->0 =~= [0x00u8, 0x00u8, 0x00u8]);
    }
}

/// What the colour strings of the viridis palette denote.
proof fn lemma_viridis_names()
    ensures
        hex_color("#000000"@) == Some([0x00u8, 0x00u8, 0x00u8]),
        hex_color("#440c54"@) == Some([0x44u8, 0x0cu8, 0x54u8]),
        hex_color("#47337e"@) == Some([0x47u8, 0x33u8, 0x7eu8]),
        hex_color("#365c8d"@) == Some([0x36u8, 0x5cu8, 0x8du8]),
        hex_color("#277f8e"@) == Some([0x27u8, 0x7fu8, 0x8eu8]),
        hex_color("#1ea187"@) == Some([0x1eu8, 0xa1u8, 0x87u8]),
        hex_color("#49c26c"@) == Some([0x49u8, 0xc2u8, 0x6cu8]),
        hex_color("#9eda3a"@) == Some([0x9eu8, 0xdau8, 0x3au8]),
{
    assert(hex_color("#000000"@) == Some([0x00u8, 0x00u8, 0x00u8])) by {
        reveal_strlit("#000000");
        lemma_hash_and_six("#000000"@);
        assert(hex_color("#000000"@)->0 =~= [0x00u8, 0x00u8, 0x00u8]);
    }
    assert(hex_color("#440c54"@) == Some([0x44u8, 0x0cu8, 0x54u8])) by {
        reveal_strlit("#440c54");
        lemma_hash_and_six("#440c54"@);
        assert(hex_color("#440c54"@)->0 =~= [0x44u8, 0x0cu8, 0x54u8]);
    }
    assert(hex_color("#47337e"@) == Some([0x47u8, 0x33u8, 0x7eu8])) by {
        reveal_strlit("#47337e");
        lemma_hash_and_six("#47337e"@);
        assert(hex_color("#47337e"@)->0 =~= [0x47u8, 0x33u8, 0x7eu8]);
    }
    assert(hex_color("#365c8d"@) == Some([0x36u8, 0x5cu8, 0x8du8])) by {
        reveal_strlit("#365c8d");
        lemma_hash_and_six("#365c8d"@);
        assert(hex_color("#365c8d"@)->0 =~= [0x36u8, 0x5cu8, 0x8du8]);
    }
    assert(hex_color("#277f8e"@) == Some([0x27u8, 0x7fu8, 0x8eu8])) by {
        reveal_strlit("#277f8e");
        lemma_hash_and_six("#277f8e"@);
        assert(hex_color("#277f8e"@)->0 =~= [0x27u8, 0x7fu8, 0x8eu8]);
    }
    assert(hex_color("#1ea187"@) == Some([0x1eu8, 0xa1u8, 0x87u8])) by {
        reveal_strlit("#1ea187");
        lemma_hash_and_six("#1ea187"@);
        assert(hex_color("#1ea187"@)->0 =~= [0x1eu8, 0xa1u8, 0x87u8]);
    }
    assert(hex_color("#49c26c"@) == Some([0x49u8, 0xc2u8, 0x6cu8])) by {
        reveal_strlit("#49c26c");
        lemma_hash_and_six("#49c26c"@);
        assert(hex_color("#49c26c"@)->0 =~= [0x49u8, 0xc2u8, 0x6cu8]);
    }
    assert(hex_color("#9eda3a"@) == Some([0x9eu8, 0xdau8, 0x3au8])) by {
        reveal_strlit("#9eda3a");
        lemma_hash_and_six("#9eda3a"@);
        assert(hex_color("#9eda3a"@)->0 =~= [0x9eu8, 0xdau8, 0x3au8]);
    }
}

/// What the colour strings of the aurora palette denote.
proof fn lemma_aurora_names()
    ensures
        hex_color("#001a33"@) == Some([0x00u8, 0x1au8, 0x33u8]),
        hex_color("#003d66"@) == Some([0x00u8, 0x3du8, 0x66u8]),
        hex_color("#007f7f"@) == Some([0x00u8, 0x7fu8, 0x7fu8]),
        hex_color("#00b34d"@) == Some([0x00u8, 0xb3u8, 0x4du8]),
        hex_color("#b3ef00"@) == Some([0xb3u8, 0xefu8, 0x00u8]),
        hex_color("#ffd966"@) == Some([0xffu8, 0xd9u8, 0x66u8]),
        hex_color("#ff6600"@) == Some([0xffu8, 0x66u8, 0x00u8]),
        hex_color("#99004d"@) == Some([0x99u8, 0x00u8, 0x4du8]),
        hex_color("#330033"@) == Some([0x33u8, 0x00u8, 0x33u8]),
{
    assert(hex_color("#001a33"@) == Some([0x00u8, 0x1au8, 0x33u8])) by {
        reveal_strlit("#001a33");
        lemma_hash_and_six("#001a33"@);
        assert(hex_color("#001a33"@)->0 =~= [0x00u8, 0x1au8, 0x33u8]);
    }
    assert(hex_color("#003d66"@) == Some([0x00u8, 0x3du8, 0x66u8])) by {
        reveal_strlit("#003d66");
        lemma_hash_and_six("#003d66"@);
        assert(hex_color("#003d66"@)->0 =~= [0x00u8, 0x3du8, 0x66u8]);
    }
    assert(hex_color("#007f7f"@) == Some([0x00u8, 0x7fu8, 0x7fu8])) by {
        reveal_strlit("#007f7f");
        lemma_hash_and_six("#007f7f"@);
        assert(hex_color("#007f7f"@)->0 =~= [0x00u8, 0x7fu8, 0x7fu8]);
    }
    assert(hex_color("#00b34d"@) == Some([0x00u8, 0xb3u8, 0x4du8])) by {
        reveal_strlit("#00b34d");
        lemma_hash_and_six("#00b34d"@);
        assert(hex_color("#00b34d"@)->0 =~= [0x00u8, 0xb3u8, 0x4du8]);
    }
    assert(hex_color("#b3ef00"@) == Some([0xb3u8, 0xefu8, 0x00u8])) by {
        reveal_strlit("#b3ef00");
        lemma_hash_and_six("#b3ef00"@);
        assert(hex_color("#b3ef00"@)->0 =~= [0xb3u8, 0xefu8, 0x00u8]);
    }
    assert(hex_color("#ffd966"@) == Some([0xffu8, 0xd9u8, 0x66u8])) by {
        reveal_strlit("#ffd966");
        lemma_hash_and_six("#ffd966"@);
        assert(hex_color("#ffd966"@)->0 =~= [0xffu8, 0xd9u8, 0x66u8]);
    }
    assert(hex_color("#ff6600"@) == Some([0xffu8, 0x66u8, 0x00u8])) by {
        reveal_strlit("#ff6600");
        lemma_hash_and_six("#ff6600"@);
        assert(hex_color("#ff6600"@)->0 =~= [0xffu8, 0x66u8, 0x00u8]);
    }
    assert(hex_color("#99004d"@) == Some([0x99u8, 0x00u8, 0x4du8])) by {
        reveal_strlit("#99004d");
        lemma_hash_and_six("#99004d"@);
        assert(hex_color("#99004d"@)->0 =~= [0x99u8, 0x00u8, 0x4du8]);
    }
    assert(hex_color("#330033"@) == Some([0x33u8, 0x00u8, 0x33u8])) by {
        reveal_strlit("#330033");
        lemma_hash_and_six("#330033"@);
        assert(hex_color("#330033"@)->0 =~= [0x33u8, 0x00u8, 0x33u8]);
    }
}

/// The colour strings of the black-and-white palette.
fn black_white_names() -> (names: Vec<&'static str>)
    ensures
        names.len() == preset_stops(PresetPalette::BlackWhite).len(),
        forall|i: int|
            0 <= i < names.len() ==> hex_color(#[trigger] names[i]@) == Some(
                preset_stops(PresetPalette::BlackWhite)[i],
            ),
{
    let names = vec![
        "#FFFFFF",
        "#000000",
    ];
    proof {
        lemma_black_white_names();
        assert(hex_color(names[0]@) == Some(preset_stops(PresetPalette::BlackWhite)[0]));
        assert(hex_color(names[1]@) == Some(preset_stops(PresetPalette::BlackWhite)[1]));
    }
    names
}

/// The colour strings of the viridis palette.
fn viridis_names() -> (names: Vec<&'static str>)
    ensures
        names.len() == preset_stops(PresetPalette::Viridis).len(),
        forall|i: int|
            0 <= i < names.len() ==> hex_color(#[trigger] names[i]@) == Some(
                preset_stops(PresetPalette::Viridis)[i],
            ),
{
    let names = vec![
        "#000000",
        "#440c54",
        "#47337e",
        "#365c8d",
        "#277f8e",
        "#1ea187",
        "#49c26c",
        "#9eda3a",
        "#9eda3a",
    ];
    proof {
        lemma_viridis_names();
        assert(hex_color(names[0]@) == Some(preset_stops(PresetPalette::Viridis)[0]));
        assert(hex_color(names[1]@) == Some(preset_stops(PresetPalette::Viridis)[1]));
        assert(hex_color(names[2]@) == Some(preset_stops(PresetPalette::Viridis)[2]));
        assert(hex_color(names[3]@) == Some(preset_stops(PresetPalette::Viridis)[3]));
        assert(hex_color(names[4]@) == Some(preset_stops(PresetPalette::Viridis)[4]));
        assert(hex_color(names[5]@) == Some(preset_stops(PresetPalette::Viridis)[5]));
        assert(hex_color(names[6]@) == Some(preset_stops(PresetPalette::Viridis)[6]));
        assert(hex_color(names[7]@) == Some(preset_stops(PresetPalette::Viridis)[7]));
        assert(hex_color(names[8]@) == Some(preset_stops(PresetPalette::Viridis)[8]));
    }
    names
}

/// The colour strings of the aurora palette.
fn aurora_names() -> (names: Vec<&'static str>)
    ensures
        names.len() == preset_stops(PresetPalette::Aurora).len(),
        forall|i: int|
            0 <= i < names.len() ==> hex_color(#[trigger] names[i]@) == Some(
                preset_stops(PresetPalette::Aurora)[i],
            ),
{
    let names = vec![
        "#001a33",
        "#003d66",
        "#007f7f",
        "#00b34d",
        "#b3ef00",
        "#ffd966",
        "#ff6600",
        "#99004d",
        "#330033",
    ];
    proof {
        lemma_aurora_names();
        assert(hex_color(names[0]@) == Some(preset_stops(PresetPalette::Aurora)[0]));
        assert(hex_color(names[1]@) == Some(preset_stops(PresetPalette::Aurora)[1]));
        assert(hex_color(names[2]@) == Some(preset_stops(PresetPalette::Aurora)[2]));
        assert(hex_color(names[3]@) == Some(preset_stops(PresetPalette::Aurora)[3]));
        assert(hex_color(names[4]@) == Some(preset_stops(PresetPalette::Aurora)[4]));
        assert(hex_color(names[5]@) == Some(preset_stops(PresetPalette::Aurora)[5]));
        assert(hex_color(names[6]@) == Some(preset_stops(PresetPalette::Aurora)[6]));
        assert(hex_color(names[7]@) == Some(preset_stops(PresetPalette::Aurora)[7]));
        assert(hex_color(names[8]@) == Some(preset_stops(PresetPalette::Aurora)[8]));
    }
    names
}

/// The colour stops of a palette, first stop first.
pub fn get_palette(palette: &PresetPalette) -> (stops: Vec<[u8; 3]>)
    ensures
        stops@ == preset_stops(*palette),
        stops.len() >= 2,
{
    let stops = palette_to_rgb(
        match palette {
            PresetPalette::BlackWhite => black_white_names(),
            PresetPalette::Viridis => viridis_names(),
            PresetPalette::Aurora => aurora_names(),
        },
    );
    assert(stops@ =~= preset_stops(*palette));
    stops
}

/// The two stops between which the position `index` of a palette lies: the
/// stop at `index` and the one after it, and the last stop in place of any
/// that would lie beyond it.
pub open spec fn segment(stops: Seq<[u8; 3]>, index: int) -> ([u8; 3], [u8; 3]) {
    let last = stops.len() - 1;
    if index < last {
        (stops[index], stops[index + 1])
    } else {
        (stops[last], stops[last])
    }
}

/// The colour of a palette at a position between two of its stops. The
/// position is the stop before it, `index`, and how far it lies towards the
/// next stop, which `mix` knows: the colour is what `mix` makes of the two
/// stops.
pub fn sample_palette<F: Fn([u8; 3], [u8; 3]) -> [u8; 3]>(
    palette: &PresetPalette,
    index: usize,
    mix: &F,
) -> (color: [u8; 3])
    requires
        mix.requires(segment(preset_stops(*palette), index as int)),
    ensures
        mix.ensures(segment(preset_stops(*palette), index as int), color),
{
    let palette_rgb = get_palette(palette);
    let last: usize = palette_rgb.len() - 1;
    if index < last {
        mix(palette_rgb[index], palette_rgb[index + 1])
    } else {
        mix(palette_rgb[last], palette_rgb[last])
    }
}

} // verus!

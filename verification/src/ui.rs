//! What the tray window shows: the system accent color, the theme, where the
//! popup window goes, the tray icon's pixels, and the saved settings.
use vstd::prelude::*;

use vstd::string::StringExecFns;

verus! {

broadcast use vstd::string::group_string_axioms;

/// The upper-case hexadecimal digit for `n` (below 16).
pub open spec fn hex_digit(n: int) -> char {
    if n < 10 {
        (48 + n) as char
    } else {
        (55 + n) as char
    }
}

/// The two upper-case hexadecimal digits of the byte `b`.
pub open spec fn hex_byte(b: int) -> Seq<char> {
    seq![hex_digit(b / 16), hex_digit(b % 16)]
}

/// The CSS color `#RRGGBB` of the accent value `accent`, which holds red in
/// its lowest byte, then green, then blue (`0xAABBGGRR`).
pub open spec fn accent_hex(accent: u32) -> Seq<char> {
    let a = accent as int;
    seq!['#'] + hex_byte(a % 256) + hex_byte((a / 256) % 256) + hex_byte((a / 65536) % 256)
}

/// The one-character string of the hexadecimal digit `n`.
fn hex_digit_str(n: u32) -> (r: &'static str)
    requires
        n < 16,
    ensures
        r@ == seq![hex_digit(n as int)],
{
    proof {
        reveal_strlit("0");
        reveal_strlit("1");
        reveal_strlit("2");
        reveal_strlit("3");
        reveal_strlit("4");
        reveal_strlit("5");
        reveal_strlit("6");
        reveal_strlit("7");
        reveal_strlit("8");
        reveal_strlit("9");
        reveal_strlit("A");
        reveal_strlit("B");
        reveal_strlit("C");
        reveal_strlit("D");
        reveal_strlit("E");
        reveal_strlit("F");
    }
    let r = match n {
        0 => "0",
        1 => "1",
        2 => "2",
        3 => "3",
        4 => "4",
        5 => "5",
        6 => "6",
        7 => "7",
        8 => "8",
        9 => "9",
        10 => "A",
        11 => "B",
        12 => "C",
        13 => "D",
        14 => "E",
        _ => "F",
    };
    assert(r@ =~= seq![hex_digit(n as int)]);
    r
}

/// Appends the two hexadecimal digits of `b` to `s`.
fn push_hex_byte(s: &mut String, b: u32)
    requires
        b < 256,
    ensures
        final(s)@ == old(s)@ + hex_byte(b as int),
{
    s.append(hex_digit_str(b / 16));
    s.append(hex_digit_str(b % 16));
    assert(final(s)@ =~= old(s)@ + hex_byte(b as int));
}

/// The accent color as `#RRGGBB` from the registry's `AccentColorMenu` value.
pub fn accent_color_hex(accent: u32) -> (r: String)
    ensures
        r@ == accent_hex(accent),
{
    let mut s = String::from_str("#");
    proof {
        reveal_strlit("#");
    }
    assert(s@ =~= seq!['#']);
    push_hex_byte(&mut s, accent % 256);
    push_hex_byte(&mut s, (accent / 256) % 256);
    push_hex_byte(&mut s, (accent / 65536) % 256);
    s
}

/// Every value below 16 gets the standard digit: `hex_digit(n)` is the
/// `n`-th character of "0123456789ABCDEF".
pub proof fn lemma_hex_digit_standard(n: int)
    requires
        0 <= n < 16,
    ensures
        hex_digit(n) == "0123456789ABCDEF"@[n],
{
    reveal_strlit("0123456789ABCDEF");
    let t = "0123456789ABCDEF"@;
    if n == 0 {
        assert(t[n] == '0');
    } else if n == 1 {
        assert(t[n] == '1');
    } else if n == 2 {
        assert(t[n] == '2');
    } else if n == 3 {
        assert(t[n] == '3');
    } else if n == 4 {
        assert(t[n] == '4');
    } else if n == 5 {
        assert(t[n] == '5');
    } else if n == 6 {
        assert(t[n] == '6');
    } else if n == 7 {
        assert(t[n] == '7');
    } else if n == 8 {
        assert(t[n] == '8');
    } else if n == 9 {
        assert(t[n] == '9');
    } else if n == 10 {
        assert(t[n] == 'A');
    } else if n == 11 {
        assert(t[n] == 'B');
    } else if n == 12 {
        assert(t[n] == 'C');
    } else if n == 13 {
        assert(t[n] == 'D');
    } else if n == 14 {
        assert(t[n] == 'E');
    } else {
        assert(t[n] == 'F');
    }
}

/// The accent color is written as `#` and then its red, green and blue bytes
/// (the lowest byte of the value first), each as two characters of
/// "0123456789ABCDEF", the high digit first.
pub proof fn lemma_accent_hex_digits(accent: u32)
    ensures
        ({
            let t = "0123456789ABCDEF"@;
            let r = accent as int % 256;
            let g = (accent as int / 256) % 256;
            let b = (accent as int / 65536) % 256;
            accent_hex(accent) == seq![
                '#',
                t[r / 16],
                t[r % 16],
                t[g / 16],
                t[g % 16],
                t[b / 16],
                t[b % 16],
            ]
        }),
{
    let r = accent as int % 256;
    let g = (accent as int / 256) % 256;
    let b = (accent as int / 65536) % 256;
    lemma_hex_digit_standard(r / 16);
    lemma_hex_digit_standard(r % 16);
    lemma_hex_digit_standard(g / 16);
    lemma_hex_digit_standard(g % 16);
    lemma_hex_digit_standard(b / 16);
    lemma_hex_digit_standard(b % 16);
    let t = "0123456789ABCDEF"@;
    assert(accent_hex(accent) =~= seq![
        '#',
        t[r / 16],
        t[r % 16],
        t[g / 16],
        t[g % 16],
        t[b / 16],
        t[b % 16],
    ]);
}

/// Whether the registry's `SystemUsesLightTheme` value means a dark theme.
pub fn is_dark_theme(system_uses_light_theme: u32) -> (r: bool)
    ensures
        r == (system_uses_light_theme == 0),
{
    system_uses_light_theme == 0
}

/// The popup window's width.
pub const POPUP_WIDTH: i32 = 300;

/// The popup window's height.
pub const POPUP_HEIGHT: i32 = 280;

/// The distance kept from the work area's edges when the popup is moved back in.
pub const POPUP_MARGIN: i32 = 210;

/// How far the popup overlaps the tray icon's bottom edge.
pub const TRAY_OVERLAP: i32 = 5;

/// The monitor's work area, in physical pixels.
#[derive(Clone, Copy, Debug, PartialEq, Eq, Structural)]
pub struct WorkArea {
    pub x: i32,
    pub y: i32,
    pub width: i32,
    pub height: i32,
}

/// `v` fits in an `i32`.
pub open spec fn fits_i32(v: int) -> bool {
    i32::MIN <= v <= i32::MAX
}

/// The first placement: below the tray icon, overlapping it a little.
pub open spec fn below_tray(tray_x: i32, tray_y: i32, tray_height: i32) -> (int, int) {
    (tray_x as int, tray_y + tray_height - TRAY_OVERLAP)
}

/// The vertical position after the first check: above the tray icon when the
/// popup would pass the work area's bottom.
pub open spec fn y_first(tray_y: i32, y0: int, bottom: int) -> int {
    if y0 + POPUP_HEIGHT > bottom {
        tray_y - POPUP_HEIGHT - POPUP_MARGIN
    } else {
        y0
    }
}

/// The horizontal position: moved in from the right edge, then from the left edge.
pub open spec fn x_placed(x0: int, a: WorkArea) -> int {
    let right = a.x + a.width;
    let x1 = if x0 + POPUP_WIDTH > right {
        right - POPUP_WIDTH - POPUP_MARGIN
    } else {
        x0
    };
    if x1 < a.x {
        a.x + POPUP_MARGIN
    } else {
        x1
    }
}

/// The vertical position: moved in from the top edge, then from the bottom edge.
pub open spec fn y_placed(y1: int, a: WorkArea) -> int {
    let bottom = a.y + a.height;
    let y2 = if y1 < a.y {
        a.y + POPUP_MARGIN
    } else {
        y1
    };
    if y2 + POPUP_HEIGHT > bottom {
        bottom - POPUP_HEIGHT - POPUP_MARGIN
    } else {
        y2
    }
}

/// Where the popup goes for a tray icon at (`tray_x`, `tray_y`) of height
/// `tray_height`, kept inside `work_area` when it is known.
pub open spec fn popup_place(tray_x: i32, tray_y: i32, tray_height: i32, work_area: Option<WorkArea>) -> (
    int,
    int,
) {
    let p = below_tray(tray_x, tray_y, tray_height);
    match work_area {
        None => p,
        Some(a) => {
            let y1 = y_first(tray_y, p.1, a.y + a.height);
            (x_placed(p.0, a), y_placed(y1, a))
        },
    }
}

/// Whether some `i32` step of the placement, as evaluated along the way the
/// conditions go, leaves the `i32` range.
pub open spec fn popup_overflows(tray_x: i32, tray_y: i32, tray_height: i32, work_area: Option<WorkArea>) -> bool {
    let s = tray_y + tray_height;
    let y0 = s - TRAY_OVERLAP;
    ||| !fits_i32(s)
    ||| !fits_i32(y0)
    ||| match work_area {
        None => false,
        Some(a) => {
            let right = a.x + a.width;
            let bottom = a.y + a.height;
            let y1 = y_first(tray_y, y0, bottom);
            let x1 = if tray_x + POPUP_WIDTH > right {
                right - POPUP_WIDTH - POPUP_MARGIN
            } else {
                tray_x as int
            };
            let y2 = if y1 < a.y {
                a.y + POPUP_MARGIN
            } else {
                y1
            };
            ||| !fits_i32(right)
            ||| !fits_i32(bottom)
            ||| !fits_i32(y0 + POPUP_HEIGHT)
            ||| (y0 + POPUP_HEIGHT > bottom && (!fits_i32(tray_y - POPUP_HEIGHT) || !fits_i32(
                y1,
            )))
            ||| !fits_i32(tray_x + POPUP_WIDTH)
            ||| (tray_x + POPUP_WIDTH > right && (!fits_i32(right - POPUP_WIDTH) || !fits_i32(
                x1,
            )))
            ||| (x1 < a.x && !fits_i32(a.x + POPUP_MARGIN))
            ||| (y1 < a.y && !fits_i32(y2))
            ||| !fits_i32(y2 + POPUP_HEIGHT)
            ||| (y2 + POPUP_HEIGHT > bottom && (!fits_i32(bottom - POPUP_HEIGHT) || !fits_i32(
                bottom - POPUP_HEIGHT - POPUP_MARGIN,
            )))
        },
    }
}

/// Whether `v` fits in an `i32`.
fn in_i32(v: i64) -> (r: bool)
    ensures
        r == fits_i32(v as int),
{
    i32::MIN as i64 <= v && v <= i32::MAX as i64
}

/// Where the popup window goes, or `None` where an `i32` step of the
/// placement would overflow.
pub fn popup_position(tray_x: i32, tray_y: i32, tray_height: i32, work_area: Option<WorkArea>) -> (r:
    Option<(i32, i32)>)
    ensures
        r is None <==> popup_overflows(tray_x, tray_y, tray_height, work_area),
        r matches Some(p) ==> (p.0 as int, p.1 as int) == popup_place(
            tray_x,
            tray_y,
            tray_height,
            work_area,
        ),
{
    let w = POPUP_WIDTH as i64;
    let h = POPUP_HEIGHT as i64;
    let m = POPUP_MARGIN as i64;
    let tx = tray_x as i64;
    let ty = tray_y as i64;
    let s = ty + tray_height as i64;
    if !in_i32(s) {
        return None;
    }
    let y0 = s - TRAY_OVERLAP as i64;
    if !in_i32(y0) {
        return None;
    }
    match work_area {
        None => Some((tx as i32, y0 as i32)),
        Some(a) => {
            let ax = a.x as i64;
            let ay = a.y as i64;
            let right = ax + a.width as i64;
            let bottom = ay + a.height as i64;
            if !in_i32(right) || !in_i32(bottom) || !in_i32(y0 + h) {
                return None;
            }
            let y1 = if y0 + h > bottom {
                if !in_i32(ty - h) || !in_i32(ty - h - m) {
                    return None;
                }
                ty - h - m
            } else {
                y0
            };
            if !in_i32(tx + w) {
                return None;
            }
            let x1 = if tx + w > right {
                if !in_i32(right - w) || !in_i32(right - w - m) {
                    return None;
                }
                right - w - m
            } else {
                tx
            };
            let x2 = if x1 < ax {
                if !in_i32(ax + m) {
                    return None;
                }
                ax + m
            } else {
                x1
            };
            let y2 = if y1 < ay {
                if !in_i32(ay + m) {
                    return None;
                }
                ay + m
            } else {
                y1
            };
            if !in_i32(y2 + h) {
                return None;
            }
            let y3 = if y2 + h > bottom {
                if !in_i32(bottom - h) || !in_i32(bottom - h - m) {
                    return None;
                }
                bottom - h - m
            } else {
                y2
            };
            Some((x2 as i32, y3 as i32))
        },
    }
}

/// Wherever the tray icon is, the popup ends up inside the work area along
/// each axis on which the work area has room for it and a margin: at least
/// `POPUP_WIDTH + POPUP_MARGIN` wide, the popup lies within its left and
/// right edges; at least `POPUP_HEIGHT + POPUP_MARGIN` high, within its top
/// and bottom edges, whether or not it was first moved above the tray icon.
pub proof fn lemma_popup_inside_work_area(tray_x: i32, tray_y: i32, tray_height: i32, a: WorkArea)
    ensures
        a.width >= POPUP_WIDTH + POPUP_MARGIN ==> a.x <= popup_place(
            tray_x,
            tray_y,
            tray_height,
            Some(a),
        ).0 && popup_place(tray_x, tray_y, tray_height, Some(a)).0 + POPUP_WIDTH <= a.x
            + a.width,
        a.height >= POPUP_HEIGHT + POPUP_MARGIN ==> a.y <= popup_place(
            tray_x,
            tray_y,
            tray_height,
            Some(a),
        ).1 && popup_place(tray_x, tray_y, tray_height, Some(a)).1 + POPUP_HEIGHT <= a.y
            + a.height,
{
}

/// The application's saved settings.
#[derive(Debug, Clone)]
pub struct AppConfig {
    pub default_device_id: Option<String>,
    pub advanced_material: bool,
}

impl AppConfig {
    /// No default device and the plain material.
    pub fn new() -> (r: Self)
        ensures
            r.default_device_id is None,
            !r.advanced_material,
    {
        AppConfig { default_device_id: None, advanced_material: false }
    }

    /// Applies a settings change: a given device id becomes the default
    /// device (an empty one clears it), a given material flag replaces the
    /// current one; what is not given stays.
    pub fn apply_update(&mut self, device_id: Option<String>, advanced_material: Option<bool>)
        ensures
            match device_id {
                Some(id) => if id@.len() == 0 {
                    final(self).default_device_id is None
                } else {
                    final(self).default_device_id == Some(id)
                },
                None => final(self).default_device_id == old(self).default_device_id,
            },
            final(self).advanced_material == match advanced_material {
                Some(m) => m,
                None => old(self).advanced_material,
            },
    {
        match device_id {
            Some(id) => {
                self.default_device_id = if id.as_str().is_empty() {
                    None
                } else {
                    Some(id)
                };
            },
            None => {},
        }
        match advanced_material {
            Some(material) => {
                self.advanced_material = material;
            },
            None => {},
        }
    }
}

impl Default for AppConfig {
    fn default() -> (r: Self)
        ensures
            r.default_device_id is None,
            !r.advanced_material,
    {
        AppConfig::new()
    }
}

/// Calls `image::load_from_memory` on `bytes` and converts the decoded image
/// to RGBA8 (`to_rgba8`), handing out its raw bytes and dimensions.  What is
/// decoded depends on the decoding hooks registered in the process and on
/// the formats built in, so the contract claims only what holds of every
/// decoded RGBA8 buffer: it has at least four bytes a pixel (an image buffer
/// refuses a smaller container).
#[verifier::external_body]
fn decode_rgba8(bytes: &[u8]) -> (r: Option<(Vec<u8>, u32, u32)>)
    ensures
        r matches Some(p) ==> p.0@.len() >= 4 * p.1 * p.2,
{
    match image::load_from_memory(bytes) {
        Ok(img) => {
            let rgba = img.to_rgba8();
            let (width, height) = rgba.dimensions();
            Some((rgba.into_raw(), width, height))
        },
        Err(_) => None,
    }
}

/// An icon's RGBA8 pixels and size.
pub struct IconPixels {
    pub rgba: Vec<u8>,
    pub width: u32,
    pub height: u32,
}

/// The icon that the encoded image `bytes` holds, or `None` when it cannot be
/// decoded; a decoded icon has its four bytes for every pixel.
pub fn load_icon_from_bytes(bytes: &[u8]) -> (r: Option<IconPixels>)
    ensures
        r matches Some(icon) ==> icon.rgba@.len() >= 4 * icon.width * icon.height,
{
    match decode_rgba8(bytes) {
        Some((rgba, width, height)) => Some(IconPixels { rgba, width, height }),
        None => None,
    }
}

/// The encoded tray icon for the theme: the white one on a dark theme, else
/// the black one.
pub fn tray_png<'a>(is_dark: bool, white_png: &'a [u8], black_png: &'a [u8]) -> (r: &'a [u8])
    ensures
        r@ == if is_dark {
            white_png@
        } else {
            black_png@
        },
{
    if is_dark {
        white_png
    } else {
        black_png
    }
}

/// The tray icon for the theme, decoded from the icon `tray_png` picks.
pub fn create_tray_icon(is_dark: bool, white_png: &[u8], black_png: &[u8]) -> (r: Option<
    IconPixels,
>)
    ensures
        r matches Some(icon) ==> icon.rgba@.len() >= 4 * icon.width * icon.height,
{
    load_icon_from_bytes(tray_png(is_dark, white_png, black_png))
}

} // verus!

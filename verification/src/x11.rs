//! Captures of X11 windows: the shortcut's key, pixels, window names, icons and desktop entries.

use vstd::arithmetic::div_mod::{
    lemma_div_denominator, lemma_div_pos_is_pos, lemma_fundamental_div_mod_converse,
};
use vstd::arithmetic::power2::{lemma2_to64, lemma_pow2_adds, lemma_pow2_pos, pow2};
use vstd::prelude::*;
use vstd::utf8::{decode_utf8, valid_utf8};

use crate::appshots::{
    png_dimensions, png_encode, png_encoding, png_size, shot_file, shot_name, stage_png_bytes,
    AccessibilitySnapshot, CapabilityState, CaptureError, CapturedAppshot,
};
use crate::ids::{fresh_id, is_uuid_v4};
use crate::semantic::SemanticCapture;
use crate::text::{
    ascii_folded, char_from, chars_of, find_char, folded, lemma_char_from,
    lemma_char_from_unique, opt_str, opt_text, rows,
    same_ignoring_case, same_str, spells, split_lines, string_of, text_lines, texts, trim, trimmed,
};

verus! {

pub const XK_SPACE: u32 = 0x20;

/// The visual classes whose pixels hold their colors.
pub const TRUE_COLOR: u8 = 4;

pub const DIRECT_COLOR: u8 = 5;

pub open spec fn failure(error: Seq<char>) -> Seq<char> {
    "X11 Appshot capture failed: "@ + error
}

/// A failed capture.
pub fn x11_failed(error: &str) -> (r: CaptureError)
    ensures
        r.says(failure(error@)),
{
    let mut message = "X11 Appshot capture failed: ".to_owned();
    message.push_str(error);
    CaptureError::CaptureFailed(message)
}

/// Whether the shortcut works, by whether its key could be grabbed.
pub fn shortcut_state(grabbed: bool) -> (r: CapabilityState)
    ensures
        r == if grabbed {
            CapabilityState::Ready
        } else {
            CapabilityState::SetupRequired
        },
{
    if grabbed {
        CapabilityState::Ready
    } else {
        CapabilityState::SetupRequired
    }
}

// ---------------------------------------------------------------------------
// The shortcut's key
// ---------------------------------------------------------------------------

/// The first place of the space symbol in a keyboard map, from the `i`th symbol on.
pub open spec fn space_from_symbol(keysyms: Seq<u32>, i: int) -> Option<int>
    decreases keysyms.len() - i,
{
    if i < 0 || i >= keysyms.len() {
        None
    } else if keysyms[i] == XK_SPACE {
        Some(i)
    } else {
        space_from_symbol(keysyms, i + 1)
    }
}

/// The key that types a space: keys follow each other from the lowest code on, each with its
/// symbols.
pub fn space_keycode(keysyms: &Vec<u32>, per_keycode: usize, minimum: u8) -> (r: Option<u8>)
    requires
        per_keycode > 0,
    ensures
        r == match space_from_symbol(keysyms@, 0) {
            Some(i) => {
                let code = minimum + (i / per_keycode as int) % 256;
                Some(if code > 255 {
                    255u8
                } else {
                    code as u8
                })
            },
            None => None,
        },
{
    for i in 0..keysyms.len()
        invariant
            per_keycode > 0,
            space_from_symbol(keysyms@, i as int) == space_from_symbol(keysyms@, 0),
    {
        if keysyms[i] == XK_SPACE {
            let index: usize = (i / per_keycode) % 256;
            return Some(minimum.saturating_add(index as u8));
        }
    }
    None
}

// ---------------------------------------------------------------------------
// Pixels
// ---------------------------------------------------------------------------

/// A mask of `width` bits in a row, `shift` bits up.
pub open spec fn mask_at(mask: u32, width: nat, shift: nat) -> bool {
    1 <= width <= 16 && shift + width <= 32 && mask == (pow2(width) - 1) * pow2(shift)
}

/// A color mask: up to sixteen bits in a row.
pub open spec fn is_mask(mask: u32) -> bool {
    exists|width: nat, shift: nat| #[trigger] mask_at(mask, width, shift)
}

/// The bits of a pixel under a mask of `width` bits, `shift` bits up.
pub open spec fn masked(pixel: u32, width: nat, shift: nat) -> int {
    (pixel as int / pow2(shift) as int) % (pow2(width) as int)
}

/// A value of `width` bits, written `n` times in a row.
pub open spec fn repeated(value: int, width: nat, n: nat) -> int
    decreases n,
{
    if n == 0 {
        0
    } else {
        value * pow2(width * (n - 1) as nat) + repeated(value, width, (n - 1) as nat)
    }
}

/// A value of `width` bits, widened to sixteen: the first sixteen bits of the value written over
/// and over.
pub open spec fn widened(value: int, width: nat) -> int {
    repeated(value, width, 16) / pow2((16 * width - 16) as nat) as int
}

/// `x11rb::image::ColorComponent::from_mask`, then `ColorComponent::decode` of what it gives:
/// the component that a mask picks out of a pixel, expanded to sixteen bits. There is one exactly
/// where the mask has between one and sixteen bits in a row. The decoder puts the pixel's bits
/// highest and fills up below them with the same bits again.
#[verifier::external_body]
fn decode_component(mask: u32, pixel: u32) -> (r: Option<u16>)
    ensures
        r is Some <==> is_mask(mask),
        forall|width: nat, shift: nat| #[trigger]
            mask_at(mask, width, shift) ==> r->0 == widened(masked(pixel, width, shift), width),
{
    match x11rb::image::ColorComponent::from_mask(mask) {
        Ok(component) => Some(component.decode(pixel)),
        Err(_) => None,
    }
}

/// A color component of a pixel, widened to sixteen bits.
pub open spec fn component(mask: u32, pixel: u32) -> int {
    let (width, shift) = choose|width: nat, shift: nat| #[trigger] mask_at(mask, width, shift);
    widened(masked(pixel, width, shift), width)
}

proof fn lemma_repeated(value: int, width: nat, n: nat)
    requires
        0 <= value < pow2(width),
    ensures
        0 <= repeated(value, width, n) < pow2(width * n),
    decreases n,
{
    if n == 0 {
        lemma2_to64();
        assert(width * 0 == 0);
    } else {
        let m = (n - 1) as nat;
        lemma_repeated(value, width, m);
        lemma_pow2_adds(width, width * m);
        assert(width + width * m == width * n) by (nonlinear_arith)
            requires
                m == n - 1,
        ;
        let high = pow2(width) as int;
        let low = pow2(width * m) as int;
        assert(value * low + low <= high * low) by (nonlinear_arith)
            requires
                value + 1 <= high,
                low >= 0,
        ;
        assert(0 <= value * low) by (nonlinear_arith)
            requires
                0 <= value,
                0 <= low,
        ;
    }
}

/// A byte, widened, has itself as its high byte.
proof fn lemma_widened_byte(value: int)
    requires
        0 <= value < 256,
    ensures
        widened(value, 8) / 256 == value,
        0 <= widened(value, 8) < 65536,
{
    lemma2_to64();
    lemma_repeated(value, 8, 15);
    lemma_pow2_adds(112, 8);
    lemma_pow2_pos(112);
    let low = pow2(120) as int;
    let all = repeated(value, 8, 16);
    assert(8 * 15 == 120);
    assert(all == value * low + repeated(value, 8, 15));
    lemma_fundamental_div_mod_converse(all, low, value, repeated(value, 8, 15));
    lemma_div_denominator(all, pow2(112) as int, 256);
    assert(pow2(112) * 256 == pow2(120));
    assert(widened(value, 8) / 256 == value);
    assert(0 <= widened(value, 8)) by {
        assert(0 <= value * low) by (nonlinear_arith)
            requires
                0 <= value,
                0 <= low,
        ;
        lemma_div_pos_is_pos(all, pow2(112) as int);
    }
}

/// How a visual holds its colors.
#[derive(Debug, Clone, Copy, PartialEq, Eq, Structural)]
pub struct Visual {
    pub class: u8,
    pub red_mask: u32,
    pub green_mask: u32,
    pub blue_mask: u32,
}

impl Visual {
    /// Whether the pixels hold red, green and blue.
    pub open spec fn has_colors(self) -> bool {
        &&& self.class == TRUE_COLOR || self.class == DIRECT_COLOR
        &&& is_mask(self.red_mask)
        &&& is_mask(self.green_mask)
        &&& is_mask(self.blue_mask)
    }

    /// The four bytes of a pixel: the high bytes of its components, and full opacity.
    pub open spec fn rgba(self, pixel: u32) -> Seq<u8> {
        seq![
            (component(self.red_mask, pixel) / 256) as u8,
            (component(self.green_mask, pixel) / 256) as u8,
            (component(self.blue_mask, pixel) / 256) as u8,
            255u8,
        ]
    }

    /// Whether the three colors take a byte each, `red`, `green` and `blue` bits up.
    pub open spec fn has_bytes_at(self, red: nat, green: nat, blue: nat) -> bool {
        &&& mask_at(self.red_mask, 8, red)
        &&& mask_at(self.green_mask, 8, green)
        &&& mask_at(self.blue_mask, 8, blue)
    }

    /// The bytes of the first `n` pixels.
    pub open spec fn rgba_of(self, pixels: Seq<u32>, n: nat) -> Seq<u8>
        decreases n,
    {
        if n == 0 {
            Seq::empty()
        } else {
            self.rgba_of(pixels, (n - 1) as nat) + self.rgba(pixels[n - 1])
        }
    }
}

proof fn lemma_rgba_len(visual: Visual, pixels: Seq<u32>, n: nat)
    ensures
        visual.rgba_of(pixels, n).len() == 4 * n,
    decreases n,
{
    if n > 0 {
        lemma_rgba_len(visual, pixels, (n - 1) as nat);
    }
}

/// The color bytes of a pixel, where each color takes one.
pub open spec fn color_bytes(pixel: u32, red: nat, green: nat, blue: nat) -> Seq<int> {
    seq![masked(pixel, 8, red), masked(pixel, 8, green), masked(pixel, 8, blue), 255]
}

/// The high byte of a component that takes a byte is that byte.
proof fn lemma_byte(mask: u32, pixel: u32, shift: nat, value: u16)
    requires
        mask_at(mask, 8, shift),
        forall|w: nat, s: nat| #[trigger]
            mask_at(mask, w, s) ==> value == widened(masked(pixel, w, s), w),
    ensures
        value / 256 == masked(pixel, 8, shift),
        masked(pixel, 8, shift) < 256,
{
    lemma2_to64();
    assert(mask_at(mask, 8, shift));
    assert(0 <= masked(pixel, 8, shift) < 256);
    lemma_widened_byte(masked(pixel, 8, shift));
}

/// What the decoder gives is the component.
proof fn lemma_component(mask: u32, pixel: u32, value: u16)
    requires
        is_mask(mask),
        forall|w: nat, s: nat| #[trigger]
            mask_at(mask, w, s) ==> value == widened(masked(pixel, w, s), w),
    ensures
        value == component(mask, pixel),
{
    let (width, shift) = choose|width: nat, shift: nat| #[trigger] mask_at(mask, width, shift);
    assert(mask_at(mask, width, shift));
}

/// What the pixels of a window look like, or nothing where its visual does not hold colors. Where
/// each color takes a byte, the bytes of the pixel are the bytes of the image.
pub fn window_rgba(visual: Visual, pixels: &Vec<u32>) -> (r: Option<Vec<u8>>)
    ensures
        r is Some <==> visual.has_colors(),
        r is Some ==> r->0@ == visual.rgba_of(pixels@, pixels@.len()),
        r is Some ==> forall|red: nat, green: nat, blue: nat, i: int|
            #![trigger visual.has_bytes_at(red, green, blue), pixels@[i]]
            visual.has_bytes_at(red, green, blue) && 0 <= i < pixels@.len() ==> (forall|c: int|
                0 <= c < 4 ==> #[trigger] r->0@[4 * i + c] == color_bytes(
                    pixels@[i],
                    red,
                    green,
                    blue,
                )[c]),
{
    if visual.class != TRUE_COLOR && visual.class != DIRECT_COLOR {
        return None;
    }
    if decode_component(visual.red_mask, 0).is_none() || decode_component(
        visual.green_mask,
        0,
    ).is_none() || decode_component(visual.blue_mask, 0).is_none() {
        return None;
    }
    let mut rgba: Vec<u8> = Vec::new();
    for i in 0..pixels.len()
        invariant
            visual.has_colors(),
            rgba@ == visual.rgba_of(pixels@, i as nat),
            rgba@.len() == 4 * i,
            forall|red: nat, green: nat, blue: nat, k: int|
                #![trigger visual.has_bytes_at(red, green, blue), pixels@[k]]
                visual.has_bytes_at(red, green, blue) && 0 <= k < i ==> (forall|c: int|
                    0 <= c < 4 ==> #[trigger] rgba@[4 * k + c] == color_bytes(
                        pixels@[k],
                        red,
                        green,
                        blue,
                    )[c]),
    {
        let ghost before = rgba@;
        let red = decode_component(visual.red_mask, pixels[i]);
        let green = decode_component(visual.green_mask, pixels[i]);
        let blue = decode_component(visual.blue_mask, pixels[i]);
        if let (Some(red), Some(green), Some(blue)) = (red, green, blue) {
            rgba.push((red / 256) as u8);
            rgba.push((green / 256) as u8);
            rgba.push((blue / 256) as u8);
            rgba.push(255);
            proof {
                lemma_component(visual.red_mask, pixels@[i as int], red);
                lemma_component(visual.green_mask, pixels@[i as int], green);
                lemma_component(visual.blue_mask, pixels@[i as int], blue);
                assert forall|r0: nat, g0: nat, b0: nat, k: int|
                    #![trigger visual.has_bytes_at(r0, g0, b0), pixels@[k]]
                    visual.has_bytes_at(r0, g0, b0) && 0 <= k < i + 1 implies (forall|c: int|
                    0 <= c < 4 ==> #[trigger] rgba@[4 * k + c] == color_bytes(
                        pixels@[k],
                        r0,
                        g0,
                        b0,
                    )[c]) by {
                    if k == i {
                        lemma_byte(visual.red_mask, pixels@[k], r0, red);
                        lemma_byte(visual.green_mask, pixels@[k], g0, green);
                        lemma_byte(visual.blue_mask, pixels@[k], b0, blue);
                        assert forall|c: int| 0 <= c < 4 implies #[trigger] rgba@[4 * k + c]
                            == color_bytes(pixels@[k], r0, g0, b0)[c] by {
                            assert(c == 0 || c == 1 || c == 2 || c == 3);
                        }
                    } else {
                        assert forall|c: int| 0 <= c < 4 implies #[trigger] rgba@[4 * k + c]
                            == color_bytes(pixels@[k], r0, g0, b0)[c] by {
                            assert(rgba@[4 * k + c] == before[4 * k + c]);
                        }
                    }
                }
            }
        }
        assert(rgba@ =~= visual.rgba_of(pixels@, (i + 1) as nat));
    }
    Some(rgba)
}

/// The message of a window whose pixels could not be read as colors.
pub const BAD_VISUAL: &'static str = "A value could not be parsed into an enumeration";

/// Encode RGBA pixels, without the bounds of a capture.
pub fn encode_rgba(width: u32, height: u32, rgba: &[u8]) -> (r: Result<Vec<u8>, CaptureError>)
    requires
        width > 0,
        height > 0,
        rgba@.len() == 4 * (width * height),
    ensures
        match (png_encoding(width, height, rgba@), r) {
            (Ok(encoded), Ok(bytes)) => bytes@ == encoded && png_size(encoded) == Some(
                (width, height),
            ),
            (Err(error), Err(e)) => e.says(failure(error)),
            _ => false,
        },
{
    match png_encode(width, height, rgba) {
        Ok(bytes) => Ok(bytes),
        Err(error) => Err(x11_failed(error.as_str())),
    }
}

/// A window's image. A window without an extent is not eligible.
pub fn window_png(width: u16, height: u16, visual: Visual, pixels: &Vec<u32>) -> (r: Result<
    Vec<u8>,
    CaptureError,
>)
    requires
        pixels@.len() == width * height,
    ensures
        if width == 0 || height == 0 {
            r matches Err(e) && e is NoEligibleWindow
        } else if !visual.has_colors() {
            r matches Err(e) && e.says(failure(BAD_VISUAL@))
        } else {
            let rgba = visual.rgba_of(pixels@, pixels@.len());
            match (png_encoding(width as u32, height as u32, rgba), r) {
                (Ok(encoded), Ok(bytes)) => bytes@ == encoded,
                (Err(error), Err(e)) => e.says(failure(error)),
                _ => false,
            }
        },
{
    if width == 0 || height == 0 {
        return Err(CaptureError::NoEligibleWindow);
    }
    let rgba = match window_rgba(visual, pixels) {
        Some(rgba) => rgba,
        None => {
            return Err(x11_failed(BAD_VISUAL));
        },
    };
    proof {
        lemma_rgba_len(visual, pixels@, pixels@.len());
    }
    encode_rgba(width as u32, height as u32, rgba.as_slice())
}

// ---------------------------------------------------------------------------
// Names
// ---------------------------------------------------------------------------

/// `String::from_utf8`: the text that bytes encode, where they are valid UTF-8.
#[verifier::external_body]
fn utf8_text(bytes: Vec<u8>) -> (r: Option<String>)
    ensures
        opt_text(r) == text_of(bytes@),
{
    String::from_utf8(bytes).ok()
}

/// The text that bytes encode.
pub open spec fn text_of(bytes: Seq<u8>) -> Option<Seq<char>> {
    if valid_utf8(bytes) {
        Some(decode_utf8(bytes))
    } else {
        None
    }
}

/// The text that bytes encode, where there is one that is not blank.
pub open spec fn shown_text(bytes: Seq<u8>) -> Option<Seq<char>> {
    match text_of(bytes) {
        Some(text) => if trim(text).len() > 0 {
            Some(text)
        } else {
            None
        },
        None => None,
    }
}

fn nonblank(bytes: Vec<u8>) -> (r: Option<String>)
    ensures
        opt_text(r) == shown_text(bytes@),
{
    match utf8_text(bytes) {
        Some(text) => {
            let chars = chars_of(text.as_str());
            if trimmed(chars.as_slice()).len() > 0 {
                Some(text)
            } else {
                None
            }
        },
        None => None,
    }
}

/// The window's title: the desktop's name of it, or the classic one where it has none.
pub fn window_title(net_name: Option<Vec<u8>>, wm_name: Option<Vec<u8>>) -> (r: Option<String>)
    ensures
        opt_text(r) == match (net_name, wm_name) {
            (Some(bytes), _) => shown_text(bytes@),
            (None, Some(bytes)) => shown_text(bytes@),
            (None, None) => None,
        },
{
    match net_name {
        Some(bytes) => nonblank(bytes),
        None => match wm_name {
            Some(bytes) => nonblank(bytes),
            None => None,
        },
    }
}

/// The index of the last zero byte before `upto`, or -1.
pub open spec fn zero_before(bytes: Seq<u8>, upto: int) -> int
    decreases upto,
{
    if upto <= 0 {
        -1
    } else if bytes[upto - 1] == 0 {
        upto - 1
    } else {
        zero_before(bytes, upto - 1)
    }
}

proof fn lemma_zero_before(bytes: Seq<u8>, upto: int)
    requires
        0 <= upto,
    ensures
        -1 <= zero_before(bytes, upto) < upto || upto == 0,
        upto == 0 ==> zero_before(bytes, upto) == -1,
    decreases upto,
{
    if upto > 0 && bytes[upto - 1] != 0 {
        lemma_zero_before(bytes, upto - 1);
    }
}

/// The last of the parts between zero bytes, up to the one that ends at `upto`, that reads as a
/// text that is not blank.
pub open spec fn last_part(bytes: Seq<u8>, upto: int) -> Option<Seq<char>>
    decreases upto,
    when 0 <= upto <= bytes.len()
    via last_part_decreases
{
    let zero = zero_before(bytes, upto);
    match shown_text(bytes.subrange(zero + 1, upto)) {
        Some(text) => Some(text),
        None => if zero < 0 {
            None
        } else {
            last_part(bytes, zero)
        },
    }
}

#[via_fn]
proof fn last_part_decreases(bytes: Seq<u8>, upto: int) {
    lemma_zero_before(bytes, upto);
}

/// The class of a window: the last of its zero-separated names.
pub fn window_class(bytes: &Vec<u8>) -> (r: Option<String>)
    ensures
        opt_text(r) == last_part(bytes@, bytes@.len() as int),
{
    let mut upto: usize = bytes.len();
    loop
        invariant
            upto <= bytes@.len(),
            last_part(bytes@, upto as int) == last_part(bytes@, bytes@.len() as int),
        decreases upto,
    {
        let mut start: usize = upto;
        while start > 0 && bytes[start - 1] != 0
            invariant
                start <= upto <= bytes@.len(),
                zero_before(bytes@, start as int) == zero_before(bytes@, upto as int),
            decreases start,
        {
            start -= 1;
        }
        assert(zero_before(bytes@, upto as int) == start - 1);
        let mut part: Vec<u8> = Vec::new();
        for i in start..upto
            invariant
                start <= upto <= bytes@.len(),
                part@ == bytes@.subrange(start as int, i as int),
        {
            part.push(bytes[i]);
            assert(part@ =~= bytes@.subrange(start as int, i + 1));
        }
        assert(part@ =~= bytes@.subrange(start as int, upto as int));
        let text = nonblank(part);
        if text.is_some() {
            return text;
        }
        if start == 0 {
            return None;
        }
        upto = start - 1;
    }
}

// ---------------------------------------------------------------------------
// Icons
// ---------------------------------------------------------------------------

/// An icon among a window's icons: where its pixels start, and its size.
#[derive(Debug, Clone, Copy, PartialEq, Eq, Structural)]
pub struct IconAt {
    pub start: usize,
    pub width: usize,
    pub height: usize,
}

/// The side that an icon should have.
pub const ICON_SIDE: usize = 64;

pub open spec fn off_side(side: int) -> int {
    if side >= ICON_SIDE {
        side - ICON_SIDE
    } else {
        ICON_SIDE - side
    }
}

/// How far an icon is from the size it should have.
pub open spec fn off_size(icon: IconAt) -> int {
    off_side(icon.width as int) + off_side(icon.height as int)
}

/// The icon that is closest in size, the first of equals, of those from `offset` on and the best so
/// far. Icons follow each other, each with its width and height before its pixels; one that is cut
/// off or empty is passed over, and a size that no memory holds ends the search with nothing.
pub open spec fn best_icon(values: Seq<u32>, offset: int, best: Option<IconAt>) -> Option<IconAt>
    decreases values.len() - offset,
{
    if offset < 0 || offset + 2 > values.len() {
        best
    } else {
        let width = values[offset] as int;
        let height = values[offset + 1] as int;
        let start = offset + 2;
        let icon = IconAt {
            start: start as usize,
            width: width as usize,
            height: height as usize,
        };
        if width * height > usize::MAX {
            None
        } else if width * height < 0 || start + width * height > values.len() {
            best
        } else {
            let better = best is None || off_size(icon) < off_size(best->0);
            best_icon(
                values,
                start + width * height,
                if width > 0 && height > 0 && better {
                    Some(icon)
                } else {
                    best
                },
            )
        }
    }
}

fn distance(width: usize, height: usize) -> (r: u64)
    requires
        width <= u32::MAX,
        height <= u32::MAX,
    ensures
        r == off_side(width as int) + off_side(height as int),
{
    let w: u64 = if width >= ICON_SIDE {
        (width - ICON_SIDE) as u64
    } else {
        (ICON_SIDE - width) as u64
    };
    let h: u64 = if height >= ICON_SIDE {
        (height - ICON_SIDE) as u64
    } else {
        (ICON_SIDE - height) as u64
    };
    w + h
}

/// The icon of a window that is closest to the size it should have.
pub fn pick_icon(values: &Vec<u32>) -> (r: Option<IconAt>)
    ensures
        r == best_icon(values@, 0, None),
        r is Some ==> {
            &&& r->0.width > 0
            &&& r->0.height > 0
            &&& r->0.width <= u32::MAX
            &&& r->0.height <= u32::MAX
            &&& r->0.start + r->0.width * r->0.height <= values@.len()
        },
{
    let mut offset: usize = 0;
    let mut best: Option<IconAt> = None;
    while values.len() >= 2 && offset <= values.len() - 2
        invariant
            best_icon(values@, offset as int, best) == best_icon(values@, 0, None),
            best is Some ==> {
                &&& best->0.width > 0
                &&& best->0.height > 0
                &&& best->0.width <= u32::MAX
                &&& best->0.height <= u32::MAX
                &&& best->0.start + best->0.width * best->0.height <= values@.len()
            },
        decreases values@.len() - offset,
    {
        let width: usize = values[offset] as usize;
        let height: usize = values[offset + 1] as usize;
        let start: usize = offset + 2;
        assert(0 <= width * height) by (nonlinear_arith);
        let length: usize = match width.checked_mul(height) {
            Some(length) => length,
            None => {
                return None;
            },
        };
        if length > values.len() - start {
            return best;
        }
        if width > 0 && height > 0 {
            let closer = match best {
                Some(known) => distance(width, height) < distance(known.width, known.height),
                None => true,
            };
            if closer {
                best = Some(IconAt { start, width, height });
            }
        }
        offset = start + length;
    }
    best
}

/// The four bytes of an icon's pixel, which holds its opacity first.
pub open spec fn argb_bytes(argb: u32) -> Seq<u8> {
    seq![
        (argb / 0x1_0000 % 0x100) as u8,
        (argb / 0x100 % 0x100) as u8,
        (argb % 0x100) as u8,
        (argb / 0x100_0000) as u8,
    ]
}

/// The bytes of `n` pixels from `start` on.
pub open spec fn icon_bytes(values: Seq<u32>, start: int, n: nat) -> Seq<u8>
    decreases n,
{
    if n == 0 {
        Seq::empty()
    } else {
        icon_bytes(values, start, (n - 1) as nat) + argb_bytes(values[start + n - 1])
    }
}

proof fn lemma_icon_len(values: Seq<u32>, start: int, n: nat)
    ensures
        icon_bytes(values, start, n).len() == 4 * n,
    decreases n,
{
    if n > 0 {
        lemma_icon_len(values, start, (n - 1) as nat);
    }
}

/// A window's icon as a PNG.
pub fn icon_png(values: &Vec<u32>) -> (r: Option<Vec<u8>>)
    ensures
        match best_icon(values@, 0, None) {
            None => r is None,
            Some(icon) => {
                let rgba = icon_bytes(
                    values@,
                    icon.start as int,
                    (icon.width * icon.height) as nat,
                );
                match png_encoding(icon.width as u32, icon.height as u32, rgba) {
                    Ok(encoded) => r is Some && r->0@ == encoded,
                    Err(_) => r is None,
                }
            },
        },
{
    let icon = match pick_icon(values) {
        Some(icon) => icon,
        None => {
            return None;
        },
    };
    let count: usize = values.len();
    let length: usize = icon.width * icon.height;
    let mut rgba: Vec<u8> = Vec::new();
    for i in 0..length
        invariant
            count == values@.len(),
            icon.start + length <= count,
            rgba@ == icon_bytes(values@, icon.start as int, i as nat),
    {
        let argb: u32 = values[icon.start + i];
        rgba.push((argb / 0x1_0000 % 0x100) as u8);
        rgba.push((argb / 0x100 % 0x100) as u8);
        rgba.push((argb % 0x100) as u8);
        rgba.push((argb / 0x100_0000) as u8);
        assert(rgba@ =~= icon_bytes(values@, icon.start as int, (i + 1) as nat));
    }
    proof {
        lemma_icon_len(values@, icon.start as int, length as nat);
    }
    match encode_rgba(icon.width as u32, icon.height as u32, rgba.as_slice()) {
        Ok(bytes) => Some(bytes),
        Err(_) => None,
    }
}

// ---------------------------------------------------------------------------
// Desktop entries
// ---------------------------------------------------------------------------

/// A field of a desktop entry.
pub struct DesktopField {
    pub key: String,
    pub value: String,
}

/// A field as a value.
pub struct FieldModel {
    pub key: Seq<char>,
    pub value: Seq<char>,
}

impl View for DesktopField {
    type V = FieldModel;

    open spec fn view(&self) -> FieldModel {
        FieldModel { key: self.key@, value: self.value@ }
    }
}

pub open spec fn field_models(fields: Seq<DesktopField>) -> Seq<FieldModel> {
    fields.map_values(|field: DesktopField| field@)
}

/// The fields that are read.
pub open spec fn is_read(key: Seq<char>) -> bool {
    key == "Name"@ || key == "Icon"@ || key == "StartupWMClass"@
}

/// Whether the first `n` lines leave off inside the entry's own group.
pub open spec fn inside_entry(lines: Seq<Seq<char>>, n: nat) -> bool
    decreases n,
{
    if n == 0 {
        false
    } else {
        let line = lines[n - 1];
        if line.len() > 0 && line[0] == '[' {
            trim(line) == "[Desktop Entry]"@
        } else {
            inside_entry(lines, (n - 1) as nat)
        }
    }
}

/// The field of a line, if it is one that is read.
pub open spec fn field_of(line: Seq<char>) -> Option<FieldModel> {
    let at = char_from(line, '=', 0);
    if at < line.len() && is_read(line.take(at)) {
        Some(FieldModel { key: line.take(at), value: trim(line.skip(at + 1)) })
    } else {
        None
    }
}

/// The fields of the first `n` lines: those that are read, of the entry's own group.
pub open spec fn fields_of(lines: Seq<Seq<char>>, n: nat) -> Seq<FieldModel>
    decreases n,
{
    if n == 0 {
        Seq::empty()
    } else {
        let front = fields_of(lines, (n - 1) as nat);
        let line = lines[n - 1];
        if line.len() > 0 && line[0] == '[' || !inside_entry(lines, (n - 1) as nat) {
            front
        } else {
            match field_of(line) {
                Some(field) => front.push(field),
                None => front,
            }
        }
    }
}

/// The fields of a desktop entry's file.
pub open spec fn entry_fields(contents: Seq<char>) -> Seq<FieldModel> {
    let lines = text_lines(contents);
    fields_of(lines, lines.len())
}

fn read_field(line: &[char]) -> (r: Option<DesktopField>)
    ensures
        r is Some <==> field_of(line@) is Some,
        r is Some ==> r->0@ == field_of(line@)->0,
{
    let at: usize = find_char(line, '=', 0);
    proof {
        lemma_char_from(line@, '=', 0);
    }
    if at >= line.len() {
        return None;
    }
    let (key, rest) = line.split_at(at);
    assert(key@ =~= line@.take(at as int));
    if !spells(key, "Name") && !spells(key, "Icon") && !spells(key, "StartupWMClass") {
        return None;
    }
    let (_, value) = rest.split_at(1);
    assert(value@ =~= line@.skip(at + 1));
    let value = trimmed(value);
    Some(DesktopField { key: string_of(key), value: string_of(value) })
}

pub fn desktop_fields(contents: &str) -> (r: Vec<DesktopField>)
    ensures
        field_models(r@) == entry_fields(contents@),
{
    let chars = chars_of(contents);
    let lines = split_lines(chars.as_slice());
    let ghost all = text_lines(contents@);
    let mut r: Vec<DesktopField> = Vec::new();
    let mut in_entry = false;
    assert(field_models(r@) =~= Seq::<FieldModel>::empty());
    for i in 0..lines.len()
        invariant
            rows(lines@) == all,
            in_entry == inside_entry(all, i as nat),
            field_models(r@) == fields_of(all, i as nat),
    {
        let line = lines[i].as_slice();
        assert(line@ == all[i as int]);
        if line.len() > 0 && line[0] == '[' {
            in_entry = spells(trimmed(line), "[Desktop Entry]");
        } else if in_entry {
            if let Some(field) = read_field(line) {
                let ghost before = r@;
                r.push(field);
                assert(field_models(r@) =~= field_models(before).push(field@));
            }
        }
    }
    r
}

/// The value of the first field with this key, from the `i`th on.
pub open spec fn value_from(fields: Seq<FieldModel>, key: Seq<char>, i: int) -> Option<Seq<char>>
    decreases fields.len() - i,
{
    if i < 0 || i >= fields.len() {
        None
    } else if fields[i].key == key {
        Some(fields[i].value)
    } else {
        value_from(fields, key, i + 1)
    }
}

fn value_of(fields: &Vec<DesktopField>, key: &str) -> (r: Option<String>)
    ensures
        opt_text(r) == value_from(field_models(fields@), key@, 0),
{
    for i in 0..fields.len()
        invariant
            value_from(field_models(fields@), key@, i as int) == value_from(
                field_models(fields@),
                key@,
                0,
            ),
    {
        assert(field_models(fields@)[i as int] == fields@[i as int]@);
        if same_str(fields[i].key.as_str(), key) {
            return Some(fields[i].value.clone());
        }
    }
    None
}

/// What the desktop knows of an application.
pub struct DesktopEntry {
    pub id: Option<String>,
    pub name: Option<String>,
    pub icon: Option<String>,
}

/// Whether an entry's file is of this window class: by its own name, or by the class it states.
pub open spec fn entry_matches(
    stem: Option<Seq<char>>,
    contents: Seq<char>,
    wm_class: Seq<char>,
) -> bool {
    ||| stem matches Some(stem) && ascii_folded(stem) == ascii_folded(wm_class)
    ||| value_from(entry_fields(contents), "StartupWMClass"@, 0) matches Some(class)
        && ascii_folded(class) == ascii_folded(wm_class)
}

/// What a desktop entry's file says of a window class: nothing where it is not of that class.
pub fn desktop_entry(
    file_name: Option<&str>,
    stem: Option<&str>,
    contents: &str,
    wm_class: &str,
) -> (r: Option<DesktopEntry>)
    ensures
        r is Some <==> entry_matches(opt_str(stem), contents@, wm_class@),
        r is Some ==> {
            &&& opt_text(r->0.id) == opt_str(file_name)
            &&& opt_text(r->0.name) == value_from(entry_fields(contents@), "Name"@, 0)
            &&& opt_text(r->0.icon) == value_from(entry_fields(contents@), "Icon"@, 0)
        },
{
    let fields = desktop_fields(contents);
    let by_file = match stem {
        Some(stem) => same_ignoring_case(stem, wm_class),
        None => false,
    };
    let by_class = match value_of(&fields, "StartupWMClass") {
        Some(class) => same_ignoring_case(class.as_str(), wm_class),
        None => false,
    };
    if !by_file && !by_class {
        return None;
    }
    let id = match file_name {
        Some(name) => Some(name.to_owned()),
        None => None,
    };
    Some(DesktopEntry { id, name: value_of(&fields, "Name"), icon: value_of(&fields, "Icon") })
}

/// What stands in for the entry of a class that has none.
pub fn unknown_entry(wm_class: &str) -> (r: DesktopEntry)
    ensures
        opt_text(r.id) == Some("linux-x11:"@ + ascii_folded(wm_class@)),
        r.name is None,
        r.icon is None,
{
    let mut id = "linux-x11:".to_owned();
    let class = folded(wm_class);
    let class = string_of(class.as_slice());
    id.push_str(class.as_str());
    DesktopEntry { id: Some(id), name: None, icon: None }
}

/// A path below a directory.
pub open spec fn below(dir: Seq<char>, rest: Seq<char>) -> Seq<char> {
    if dir.len() == 0 || dir.last() == '/' {
        dir + rest
    } else {
        dir + seq!['/'] + rest
    }
}

fn join_path(dir: &str, rest: &str) -> (r: String)
    ensures
        r@ == below(dir@, rest@),
{
    let chars = chars_of(dir);
    let mut r = dir.to_owned();
    if chars.len() > 0 && chars[chars.len() - 1] != '/' {
        r.push('/');
    }
    r.push_str(rest);
    assert(r@ =~= below(dir@, rest@));
    r
}

/// Where desktop entries are looked for, the user's own first.
pub fn desktop_directories(home: Option<&str>) -> (r: Vec<String>)
    ensures
        texts(r@) == (match opt_str(home) {
            Some(home) => seq![below(home, ".local/share/applications"@)],
            None => Seq::empty(),
        }) + seq!["/usr/share/applications"@, "/usr/local/share/applications"@],
{
    let mut r: Vec<String> = Vec::new();
    if let Some(home) = home {
        r.push(join_path(home, ".local/share/applications"));
    }
    r.push("/usr/share/applications".to_owned());
    r.push("/usr/local/share/applications".to_owned());
    assert(texts(r@) =~= (match opt_str(home) {
        Some(home) => seq![below(home, ".local/share/applications"@)],
        None => Seq::empty(),
    }) + seq!["/usr/share/applications"@, "/usr/local/share/applications"@]);
    r
}

/// Where an icon of this name is looked for, in order: at its own path, where it names one, and
/// otherwise in the theme directories, the user's own first.
pub open spec fn icon_paths(name: Seq<char>, home: Option<Seq<char>>) -> Seq<Seq<char>> {
    let file = name + ".png"@;
    if name.len() > 0 && name[0] == '/' {
        seq![name]
    } else {
        let own = match home {
            Some(home) => seq![below(home, ".local/share/icons/hicolor/64x64/apps/"@ + file)],
            None => Seq::empty(),
        };
        own + seq![
            "/usr/share/pixmaps/"@ + file,
            "/usr/share/icons/hicolor/64x64/apps/"@ + file,
            "/usr/share/icons/hicolor/128x128/apps/"@ + file,
        ]
    }
}

fn concat(a: &str, b: &str) -> (r: String)
    ensures
        r@ == a@ + b@,
{
    let mut r = a.to_owned();
    r.push_str(b);
    r
}

pub fn icon_candidates(name: &str, home: Option<&str>) -> (r: Vec<String>)
    ensures
        texts(r@) == icon_paths(name@, opt_str(home)),
{
    let chars = chars_of(name);
    let mut r: Vec<String> = Vec::new();
    if chars.len() > 0 && chars[0] == '/' {
        r.push(name.to_owned());
        assert(texts(r@) =~= icon_paths(name@, opt_str(home)));
        return r;
    }
    let file = concat(name, ".png");
    if let Some(home) = home {
        let rest = concat(".local/share/icons/hicolor/64x64/apps/", file.as_str());
        r.push(join_path(home, rest.as_str()));
    }
    r.push(concat("/usr/share/pixmaps/", file.as_str()));
    r.push(concat("/usr/share/icons/hicolor/64x64/apps/", file.as_str()));
    r.push(concat("/usr/share/icons/hicolor/128x128/apps/", file.as_str()));
    assert(texts(r@) =~= icon_paths(name@, opt_str(home)));
    r
}

// ---------------------------------------------------------------------------
// The capture
// ---------------------------------------------------------------------------

/// What X11 and the desktop say of the active window.
pub struct NativeCapture {
    pub png: Vec<u8>,
    pub title: Option<String>,
    pub wm_class: Option<String>,
    pub desktop: Option<DesktopEntry>,
    pub icon_png: Option<Vec<u8>>,
}

impl NativeCapture {
    /// The application's name: the desktop's, the accessibility tree's, or the window's class.
    pub open spec fn name_with(self, semantic: Option<SemanticCapture>) -> Seq<char> {
        match self.desktop {
            Some(DesktopEntry { name: Some(name), .. }) => name@,
            _ => match semantic {
                Some(known) => known.app_name@,
                None => match self.wm_class {
                    Some(class) => class@,
                    None => "X11 application"@,
                },
            },
        }
    }

    /// What the capture is filed under: the desktop entry, or the window's class.
    pub open spec fn bundle(self) -> Option<Seq<char>> {
        match self.desktop {
            Some(DesktopEntry { id: Some(id), .. }) => Some(id@),
            _ => match self.wm_class {
                Some(class) => Some("linux-x11:"@ + class@),
                None => None,
            },
        }
    }
}

/// A captured window, with the application text that was read along.
pub fn x11_shot(
    native: NativeCapture,
    semantic: Option<SemanticCapture>,
    captured_at: i64,
) -> (r: CapturedAppshot)
    ensures
        is_uuid_v4(r.id@),
        r.app_name@ == native.name_with(semantic),
        opt_text(r.bundle_identifier) == native.bundle(),
        r.window_title == native.title,
        match semantic {
            Some(known) => r.accessibility == known.snapshot,
            None => r.accessibility.format_version == 1 && r.accessibility.content@.len() == 0
                && !r.accessibility.truncated,
        },
        is_uuid_v4(r.screenshot.id@),
        r.screenshot.name@ == shot_name(r.app_name@),
        r.screenshot.bytes == native.png,
        r.screenshot_dimensions == png_size(native.png@),
        r.app_icon == native.icon_png,
        r.captured_at == captured_at,
{
    let app_name = match &native.desktop {
        Some(DesktopEntry { name: Some(name), .. }) => name.clone(),
        _ => match &semantic {
            Some(known) => known.app_name.clone(),
            None => match &native.wm_class {
                Some(class) => class.clone(),
                None => "X11 application".to_owned(),
            },
        },
    };
    let bundle_identifier = match &native.desktop {
        Some(DesktopEntry { id: Some(id), .. }) => Some(id.clone()),
        _ => match &native.wm_class {
            Some(class) => Some(concat("linux-x11:", class.as_str())),
            None => None,
        },
    };
    let accessibility = match semantic {
        Some(known) => known.snapshot,
        None => AccessibilitySnapshot::unavailable(),
    };
    let screenshot_dimensions = png_dimensions(native.png.as_slice());
    let name = shot_file(app_name.as_str());
    let screenshot = stage_png_bytes(name, native.png);
    CapturedAppshot {
        id: fresh_id(),
        app_name,
        bundle_identifier,
        window_title: native.title,
        accessibility,
        screenshot,
        screenshot_dimensions,
        app_icon: native.icon_png,
        captured_at,
    }
}

// ---------------------------------------------------------------------------
// What is found
// ---------------------------------------------------------------------------

/// An icon's pixel gives its four bytes back: red, green, blue and opacity, from the opacity down.
pub proof fn law_icon_pixels_keep_their_bytes(argb: u32)
    ensures
        argb_bytes(argb).len() == 4,
        argb == argb_bytes(argb)[3] * 0x100_0000 + argb_bytes(argb)[0] * 0x1_0000 + argb_bytes(
            argb,
        )[1] * 0x100 + argb_bytes(argb)[2],
{
    let a: u32 = argb / 0x100_0000;
    assert(a < 0x100);
    assert(argb == a * 0x100_0000 + (argb / 0x1_0000 % 0x100) * 0x1_0000 + (argb / 0x100 % 0x100)
        * 0x100 + argb % 0x100);
}

/// The pixels of an icon follow each other as they are listed.
pub proof fn law_icon_pixels_keep_their_order(values: Seq<u32>, start: int, n: nat, i: int)
    requires
        0 <= i < n,
    ensures
        icon_bytes(values, start, n).subrange(4 * i, 4 * i + 4) == argb_bytes(values[start + i]),
        icon_bytes(values, start, n).len() == 4 * n,
    decreases n,
{
    let all = icon_bytes(values, start, n);
    let before = icon_bytes(values, start, (n - 1) as nat);
    lemma_icon_len(values, start, n);
    lemma_icon_len(values, start, (n - 1) as nat);
    if i < n - 1 {
        law_icon_pixels_keep_their_order(values, start, (n - 1) as nat, i);
        assert(all.subrange(4 * i, 4 * i + 4) =~= before.subrange(4 * i, 4 * i + 4));
    } else {
        assert(all.subrange(4 * i, 4 * i + 4) =~= argb_bytes(values[start + i]));
    }
}

/// The pixels of a window follow each other as they are listed, each opaque.
pub proof fn law_window_pixels_keep_their_order(visual: Visual, pixels: Seq<u32>, n: nat, i: int)
    requires
        0 <= i < n,
    ensures
        visual.rgba_of(pixels, n).len() == 4 * n,
        visual.rgba_of(pixels, n).subrange(4 * i, 4 * i + 4) == visual.rgba(pixels[i]),
        visual.rgba_of(pixels, n)[4 * i + 3] == 255,
    decreases n,
{
    let all = visual.rgba_of(pixels, n);
    let before = visual.rgba_of(pixels, (n - 1) as nat);
    lemma_rgba_len(visual, pixels, n);
    lemma_rgba_len(visual, pixels, (n - 1) as nat);
    if i < n - 1 {
        law_window_pixels_keep_their_order(visual, pixels, (n - 1) as nat, i);
        assert(all.subrange(4 * i, 4 * i + 4) =~= before.subrange(4 * i, 4 * i + 4));
    } else {
        assert(all.subrange(4 * i, 4 * i + 4) =~= visual.rgba(pixels[i]));
    }
    assert(all.subrange(4 * i, 4 * i + 4)[3] == 255);
}

/// The icons of a window as they are listed from `offset` on: those with an extent whose pixels are
/// all there.
pub open spec fn lists_icon(values: Seq<u32>, offset: int, icon: IconAt) -> bool
    decreases values.len() - offset,
{
    if offset < 0 || offset + 2 > values.len() {
        false
    } else {
        let width = values[offset] as int;
        let height = values[offset + 1] as int;
        if width * height < 0 || offset + 2 + width * height > values.len() {
            false
        } else {
            ||| width > 0 && height > 0 && icon.start == offset + 2 && icon.width == width
                && icon.height == height
            ||| lists_icon(values, offset + 2 + width * height, icon)
        }
    }
}

/// How far a side is from the one that an icon should have.
pub open spec fn side_gap(side: int) -> int {
    if side >= 64 {
        side - 64
    } else {
        64 - side
    }
}

/// The icon that is taken is one of those that are listed, and none of them is closer in size.
#[verifier::rlimit(50)]
pub proof fn law_the_closest_icon_is_taken(
    values: Seq<u32>,
    offset: int,
    best: Option<IconAt>,
    icon: IconAt,
)
    requires
        0 <= offset <= values.len() <= usize::MAX,
    ensures
        match best_icon(values, offset, best) {
            Some(found) => {
                &&& Some(found) == best || lists_icon(values, offset, found)
                &&& best is Some ==> side_gap(found.width as int) + side_gap(found.height as int)
                    <= side_gap(best->0.width as int) + side_gap(best->0.height as int)
                &&& lists_icon(values, offset, icon) ==> side_gap(found.width as int) + side_gap(
                    found.height as int,
                ) <= side_gap(icon.width as int) + side_gap(icon.height as int)
            },
            None => true,
        },
    decreases values.len() - offset,
{
    if offset + 2 <= values.len() {
        let width = values[offset] as int;
        let height = values[offset + 1] as int;
        let start = offset + 2;
        assert(width * height >= 0) by (nonlinear_arith)
            requires
                width >= 0,
                height >= 0,
        ;
        if width * height <= usize::MAX && start + width * height <= values.len() {
            let here = IconAt {
                start: start as usize,
                width: width as usize,
                height: height as usize,
            };
            if width > 0 && height > 0 {
                assert(width <= width * height && height <= width * height) by (nonlinear_arith)
                    requires
                        width > 0,
                        height > 0,
                ;
            }
            let better = best is None || off_size(here) < off_size(best->0);
            let next = if width > 0 && height > 0 && better {
                Some(here)
            } else {
                best
            };
            law_the_closest_icon_is_taken(values, start + width * height, next, icon);
        }
    }
}

/// The key that types a space is the first whose symbols hold one.
pub proof fn law_the_first_space_key_is_found(keysyms: Seq<u32>, from: int)
    requires
        0 <= from <= keysyms.len(),
    ensures
        match space_from_symbol(keysyms, from) {
            Some(i) => from <= i < keysyms.len() && keysyms[i] == XK_SPACE && forall|j: int|
                from <= j < i ==> #[trigger] keysyms[j] != XK_SPACE,
            None => forall|j: int| from <= j < keysyms.len() ==> #[trigger] keysyms[j] != XK_SPACE,
        },
    decreases keysyms.len() - from,
{
    if from < keysyms.len() && keysyms[from] != XK_SPACE {
        law_the_first_space_key_is_found(keysyms, from + 1);
    }
}

proof fn lemma_last_zero(bytes: Seq<u8>, at: int, upto: int)
    requires
        -1 <= at < upto <= bytes.len() || (at == -1 && upto == 0),
        at >= 0 ==> bytes[at] == 0,
        forall|j: int| at < j < upto ==> bytes[j] != 0,
    ensures
        zero_before(bytes, upto) == at,
    decreases upto,
{
    if upto > 0 && at < upto - 1 {
        lemma_last_zero(bytes, at, upto - 1);
    }
}

/// A window's class is the last of its names, whether or not a zero ends it, where that name can be
/// shown.
pub proof fn law_the_last_name_is_the_class(front: Seq<u8>, name: Seq<u8>)
    requires
        forall|i: int| 0 <= i < name.len() ==> #[trigger] name[i] != 0,
        shown_text(name) is Some,
        front.len() > 0 ==> front.last() == 0,
    ensures
        last_part(front + name, (front + name).len() as int) == shown_text(name),
        last_part((front + name).push(0), (front + name).len() as int + 1) == shown_text(name),
{
    let open = front + name;
    let closed = open.push(0);
    let n = open.len() as int;
    let at = front.len() - 1;
    assert forall|j: int| at < j < n implies open[j] != 0 by {
        assert(open[j] == name[j - front.len()]);
    }
    lemma_last_zero(open, at, n);
    assert(open.subrange(at + 1, n) =~= name);
    assert forall|j: int| 0 <= j < n implies closed[j] == open[j] by {}
    lemma_last_zero(closed, n, n + 1);
    assert(closed.subrange(n + 1, n + 1) =~= Seq::<u8>::empty());
    assert(shown_text(Seq::<u8>::empty()) is None) by {
        let nothing = Seq::<u8>::empty();
        if valid_utf8(nothing) {
            assert(decode_utf8(nothing) =~= Seq::<char>::empty());
        }
    }
    lemma_last_zero(closed, at, n);
    assert(closed.subrange(at + 1, n) =~= name);
    assert(last_part(closed, n) == shown_text(name));
    assert(last_part(closed, n + 1) == last_part(closed, n));
}

/// The first field with a key gives its value.
pub proof fn law_the_first_value_counts(fields: Seq<FieldModel>, key: Seq<char>, from: int)
    requires
        0 <= from <= fields.len(),
    ensures
        match value_from(fields, key, from) {
            Some(value) => exists|i: int|
                from <= i < fields.len() && (#[trigger] fields[i]).key == key && fields[i].value
                    == value && forall|j: int|
                    from <= j < i ==> (#[trigger] fields[j]).key != key,
            None => forall|j: int| from <= j < fields.len() ==> (#[trigger] fields[j]).key != key,
        },
    decreases fields.len() - from,
{
    if from < fields.len() {
        if fields[from].key == key {
            assert(fields[from].value == value_from(fields, key, from)->0);
        } else {
            law_the_first_value_counts(fields, key, from + 1);
            if value_from(fields, key, from) is Some {
                let i = choose|i: int|
                    from + 1 <= i < fields.len() && (#[trigger] fields[i]).key == key
                        && fields[i].value == value_from(fields, key, from)->0 && forall|j: int|
                        from + 1 <= j < i ==> (#[trigger] fields[j]).key != key;
                assert(fields[i].key == key);
            }
        }
    }
}

/// The line at `i` stands in the entry's own group, which the line at `k` opens.
pub open spec fn in_own_group(lines: Seq<Seq<char>>, k: int, i: int) -> bool {
    &&& 0 <= k < i < lines.len()
    &&& lines[k].len() > 0 && lines[k][0] == '['
    &&& trim(lines[k]) == "[Desktop Entry]"@
    &&& forall|j: int|
        k < j <= i && (#[trigger] lines[j]).len() > 0 ==> lines[j][0] != '['
}

/// The line is this field: the key, an equals sign, and the value with or without blanks around it.
pub open spec fn is_field(line: Seq<char>, field: FieldModel) -> bool {
    &&& field.key == "Name"@ || field.key == "Icon"@ || field.key == "StartupWMClass"@
    &&& line.len() > field.key.len()
    &&& line.take(field.key.len() as int) == field.key
    &&& line[field.key.len() as int] == '='
    &&& trim(line.skip(field.key.len() as int + 1)) == field.value
}

proof fn lemma_inside(lines: Seq<Seq<char>>, k: int, n: int)
    requires
        0 <= k < n <= lines.len(),
        lines[k].len() > 0 && lines[k][0] == '[',
        trim(lines[k]) == "[Desktop Entry]"@,
        forall|j: int| k < j < n && (#[trigger] lines[j]).len() > 0 ==> lines[j][0] != '[',
    ensures
        inside_entry(lines, n as nat),
    decreases n,
{
    if n - 1 > k {
        lemma_inside(lines, k, n - 1);
        assert(lines[n - 1].len() > 0 ==> lines[n - 1][0] != '[');
    }
}

proof fn lemma_group_of(lines: Seq<Seq<char>>, n: int) -> (k: int)
    requires
        0 <= n <= lines.len(),
        inside_entry(lines, n as nat),
    ensures
        0 <= k < n,
        lines[k].len() > 0 && lines[k][0] == '[',
        trim(lines[k]) == "[Desktop Entry]"@,
        forall|j: int| k < j < n && (#[trigger] lines[j]).len() > 0 ==> lines[j][0] != '[',
    decreases n,
{
    if lines[n - 1].len() > 0 && lines[n - 1][0] == '[' {
        n - 1
    } else {
        lemma_group_of(lines, n - 1)
    }
}

/// A field of a desktop entry is read where it stands in the entry's own group.
#[verifier::rlimit(50)]
pub proof fn law_fields_of_the_entry_are_read(
    lines: Seq<Seq<char>>,
    k: int,
    i: int,
    field: FieldModel,
)
    requires
        in_own_group(lines, k, i),
        is_field(lines[i], field),
    ensures
        exists|f: int|
            0 <= f < fields_of(lines, lines.len()).len() && (#[trigger] fields_of(
                lines,
                lines.len(),
            )[f]).key == field.key && fields_of(lines, lines.len())[f].value == field.value,
{
    lemma_inside(lines, k, i);
    let line = lines[i];
    let n = field.key.len() as int;
    reveal_strlit("Name");
    reveal_strlit("Icon");
    reveal_strlit("StartupWMClass");
    assert forall|j: int| 0 <= j < n implies line[j] != '=' by {
        assert(line.take(n)[j] == field.key[j]);
    }
    lemma_char_from_unique(line, '=', 0, n);
    assert(line[0] == field.key[0]) by {
        assert(line.take(n)[0] == field.key[0]);
    }
    let at = fields_of(lines, i as nat).len() as int;
    let read = fields_of(lines, (i + 1) as nat);
    assert(read[at].key == field.key && read[at].value == field.value);
    lemma_fields_stay(lines, i + 1, lines.len() as int, at);
    let all = fields_of(lines, lines.len());
    assert(all[at].key == field.key);
}

proof fn lemma_fields_stay(lines: Seq<Seq<char>>, n: int, m: int, f: int)
    requires
        0 <= n <= m <= lines.len(),
        0 <= f < fields_of(lines, n as nat).len(),
    ensures
        f < fields_of(lines, m as nat).len(),
        fields_of(lines, m as nat)[f] == fields_of(lines, n as nat)[f],
    decreases m,
{
    if n < m {
        lemma_fields_stay(lines, n, m - 1, f);
    }
}

/// Nothing else is read: each field of a desktop entry is a line of the entry's own group.
pub proof fn law_only_fields_of_the_entry_are_read(lines: Seq<Seq<char>>, n: nat, f: int)
    requires
        n <= lines.len(),
        0 <= f < fields_of(lines, n).len(),
    ensures
        exists|k: int, i: int| #[trigger]
            in_own_group(lines, k, i) && i < n && is_field(lines[i], fields_of(lines, n)[f]),
    decreases n,
{
    let m = (n - 1) as nat;
    let front = fields_of(lines, m);
    if f < front.len() {
        law_only_fields_of_the_entry_are_read(lines, m, f);
        let (k, i) = choose|k: int, i: int| #[trigger]
            in_own_group(lines, k, i) && i < m && is_field(lines[i], front[f]);
        assert(in_own_group(lines, k, i) && i < n && is_field(lines[i], fields_of(lines, n)[f]));
    } else {
        let k = lemma_group_of(lines, m as int);
        let line = lines[m as int];
        lemma_char_from(line, '=', 0);
        assert(in_own_group(lines, k, m as int));
        assert(is_field(line, fields_of(lines, n)[f]));
    }
}

/// A desktop entry is a window's where the file is named after the window's class, or states it, in
/// capitals or not.
pub proof fn law_entries_are_found_by_class(
    stem: Option<Seq<char>>,
    contents: Seq<char>,
    wm_class: Seq<char>,
)
    ensures
        stem == Some(wm_class) ==> entry_matches(stem, contents, wm_class),
        value_from(entry_fields(contents), "StartupWMClass"@, 0) == Some(wm_class) ==> entry_matches(
            stem,
            contents,
            wm_class,
        ),
        entry_matches(stem, contents, wm_class) ==> {
            ||| stem is Some && ascii_folded(stem->0) == ascii_folded(wm_class)
            ||| value_from(entry_fields(contents), "StartupWMClass"@, 0) is Some && ascii_folded(
                value_from(entry_fields(contents), "StartupWMClass"@, 0)->0,
            ) == ascii_folded(wm_class)
        },
{
}

/// An icon is looked for under its own path where it names one, and otherwise as a PNG of its name
/// in the user's directory before those of the system.
pub proof fn law_icons_are_looked_for_by_name(name: Seq<char>, home: Option<Seq<char>>, i: int)
    requires
        0 <= i < icon_paths(name, home).len(),
    ensures
        ({
            let paths = icon_paths(name, home);
            let file = name + ".png"@;
            if name.len() > 0 && name[0] == '/' {
                paths == seq![name]
            } else {
                &&& paths[i].len() >= file.len()
                &&& paths[i].skip(paths[i].len() - file.len()) == file
                &&& home is Some ==> paths[0].take((home->0).len() as int) == home->0
            }
        }),
{
    let paths = icon_paths(name, home);
    let file = name + ".png"@;
    if !(name.len() > 0 && name[0] == '/') {
        let own = ".local/share/icons/hicolor/64x64/apps/"@ + file;
        if let Some(home) = home {
            let path = below(home, own);
            assert(path.skip(path.len() - file.len()) =~= file);
            assert(path.take(home.len() as int) =~= home);
        }
        let a = "/usr/share/pixmaps/"@ + file;
        let b = "/usr/share/icons/hicolor/64x64/apps/"@ + file;
        let c = "/usr/share/icons/hicolor/128x128/apps/"@ + file;
        assert(a.skip(a.len() - file.len()) =~= file);
        assert(b.skip(b.len() - file.len()) =~= file);
        assert(c.skip(c.len() - file.len()) =~= file);
    }
}

/// A capture has the best name that is known: the desktop's, else the accessibility tree's, else the
/// window's class. It is filed under the desktop's entry, else under the class.
pub proof fn law_captures_have_the_best_name(native: NativeCapture, semantic: Option<SemanticCapture>)
    ensures
        native.desktop is Some && native.desktop->0.name is Some ==> native.name_with(semantic) == (
        native.desktop->0.name->0)@,
        !(native.desktop is Some && native.desktop->0.name is Some) && semantic is Some
            ==> native.name_with(semantic) == semantic->0.app_name@,
        !(native.desktop is Some && native.desktop->0.name is Some) && semantic is None
            && native.wm_class is Some ==> native.name_with(semantic) == (native.wm_class->0)@,
        native.desktop is Some && native.desktop->0.id is Some ==> native.bundle() == Some(
            (native.desktop->0.id->0)@,
        ),
        !(native.desktop is Some && native.desktop->0.id is Some) && native.wm_class is Some
            ==> native.bundle() == Some("linux-x11:"@ + (native.wm_class->0)@),
{
}

/// Where a pixel holds red, green and blue a byte each, from the third byte down, those are its
/// colors.
pub proof fn law_pixels_have_the_colors_of_their_bytes(pixel: u32)
    ensures
        color_bytes(pixel, 16, 8, 0) == seq![
            (pixel / 0x1_0000 % 0x100) as int,
            (pixel / 0x100 % 0x100) as int,
            (pixel % 0x100) as int,
            255int,
        ],
{
    lemma2_to64();
    assert(color_bytes(pixel, 16, 8, 0) =~= seq![
        (pixel / 0x1_0000 % 0x100) as int,
        (pixel / 0x100 % 0x100) as int,
        (pixel % 0x100) as int,
        255int,
    ]);
}

} // verus!

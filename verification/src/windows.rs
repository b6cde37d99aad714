//! Captures of Windows windows: capabilities, names, icons, and what becomes of a frame.

use vstd::prelude::*;

use crate::appshots::{
    capturable, encode_rgba_png, encodes, over_budget, png_size, safe_name, shot_name,
    sides_fit, stage_appshot_png, unsupported_size, AccessibilitySnapshot, AppshotCapabilities,
    AppshotPlatform, CapabilityState, CaptureError, CaptureTarget, CapturedAppshot,
    MAX_ATTACHMENT_BYTES,
};
use crate::ids::{fresh_id, is_uuid_v4};
use crate::text::opt_text;

verus! {

/// The side of an application icon.
pub const ICON_SIDE: u32 = 64;

/// A failed capture.
pub fn windows_failed(error: &str) -> (r: CaptureError)
    ensures
        r.says("Windows Appshot capture failed: "@ + error@),
{
    let mut message = "Windows Appshot capture failed: ".to_owned();
    message.push_str(error);
    CaptureError::CaptureFailed(message)
}

/// A capture that took too long.
pub fn capture_timed_out(error: &str) -> (r: CaptureError)
    ensures
        r.says("Windows capture timed out: "@ + error@),
{
    let mut message = "Windows capture timed out: ".to_owned();
    message.push_str(error);
    CaptureError::CaptureFailed(message)
}

/// The Windows backend: whether its shortcut is registered, and whether the system can capture.
#[derive(Debug, Clone, Copy, PartialEq, Eq, Structural)]
pub struct WindowsBackend {
    pub shortcut_ready: bool,
    pub capture_supported: bool,
}

impl WindowsBackend {
    pub fn capabilities(&self) -> (r: AppshotCapabilities)
        ensures
            r == (AppshotCapabilities {
                platform: AppshotPlatform::Windows,
                global_shortcut: if self.shortcut_ready {
                    CapabilityState::Ready
                } else {
                    CapabilityState::SetupRequired
                },
                window_capture: if self.capture_supported {
                    CapabilityState::Ready
                } else {
                    CapabilityState::Unavailable
                },
                application_text: CapabilityState::Ready,
                target: CaptureTarget::ActiveWindow,
            }),
    {
        AppshotCapabilities {
            platform: AppshotPlatform::Windows,
            global_shortcut: if self.shortcut_ready {
                CapabilityState::Ready
            } else {
                CapabilityState::SetupRequired
            },
            window_capture: if self.capture_supported {
                CapabilityState::Ready
            } else {
                CapabilityState::Unavailable
            },
            application_text: CapabilityState::Ready,
            target: CaptureTarget::ActiveWindow,
        }
    }
}

/// The units of a text before its terminator, from the `i`th on.
pub open spec fn end_from(units: Seq<u16>, i: int) -> int
    decreases units.len() - i,
{
    if i < 0 || i >= units.len() {
        units.len() as int
    } else if units[i] == 0 {
        i
    } else {
        end_from(units, i + 1)
    }
}

/// Where a terminated text ends: at its first zero, or with the buffer.
pub fn text_end(units: &Vec<u16>) -> (r: usize)
    ensures
        r == end_from(units@, 0),
        r <= units@.len(),
{
    for i in 0..units.len()
        invariant
            end_from(units@, i as int) == end_from(units@, 0),
    {
        if units[i] == 0 {
            return i;
        }
    }
    units.len()
}

/// What is known of a window.
pub struct WindowMetadata {
    pub title: Option<String>,
    pub app_name: Option<String>,
    pub executable: Option<String>,
    pub application_user_model_id: Option<String>,
    pub icon_png: Option<Vec<u8>>,
}

impl WindowMetadata {
    pub open spec fn name(self) -> Seq<char> {
        match self.app_name {
            Some(name) => name@,
            None => "Windows application"@,
        }
    }

    /// What a capture is filed under: the application's own id, or its executable.
    pub open spec fn bundle(self) -> Option<Seq<char>> {
        match self.application_user_model_id {
            Some(id) => Some(id@),
            None => match self.executable {
                Some(path) => Some("windows:"@ + path@),
                None => None,
            },
        }
    }
}

/// A captured window, staged where its image is within the limits.
pub fn windows_shot(
    metadata: WindowMetadata,
    png: Vec<u8>,
    accessibility: Option<AccessibilitySnapshot>,
    captured_at: i64,
) -> (r: Result<CapturedAppshot, CaptureError>)
    ensures
        match r {
            Ok(shot) => {
                &&& png@.len() <= MAX_ATTACHMENT_BYTES
                &&& shot.screenshot_dimensions is Some
                &&& shot.screenshot_dimensions == png_size(png@)
                &&& ({
                    let (width, height) = png_size(png@)->0;
                    capturable(width, height)
                })
                &&& is_uuid_v4(shot.id@)
                &&& shot.app_name@ == metadata.name()
                &&& opt_text(shot.bundle_identifier) == metadata.bundle()
                &&& shot.window_title == metadata.title
                &&& match accessibility {
                    Some(known) => shot.accessibility == known,
                    None => shot.accessibility.format_version == 1
                        && shot.accessibility.content@.len() == 0 && !shot.accessibility.truncated,
                }
                &&& shot.screenshot.name@ == shot_name(safe_name(metadata.name()))
                &&& is_uuid_v4(shot.screenshot.id@)
                &&& shot.screenshot.bytes == png
                &&& shot.app_icon == metadata.icon_png
                &&& shot.captured_at == captured_at
            },
            Err(e) => if png@.len() > MAX_ATTACHMENT_BYTES {
                e.says("The captured window is larger than Zeron's 24 MB image limit."@)
            } else {
                match png_size(png@) {
                    None => e.says("The captured window is not a valid PNG image."@),
                    Some((width, height)) => if !sides_fit(width, height) {
                        e.says(unsupported_size(width, height))
                    } else {
                        !capturable(width, height) && e.says(over_budget(width, height))
                    },
                }
            },
        },
{
    let accessibility = match accessibility {
        Some(known) => known,
        None => AccessibilitySnapshot::unavailable(),
    };
    let app_name = match &metadata.app_name {
        Some(name) => name.clone(),
        None => "Windows application".to_owned(),
    };
    let bundle_identifier = match &metadata.application_user_model_id {
        Some(id) => Some(id.clone()),
        None => match &metadata.executable {
            Some(path) => {
                let mut bundle = "windows:".to_owned();
                bundle.push_str(path.as_str());
                Some(bundle)
            },
            None => None,
        },
    };
    match stage_appshot_png(app_name.as_str(), png) {
        Ok((screenshot, size)) => Ok(
            CapturedAppshot {
                id: fresh_id(),
                app_name,
                bundle_identifier,
                window_title: metadata.title,
                accessibility,
                screenshot,
                screenshot_dimensions: Some(size),
                app_icon: metadata.icon_png,
                captured_at,
            },
        ),
        Err(e) => Err(e),
    }
}

/// The four bytes of a drawn pixel. One that has color and no opacity was drawn without an alpha
/// channel, and is opaque.
pub open spec fn drawn_pixel(bgra: Seq<u8>, i: int) -> Seq<u8> {
    let (blue, green, red, alpha) = (bgra[4 * i], bgra[4 * i + 1], bgra[4 * i + 2], bgra[4 * i + 3]);
    let opacity = if alpha == 0 && (blue != 0 || green != 0 || red != 0) {
        255u8
    } else {
        alpha
    };
    seq![red, green, blue, opacity]
}

/// The bytes of the first `n` drawn pixels.
pub open spec fn drawn_pixels(bgra: Seq<u8>, n: nat) -> Seq<u8>
    decreases n,
{
    if n == 0 {
        Seq::empty()
    } else {
        drawn_pixels(bgra, (n - 1) as nat) + drawn_pixel(bgra, n - 1)
    }
}

/// A drawn bitmap as RGBA; bytes behind the last whole pixel are left out.
pub fn drawn_rgba(bgra: &Vec<u8>) -> (r: Vec<u8>)
    ensures
        r@ == drawn_pixels(bgra@, bgra@.len() / 4),
{
    let mut r: Vec<u8> = Vec::new();
    let count: usize = bgra.len() / 4;
    for i in 0..count
        invariant
            count == bgra@.len() / 4,
            4 * count <= usize::MAX,
            r@ == drawn_pixels(bgra@, i as nat),
    {
        let blue: u8 = bgra[4 * i];
        let green: u8 = bgra[4 * i + 1];
        let red: u8 = bgra[4 * i + 2];
        let alpha: u8 = bgra[4 * i + 3];
        r.push(red);
        r.push(green);
        r.push(blue);
        if alpha == 0 && (blue != 0 || green != 0 || red != 0) {
            r.push(255);
        } else {
            r.push(alpha);
        }
        assert(r@ =~= drawn_pixels(bgra@, (i + 1) as nat));
    }
    r
}

/// A drawn icon as a PNG.
pub fn drawn_icon_png(bgra: &Vec<u8>) -> (r: Result<Vec<u8>, CaptureError>)
    ensures
        encodes(ICON_SIDE, ICON_SIDE, drawn_pixels(bgra@, bgra@.len() / 4), "Windows"@, r),
{
    let rgba = drawn_rgba(bgra);
    encode_rgba_png(ICON_SIDE, ICON_SIDE, rgba.as_slice(), "Windows")
}

/// A drawn pixel keeps its colors in the order red, green, blue, and its opacity; only one that has
/// color and no opacity is made opaque, and a blank one stays blank.
pub proof fn law_drawn_pixels_keep_their_colors(bgra: Seq<u8>, n: nat, i: int)
    requires
        4 * n <= bgra.len(),
        0 <= i < n,
    ensures
        ({
            let rgba = drawn_pixels(bgra, n);
            &&& rgba.len() == 4 * n
            &&& rgba[4 * i] == bgra[4 * i + 2]
            &&& rgba[4 * i + 1] == bgra[4 * i + 1]
            &&& rgba[4 * i + 2] == bgra[4 * i]
            &&& bgra[4 * i + 3] != 0 ==> rgba[4 * i + 3] == bgra[4 * i + 3]
            &&& bgra[4 * i + 3] == 0 ==> (rgba[4 * i + 3] == 0 <==> bgra[4 * i] == 0 && bgra[4 * i
                + 1] == 0 && bgra[4 * i + 2] == 0)
            &&& bgra[4 * i + 3] == 0 ==> rgba[4 * i + 3] == 0 || rgba[4 * i + 3] == 255
        }),
    decreases n,
{
    let rgba = drawn_pixels(bgra, n);
    let before = drawn_pixels(bgra, (n - 1) as nat);
    lemma_drawn_len(bgra, (n - 1) as nat);
    if i < n - 1 {
        law_drawn_pixels_keep_their_colors(bgra, (n - 1) as nat, i);
        assert(rgba[4 * i] == before[4 * i]);
        assert(rgba[4 * i + 1] == before[4 * i + 1]);
        assert(rgba[4 * i + 2] == before[4 * i + 2]);
        assert(rgba[4 * i + 3] == before[4 * i + 3]);
    } else {
        let own = drawn_pixel(bgra, i);
        assert(rgba[4 * i] == own[0]);
        assert(rgba[4 * i + 1] == own[1]);
        assert(rgba[4 * i + 2] == own[2]);
        assert(rgba[4 * i + 3] == own[3]);
    }
}

proof fn lemma_drawn_len(bgra: Seq<u8>, n: nat)
    ensures
        drawn_pixels(bgra, n).len() == 4 * n,
    decreases n,
{
    if n > 0 {
        lemma_drawn_len(bgra, (n - 1) as nat);
    }
}

/// A terminated text ends at its first zero; one without a zero fills its buffer.
pub proof fn law_texts_end_at_their_first_zero(units: Seq<u16>, from: int)
    requires
        0 <= from <= units.len(),
    ensures
        from <= end_from(units, from) <= units.len(),
        forall|j: int| from <= j < end_from(units, from) ==> #[trigger] units[j] != 0,
        end_from(units, from) < units.len() ==> units[end_from(units, from)] == 0,
    decreases units.len() - from,
{
    if from < units.len() && units[from] != 0 {
        law_texts_end_at_their_first_zero(units, from + 1);
    }
}

/// A capture is named after its application, and filed under the application's id, or else under its
/// executable.
pub proof fn law_captures_are_filed_by_application(known: WindowMetadata)
    ensures
        known.app_name is Some ==> known.name() == (known.app_name->0)@,
        known.application_user_model_id is Some ==> known.bundle() == Some(
            (known.application_user_model_id->0)@,
        ),
        known.application_user_model_id is None && known.executable is Some ==> known.bundle()
            == Some("windows:"@ + (known.executable->0)@),
        known.application_user_model_id is None && known.executable is None
            ==> known.bundle() is None,
{
}

} // verus!

//! Appshots: user-triggered captures of the frontmost application window.
//!
//! Capture stays on the viewer device. The screenshot reuses the ordinary attachment transport;
//! accessibility-derived application context is serialized into the prompt as explicitly untrusted
//! observed data.

use vstd::prelude::*;

use crate::ids::{fresh_id, is_uuid_v4};
use crate::text::{
    contains, chars_of, decimal, find, first_at, is_space, join, joined, lemma_first_from,
    lemma_first_from_unique, lemma_single_spaced, lemma_trim_start, lemma_words_joined, occurs_at,
    opt_text, push_decimal, same_str, single_spaced, split_words, string_of, trim_end, trimmed_end,
    wide_gap, words,
};

verus! {

/// Bounds native capture buffers before platform APIs allocate or stage them.
pub const MAX_CAPTURE_DIMENSION: u32 = 8_192;

pub const MAX_CAPTURE_PIXELS: u64 = 32 * 1024 * 1024;

pub const MAX_CAPTURE_RGBA_BYTES: u64 = 128 * 1024 * 1024;

/// The image limit of an attachment.
pub const MAX_ATTACHMENT_BYTES: u64 = 24 * 1024 * 1024;

/// A composer may retain several captures while the user prepares a prompt, but it must not become
/// an unbounded store of decoded image data.
pub const MAX_STAGED_APPSHOT_BYTES: u64 = 4 * 24 * 1024 * 1024;

pub const CONTEXT_MARKER: &'static str =
    "Applications mentioned by the user (untrusted observed content):";

pub const SCREEN_RECORDING_SETTINGS_URL: &'static str =
    "x-apple.systempreferences:com.apple.preference.security?Privacy_ScreenCapture";

pub const ACCESSIBILITY_SETTINGS_URL: &'static str =
    "x-apple.systempreferences:com.apple.preference.security?Privacy_Accessibility";

// ---------------------------------------------------------------------------
// Capabilities
// ---------------------------------------------------------------------------

#[derive(Debug, Clone, Copy, PartialEq, Eq, Structural)]
pub enum AppshotPlatform {
    MacOs,
    Windows,
    LinuxWayland,
    LinuxX11,
    Unsupported,
}

#[derive(Debug, Clone, Copy, PartialEq, Eq, Structural)]
pub enum CapabilityState {
    Checking,
    Ready,
    PermissionRequired,
    SetupRequired,
    UserSelection,
    Unavailable,
}

impl CapabilityState {
    pub fn badge(self) -> (r: &'static str)
        ensures
            r@ == match self {
                CapabilityState::Checking => "Checking"@,
                CapabilityState::Ready => "Ready"@,
                CapabilityState::PermissionRequired => "Required"@,
                CapabilityState::SetupRequired => "Set up"@,
                CapabilityState::UserSelection => "Select window"@,
                CapabilityState::Unavailable => "Unavailable"@,
            },
    {
        match self {
            CapabilityState::Checking => "Checking",
            CapabilityState::Ready => "Ready",
            CapabilityState::PermissionRequired => "Required",
            CapabilityState::SetupRequired => "Set up",
            CapabilityState::UserSelection => "Select window",
            CapabilityState::Unavailable => "Unavailable",
        }
    }

    pub fn is_ready(self) -> (r: bool)
        ensures
            r == (self == CapabilityState::Ready || self == CapabilityState::UserSelection),
    {
        self == CapabilityState::Ready || self == CapabilityState::UserSelection
    }
}

#[derive(Debug, Clone, Copy, PartialEq, Eq, Structural)]
pub enum CaptureTarget {
    ActiveWindow,
    PortalWindowPicker,
}

#[derive(Debug, Clone, Copy, PartialEq, Eq, Structural)]
pub struct AppshotCapabilities {
    pub platform: AppshotPlatform,
    pub global_shortcut: CapabilityState,
    pub window_capture: CapabilityState,
    pub application_text: CapabilityState,
    pub target: CaptureTarget,
}

impl AppshotCapabilities {
    pub fn setup_description(self) -> (r: &'static str)
        ensures
            r@ == match self.platform {
                AppshotPlatform::MacOs => "Set up once, one permission at a time. Screen Recording captures the window; Accessibility optionally adds off-screen application text."@,
                AppshotPlatform::Windows => "Windows normally needs no advance setup. UI Automation adds application text when the target allows it."@,
                AppshotPlatform::LinuxWayland => "Your desktop owns capture and shortcut consent. Zeron checks each portal capability separately and explains any required fallback."@,
                AppshotPlatform::LinuxX11 => "X11 normally needs no capture permission. Zeron prefers an active-window screenshot portal when available and otherwise uses native X11 capture."@,
                AppshotPlatform::Unsupported => "This platform does not currently provide an Appshot capture backend."@,
            },
    {
        match self.platform {
            AppshotPlatform::MacOs => "Set up once, one permission at a time. Screen Recording captures the window; Accessibility optionally adds off-screen application text.",
            AppshotPlatform::Windows => "Windows normally needs no advance setup. UI Automation adds application text when the target allows it.",
            AppshotPlatform::LinuxWayland => "Your desktop owns capture and shortcut consent. Zeron checks each portal capability separately and explains any required fallback.",
            AppshotPlatform::LinuxX11 => "X11 normally needs no capture permission. Zeron prefers an active-window screenshot portal when available and otherwise uses native X11 capture.",
            AppshotPlatform::Unsupported => "This platform does not currently provide an Appshot capture backend.",
        }
    }

    pub fn shortcut_label(self) -> (r: &'static str)
        ensures
            r@ == match self.platform {
                AppshotPlatform::MacOs => "Control-Option-Space (⌃⌥Space)"@,
                AppshotPlatform::Unsupported => "Unavailable"@,
                _ => "Control-Alt-Space"@,
            },
    {
        match self.platform {
            AppshotPlatform::MacOs => "Control-Option-Space (⌃⌥Space)",
            AppshotPlatform::Unsupported => "Unavailable",
            _ => "Control-Alt-Space",
        }
    }

    pub fn shortcut_description(self) -> (r: &'static str)
        ensures
            r@ == match self.platform {
                AppshotPlatform::LinuxWayland => if self.global_shortcut == CapabilityState::Ready {
                    "Your desktop portal owns and delivers the global shortcut."@
                } else {
                    "Bind `zeron appshot` in your desktop's Keyboard Shortcuts settings."@
                },
                AppshotPlatform::Unsupported => "This platform has no Appshot shortcut backend."@,
                _ => "The shortcut works while another application has focus."@,
            },
    {
        match self.platform {
            AppshotPlatform::LinuxWayland => if self.global_shortcut == CapabilityState::Ready {
                "Your desktop portal owns and delivers the global shortcut."
            } else {
                "Bind `zeron appshot` in your desktop's Keyboard Shortcuts settings."
            },
            AppshotPlatform::Unsupported => "This platform has no Appshot shortcut backend.",
            _ => "The shortcut works while another application has focus.",
        }
    }

    pub fn capture_description(self) -> (r: &'static str)
        ensures
            r@ == match (self.platform, self.target) {
                (AppshotPlatform::MacOs, _) => "Screen Recording lets Zeron capture the frontmost window. macOS may request one restart."@,
                (AppshotPlatform::Windows, _) => "Windows captures the foreground compositor surface without opening a picker."@,
                (AppshotPlatform::LinuxX11, _) => "Zeron prefers portal active-window capture, then falls back to the X11 drawable; obscured or protected windows may be incomplete."@,
                (AppshotPlatform::LinuxWayland, CaptureTarget::ActiveWindow) => "Your screenshot portal supports the active-window target. A system consent surface may appear."@,
                (AppshotPlatform::LinuxWayland, CaptureTarget::PortalWindowPicker) => "Your portal requires choosing a window for each capture."@,
                (AppshotPlatform::Unsupported, _) => "Active-window capture is unavailable on this platform."@,
            },
    {
        match (self.platform, self.target) {
            (AppshotPlatform::MacOs, _) => "Screen Recording lets Zeron capture the frontmost window. macOS may request one restart.",
            (AppshotPlatform::Windows, _) => "Windows captures the foreground compositor surface without opening a picker.",
            (AppshotPlatform::LinuxX11, _) => "Zeron prefers portal active-window capture, then falls back to the X11 drawable; obscured or protected windows may be incomplete.",
            (AppshotPlatform::LinuxWayland, CaptureTarget::ActiveWindow) => "Your screenshot portal supports the active-window target. A system consent surface may appear.",
            (AppshotPlatform::LinuxWayland, CaptureTarget::PortalWindowPicker) => "Your portal requires choosing a window for each capture.",
            (AppshotPlatform::Unsupported, _) => "Active-window capture is unavailable on this platform.",
        }
    }

    pub fn semantic_description(self) -> (r: &'static str)
        ensures
            r@ == match self.platform {
                AppshotPlatform::MacOs => "Accessibility adds visible and off-screen application text. Screenshots work without it."@,
                AppshotPlatform::Windows => "UI Automation adds application text. Elevated and protected applications may return less context."@,
                AppshotPlatform::Unsupported => "Semantic application text is unavailable on this platform."@,
                _ => "AT-SPI adds application text when the target exposes an accessibility tree."@,
            },
    {
        match self.platform {
            AppshotPlatform::MacOs => "Accessibility adds visible and off-screen application text. Screenshots work without it.",
            AppshotPlatform::Windows => "UI Automation adds application text. Elevated and protected applications may return less context.",
            AppshotPlatform::Unsupported => "Semantic application text is unavailable on this platform.",
            _ => "AT-SPI adds application text when the target exposes an accessibility tree.",
        }
    }
}

/// What a backend answers of itself. Without a backend, nothing is available.
pub fn capabilities(backend: Option<AppshotCapabilities>) -> (r: AppshotCapabilities)
    ensures
        r == match backend {
            Some(known) => known,
            None => AppshotCapabilities {
                platform: AppshotPlatform::Unsupported,
                global_shortcut: CapabilityState::Unavailable,
                window_capture: CapabilityState::Unavailable,
                application_text: CapabilityState::Unavailable,
                target: CaptureTarget::ActiveWindow,
            },
        },
{
    match backend {
        Some(known) => known,
        None => AppshotCapabilities {
            platform: AppshotPlatform::Unsupported,
            global_shortcut: CapabilityState::Unavailable,
            window_capture: CapabilityState::Unavailable,
            application_text: CapabilityState::Unavailable,
            target: CaptureTarget::ActiveWindow,
        },
    }
}

/// Where the system's settings grant capture, on platforms that have such a place.
pub fn capture_settings_url(platform: AppshotPlatform) -> (r: Option<&'static str>)
    ensures
        r == if platform == AppshotPlatform::MacOs {
            Some(SCREEN_RECORDING_SETTINGS_URL)
        } else {
            None
        },
{
    if platform == AppshotPlatform::MacOs {
        Some(SCREEN_RECORDING_SETTINGS_URL)
    } else {
        None
    }
}

/// Where the system's settings grant application text, on platforms that have such a place.
pub fn semantic_settings_url(platform: AppshotPlatform) -> (r: Option<&'static str>)
    ensures
        r == if platform == AppshotPlatform::MacOs {
            Some(ACCESSIBILITY_SETTINGS_URL)
        } else {
            None
        },
{
    if platform == AppshotPlatform::MacOs {
        Some(ACCESSIBILITY_SETTINGS_URL)
    } else {
        None
    }
}

/// Whether captures are switched on.
#[derive(Debug, Clone, Copy, PartialEq, Eq, Structural)]
pub struct AppshotSwitch {
    pub enabled: bool,
}

impl AppshotSwitch {
    /// Off until it is switched on.
    pub fn new() -> (r: Self)
        ensures
            !r.enabled,
    {
        AppshotSwitch { enabled: false }
    }
}

pub fn set_enabled(switch: &mut AppshotSwitch, enabled: bool)
    ensures
        final(switch).enabled == enabled,
{
    switch.enabled = enabled;
}

pub fn enabled(switch: &AppshotSwitch) -> (r: bool)
    ensures
        r == switch.enabled,
{
    switch.enabled
}

#[derive(Debug, Clone, Copy, PartialEq, Eq, Structural)]
pub enum AppshotDestination {
    Automatic,
    LastSession,
    NewSession,
}

impl Default for AppshotDestination {
    fn default() -> (r: Self)
        ensures
            r == AppshotDestination::Automatic,
    {
        AppshotDestination::Automatic
    }
}

impl AppshotDestination {
    pub fn all() -> (r: Vec<Self>)
        ensures
            r@ == seq![
                AppshotDestination::Automatic,
                AppshotDestination::LastSession,
                AppshotDestination::NewSession,
            ],
    {
        let mut r: Vec<Self> = Vec::new();
        r.push(AppshotDestination::Automatic);
        r.push(AppshotDestination::LastSession);
        r.push(AppshotDestination::NewSession);
        r
    }

    pub fn label(self) -> (r: &'static str)
        ensures
            r@ == match self {
                AppshotDestination::Automatic => "Automatic"@,
                AppshotDestination::LastSession => "Last session"@,
                AppshotDestination::NewSession => "New session"@,
            },
    {
        match self {
            AppshotDestination::Automatic => "Automatic",
            AppshotDestination::LastSession => "Last session",
            AppshotDestination::NewSession => "New session",
        }
    }
}

// ---------------------------------------------------------------------------
// Captures
// ---------------------------------------------------------------------------

#[derive(Debug, PartialEq, Eq)]
pub struct AccessibilitySnapshot {
    pub format_version: u32,
    pub content: String,
    pub truncated: bool,
}

impl AccessibilitySnapshot {
    pub fn unavailable() -> (r: Self)
        ensures
            r.format_version == 1,
            r.content@ == Seq::<char>::empty(),
            !r.truncated,
    {
        AccessibilitySnapshot { format_version: 1, content: String::new(), truncated: false }
    }
}

/// An image that waits in the composer.
#[derive(Debug, PartialEq, Eq)]
pub struct StagedAttachment {
    pub id: String,
    pub name: String,
    pub bytes: Vec<u8>,
}

/// A captured window.
pub struct CapturedAppshot {
    pub id: String,
    pub app_name: String,
    pub bundle_identifier: Option<String>,
    pub window_title: Option<String>,
    pub accessibility: AccessibilitySnapshot,
    pub screenshot: StagedAttachment,
    /// Pixel dimensions of the captured PNG.
    pub screenshot_dimensions: Option<(u32, u32)>,
    /// A PNG, for presentation only: never uploaded or serialized into the model context.
    pub app_icon: Option<Vec<u8>>,
    /// Milliseconds since the epoch.
    pub captured_at: i64,
}

#[derive(Debug, PartialEq, Eq)]
pub enum CaptureError {
    PermissionRequired,
    NoEligibleWindow,
    ShortcutUnavailable,
    CaptureFailed(String),
}

impl CaptureError {
    /// What the error says.
    pub open spec fn text(self) -> Seq<char> {
        match self {
            CaptureError::PermissionRequired => "Window capture permission is required. Open Zeron Settings → Shortcuts for the platform-specific recovery step."@,
            CaptureError::NoEligibleWindow => "No application window is available to capture."@,
            CaptureError::ShortcutUnavailable => "The Appshot shortcut could not be registered because another app may be using it."@,
            CaptureError::CaptureFailed(message) => message@,
        }
    }

    pub fn message(&self) -> (r: String)
        ensures
            r@ == self.text(),
    {
        match self {
            CaptureError::PermissionRequired => "Window capture permission is required. Open Zeron Settings → Shortcuts for the platform-specific recovery step.".to_owned(),
            CaptureError::NoEligibleWindow => "No application window is available to capture.".to_owned(),
            CaptureError::ShortcutUnavailable => "The Appshot shortcut could not be registered because another app may be using it.".to_owned(),
            CaptureError::CaptureFailed(message) => message.clone(),
        }
    }

    /// Whether this is a failed capture with that message.
    pub open spec fn says(self, message: Seq<char>) -> bool {
        self is CaptureFailed && self.text() == message
    }
}

/// A failed capture.
pub fn failed(message: &str) -> (r: CaptureError)
    ensures
        r.says(message@),
{
    CaptureError::CaptureFailed(message.to_owned())
}

// ---------------------------------------------------------------------------
// Images
// ---------------------------------------------------------------------------

/// A big-endian number.
pub open spec fn be32(bytes: Seq<u8>, at: int) -> int {
    bytes[at] * 0x100_0000 + bytes[at + 1] * 0x1_0000 + bytes[at + 2] * 0x100 + bytes[at + 3]
}

/// A PNG's first bytes: its signature, and the header chunk's name.
pub open spec fn png_header(bytes: Seq<u8>) -> bool {
    &&& bytes.len() >= 24
    &&& bytes[0] == 0x89 && bytes[1] == 0x50 && bytes[2] == 0x4e && bytes[3] == 0x47
    &&& bytes[4] == 0x0d && bytes[5] == 0x0a && bytes[6] == 0x1a && bytes[7] == 0x0a
    &&& bytes[12] == 0x49 && bytes[13] == 0x48 && bytes[14] == 0x44 && bytes[15] == 0x52
}

/// The width and height that a PNG's header states.
pub open spec fn png_size(bytes: Seq<u8>) -> Option<(u32, u32)> {
    if png_header(bytes) && be32(bytes, 16) > 0 && be32(bytes, 20) > 0 {
        Some((be32(bytes, 16) as u32, be32(bytes, 20) as u32))
    } else {
        None
    }
}

fn read_be32(bytes: &[u8], at: usize) -> (r: u32)
    requires
        at + 4 <= bytes@.len(),
    ensures
        r == be32(bytes@, at as int),
{
    bytes[at] as u32 * 0x100_0000 + bytes[at + 1] as u32 * 0x1_0000 + bytes[at + 2] as u32 * 0x100
        + bytes[at + 3] as u32
}

/// Read the width and height from a PNG's header chunk without decoding the image.
pub fn png_dimensions(bytes: &[u8]) -> (r: Option<(u32, u32)>)
    ensures
        r == png_size(bytes@),
{
    if bytes.len() < 24 || bytes[0] != 0x89 || bytes[1] != 0x50 || bytes[2] != 0x4e || bytes[3]
        != 0x47 || bytes[4] != 0x0d || bytes[5] != 0x0a || bytes[6] != 0x1a || bytes[7] != 0x0a
        || bytes[12] != 0x49 || bytes[13] != 0x48 || bytes[14] != 0x44 || bytes[15] != 0x52 {
        return None;
    }
    let width: u32 = read_be32(bytes, 16);
    let height: u32 = read_be32(bytes, 20);
    if width > 0 && height > 0 {
        Some((width, height))
    } else {
        None
    }
}

/// `width×height`.
pub open spec fn size_text(width: u32, height: u32) -> Seq<char> {
    decimal(width as nat) + seq!['×'] + decimal(height as nat)
}

pub open spec fn unsupported_size(width: u32, height: u32) -> Seq<char> {
    "The captured window dimensions ("@ + size_text(width, height) + ") are not supported."@
}

pub open spec fn over_budget(width: u32, height: u32) -> Seq<char> {
    "The captured window ("@ + size_text(width, height) + ") exceeds Zeron's capture budget."@
}

/// Neither side is empty or over the bound.
pub open spec fn sides_fit(width: u32, height: u32) -> bool {
    0 < width <= MAX_CAPTURE_DIMENSION && 0 < height <= MAX_CAPTURE_DIMENSION
}

/// The dimensions of a capture that may be staged.
pub open spec fn capturable(width: u32, height: u32) -> bool {
    sides_fit(width, height) && width * height <= MAX_CAPTURE_PIXELS
}

fn push_size(s: &mut String, width: u32, height: u32)
    ensures
        final(s)@ == old(s)@ + size_text(width, height),
{
    let ghost start = s@;
    push_decimal(s, width as u64);
    s.push('×');
    push_decimal(s, height as u64);
    assert(s@ =~= start + size_text(width, height));
}

/// The bytes of an RGBA buffer of this size, where it is within the capture bounds.
pub fn validate_capture_dimensions(width: u32, height: u32) -> (r: Result<usize, CaptureError>)
    ensures
        match r {
            Ok(bytes) => capturable(width, height) && bytes == 4 * (width * height),
            Err(e) => if !sides_fit(width, height) {
                e.says(unsupported_size(width, height))
            } else {
                !capturable(width, height) && e.says(over_budget(width, height))
            },
        },
{
    if width == 0 || height == 0 || width > MAX_CAPTURE_DIMENSION || height
        > MAX_CAPTURE_DIMENSION {
        let mut message = "The captured window dimensions (".to_owned();
        push_size(&mut message, width, height);
        message.push_str(") are not supported.");
        return Err(CaptureError::CaptureFailed(message));
    }
    assert(width * height <= 8192 * 8192) by (nonlinear_arith)
        requires
            width <= 8192,
            height <= 8192,
    ;
    let pixels: u64 = width as u64 * height as u64;
    let rgba_bytes: u64 = pixels * 4;
    if pixels > MAX_CAPTURE_PIXELS || rgba_bytes > MAX_CAPTURE_RGBA_BYTES {
        let mut message = "The captured window (".to_owned();
        push_size(&mut message, width, height);
        message.push_str(") exceeds Zeron's capture budget.");
        return Err(CaptureError::CaptureFailed(message));
    }
    Ok(rgba_bytes as usize)
}

/// A control character.
pub open spec fn is_control(c: char) -> bool {
    (c as u32) < 0x20 || 0x7f <= (c as u32) <= 0x9f
}

/// A character that may stand in a filename, or a dash in its place.
pub open spec fn safe_char(c: char) -> char {
    if is_control(c) || c == '/' || c == '\\' || c == ':' {
        '-'
    } else {
        c
    }
}

/// Characters that a filename neither starts nor ends with.
pub open spec fn is_edge(c: char) -> bool {
    c == '.' || c == '-' || c == ' '
}

pub open spec fn trim_edges_start(s: Seq<char>) -> Seq<char>
    decreases s.len(),
{
    if s.len() > 0 && is_edge(s[0]) {
        trim_edges_start(s.skip(1))
    } else {
        s
    }
}

pub open spec fn trim_edges_end(s: Seq<char>) -> Seq<char>
    decreases s.len(),
{
    if s.len() > 0 && is_edge(s.last()) {
        trim_edges_end(s.drop_last())
    } else {
        s
    }
}

/// The first hundred characters, made safe, with single spaces between words and clean edges.
pub open spec fn safe_stem(value: Seq<char>) -> Seq<char> {
    let first = if value.len() > 100 {
        value.take(100)
    } else {
        value
    };
    let safe = first.map_values(|c: char| safe_char(c));
    trim_edges_end(trim_edges_start(join(words(safe), seq![' '])))
}

/// The name of an application as one filename component.
pub open spec fn safe_name(value: Seq<char>) -> Seq<char> {
    if safe_stem(value).len() == 0 {
        "Application"@
    } else {
        safe_stem(value)
    }
}

proof fn lemma_trim_edges(s: Seq<char>)
    ensures
        ({
            let start = trim_edges_start(s);
            let r = trim_edges_end(start);
            &&& start.len() <= s.len() && start == s.skip(s.len() - start.len())
            &&& r.len() <= start.len() && r == start.take(r.len() as int)
            &&& r.len() > 0 ==> !is_edge(r[0]) && !is_edge(r.last())
        }),
{
    lemma_trim_edges_start(s);
    lemma_trim_edges_end(trim_edges_start(s));
}

proof fn lemma_trim_edges_start(s: Seq<char>)
    ensures
        trim_edges_start(s).len() <= s.len(),
        trim_edges_start(s) == s.skip(s.len() - trim_edges_start(s).len()),
        trim_edges_start(s).len() > 0 ==> !is_edge(trim_edges_start(s)[0]),
    decreases s.len(),
{
    let r = trim_edges_start(s);
    if s.len() > 0 && is_edge(s[0]) {
        lemma_trim_edges_start(s.skip(1));
        assert(s.skip(1).skip(s.skip(1).len() - r.len()) =~= s.skip(s.len() - r.len()));
    } else {
        assert(s.skip(0) =~= s);
    }
}

proof fn lemma_trim_edges_end(s: Seq<char>)
    ensures
        trim_edges_end(s).len() <= s.len(),
        trim_edges_end(s) == s.take(trim_edges_end(s).len() as int),
        trim_edges_end(s).len() > 0 ==> !is_edge(trim_edges_end(s).last()),
    decreases s.len(),
{
    let r = trim_edges_end(s);
    if s.len() > 0 && is_edge(s.last()) {
        lemma_trim_edges_end(s.drop_last());
        assert(s.drop_last().take(r.len() as int) =~= s.take(r.len() as int));
    } else {
        assert(s.take(s.len() as int) =~= s);
    }
}

/// One safe filename component: at most a hundred characters, no control or separator character,
/// words with one space between each two of them, and clean edges.
pub open spec fn is_component(s: Seq<char>) -> bool {
    &&& 0 < s.len() <= 100
    &&& forall|i: int| 0 <= i < s.len() ==> safe_char(#[trigger] s[i]) == s[i]
    &&& single_spaced(s)
    &&& !is_edge(s[0])
    &&& !is_edge(s.last())
}

/// A component is its own name.
proof fn lemma_component_is_kept(s: Seq<char>)
    requires
        is_component(s),
    ensures
        safe_name(s) == s,
{
    let safe = s.map_values(|c: char| safe_char(c));
    assert(safe =~= s);
    lemma_single_spaced(s);
    lemma_trim_edges(s);
    assert(trim_edges_start(s) == s);
    assert(trim_edges_end(s) == s);
}

/// The name of an application is always one safe filename component, whatever the system gave, and
/// making it safe once more changes nothing.
pub proof fn law_names_are_safe_components(value: Seq<char>)
    ensures
        is_component(safe_name(value)),
        forall|i: int|
            0 <= i < safe_name(value).len() ==> {
                let c = #[trigger] safe_name(value)[i];
                !is_control(c) && c != '/' && c != '\\' && c != ':'
            },
        safe_name(safe_name(value)) == safe_name(value),
{
    let r = safe_stem(value);
    if r.len() == 0 {
        reveal_strlit("Application");
        let name = "Application"@;
        assert(single_spaced(name)) by {
            assert forall|i: int| 0 <= i < name.len() implies !is_space(#[trigger] name[i]) by {}
            assert forall|i: int| 0 <= i < name.len() - 1 implies !#[trigger] wide_gap(
                name,
                i,
            ) by {
                assert(!is_space(name[i]));
            }
        }
        assert(is_component(name));
    } else {
        let first = if value.len() > 100 {
            value.take(100)
        } else {
            value
        };
        let safe = first.map_values(|c: char| safe_char(c));
        let line = join(words(safe), seq![' ']);
        lemma_words_joined(safe);
        lemma_trim_start(safe);
        lemma_trim_edges(line);
        let from = line.len() - trim_edges_start(line).len();
        assert forall|i: int| 0 <= i < r.len() implies #[trigger] r[i] == line[from + i] by {}
        assert forall|i: int| 0 <= i < line.len() implies safe_char(#[trigger] line[i])
            == line[i] by {
            if line[i] != ' ' {
                let k = choose|k: int| 0 <= k < safe.len() && safe[k] == line[i];
                assert(safe[k] == safe_char(first[k]));
            }
        }
        assert forall|i: int| 0 <= i < r.len() implies safe_char(#[trigger] r[i]) == r[i] by {
            assert(r[i] == line[from + i]);
        }
        assert(single_spaced(r)) by {
            assert forall|i: int| 0 <= i < r.len() && is_space(#[trigger] r[i]) implies r[i]
                == ' ' by {
                assert(r[i] == line[from + i]);
            }
            assert forall|i: int| 0 <= i < r.len() - 1 implies !#[trigger] wide_gap(r, i) by {
                assert(!wide_gap(line, from + i));
                assert(r[i] == line[from + i]);
                assert(r[i + 1] == line[from + i + 1]);
            }
        }
        assert(is_component(r));
    }
    lemma_component_is_kept(safe_name(value));
    assert forall|i: int| 0 <= i < safe_name(value).len() implies {
        let c = #[trigger] safe_name(value)[i];
        !is_control(c) && c != '/' && c != '\\' && c != ':'
    } by {
        assert(safe_char(safe_name(value)[i]) == safe_name(value)[i]);
    }
}

fn edge(c: char) -> (r: bool)
    ensures
        r == is_edge(c),
{
    c == '.' || c == '-' || c == ' '
}

fn trimmed_edges(s: &[char]) -> (r: Vec<char>)
    ensures
        r@ == trim_edges_end(trim_edges_start(s@)),
{
    let mut start: usize = 0;
    assert(s@.skip(0) =~= s@);
    while start < s.len() && edge(s[start])
        invariant
            start <= s@.len(),
            trim_edges_start(s@.skip(start as int)) == trim_edges_start(s@),
        decreases s@.len() - start,
    {
        proof {
            let rest = s@.skip(start as int);
            assert(rest[0] == s@[start as int]);
            assert(rest.skip(1) =~= s@.skip(start + 1));
        }
        start += 1;
    }
    let ghost from = s@.skip(start as int);
    assert(from == trim_edges_start(s@)) by {
        if start < s@.len() {
            assert(from[0] == s@[start as int]);
        }
    }
    let mut end: usize = s.len();
    assert(from.take(end - start) =~= from);
    while end > start && edge(s[end - 1])
        invariant
            start <= end <= s@.len(),
            from == s@.skip(start as int),
            trim_edges_end(from.take(end - start)) == trim_edges_end(from),
        decreases end,
    {
        proof {
            let rest = from.take(end - start);
            assert(rest.last() == s@[end - 1]);
            assert(rest.drop_last() =~= from.take(end - start - 1));
        }
        end -= 1;
    }
    let ghost kept = from.take(end - start);
    assert(kept == trim_edges_end(from)) by {
        if end > start {
            assert(kept.last() == s@[end - 1]);
        }
    }
    let mut r: Vec<char> = Vec::new();
    for i in start..end
        invariant
            start <= end <= s@.len(),
            r@ == s@.subrange(start as int, i as int),
    {
        r.push(s[i]);
        assert(r@ =~= s@.subrange(start as int, i + 1));
    }
    assert(r@ =~= kept);
    r
}

/// Turn an application name into one safe filename component.
pub fn safe_app_name(value: &str) -> (r: String)
    ensures
        r@ == safe_name(value@),
        is_component(r@),
{
    proof {
        law_names_are_safe_components(value@);
    }
    let chars = chars_of(value);
    let n: usize = if chars.len() > 100 {
        100
    } else {
        chars.len()
    };
    let mut safe: Vec<char> = Vec::new();
    let ghost first = if value@.len() > 100 {
        value@.take(100)
    } else {
        value@
    };
    let ghost all = first.map_values(|c: char| safe_char(c));
    for i in 0..n
        invariant
            n <= chars@.len(),
            n == first.len(),
            chars@ == value@,
            forall|k: int| 0 <= k < n ==> first[k] == chars@[k],
            all == first.map_values(|c: char| safe_char(c)),
            safe@ =~= all.take(i as int),
    {
        let c = chars[i];
        let code: u32 = c as u32;
        if code < 0x20 || (0x7f <= code && code <= 0x9f) || c == '/' || c == '\\' || c == ':' {
            safe.push('-');
        } else {
            safe.push(c);
        }
        proof {
            assert(all[i as int] == safe_char(first[i as int]));
        }
    }
    assert(safe@ =~= all);
    let parts = split_words(safe.as_slice());
    proof {
        reveal_strlit(" ");
        assert(" "@ =~= seq![' ']);
    }
    let line = joined(&parts, " ");
    let kept = trimmed_edges(line.as_slice());
    if kept.len() == 0 {
        "Application".to_owned()
    } else {
        string_of(kept.as_slice())
    }
}

/// A PNG becomes an attachment under a fresh id.
pub fn stage_png_bytes(name: String, bytes: Vec<u8>) -> (r: StagedAttachment)
    ensures
        is_uuid_v4(r.id@),
        r.name == name,
        r.bytes == bytes,
{
    StagedAttachment { id: fresh_id(), name, bytes }
}

/// The name of an appshot's image.
pub open spec fn shot_name(app_name: Seq<char>) -> Seq<char> {
    app_name + " Appshot.png"@
}

pub(crate) fn shot_file(app_name: &str) -> (r: String)
    ensures
        r@ == shot_name(app_name@),
{
    let mut r = app_name.to_owned();
    r.push_str(" Appshot.png");
    r
}

/// Stage a capture under its application's name, with its dimensions, where it is a PNG within the
/// attachment limit and the capture bounds.
pub fn stage_appshot_png(app_name: &str, bytes: Vec<u8>) -> (r: Result<
    (StagedAttachment, (u32, u32)),
    CaptureError,
>)
    ensures
        match r {
            Ok((staged, size)) => {
                &&& bytes@.len() <= MAX_ATTACHMENT_BYTES
                &&& png_size(bytes@) == Some(size)
                &&& ({
                    let (width, height) = size;
                    capturable(width, height)
                })
                &&& is_uuid_v4(staged.id@)
                &&& staged.name@ == shot_name(safe_name(app_name@))
                &&& staged.bytes == bytes
            },
            Err(e) => if bytes@.len() > MAX_ATTACHMENT_BYTES {
                e.says("The captured window is larger than Zeron's 24 MB image limit."@)
            } else {
                match png_size(bytes@) {
                    None => e.says("The captured window is not a valid PNG image."@),
                    Some((width, height)) => if !sides_fit(width, height) {
                        e.says(unsupported_size(width, height))
                    } else {
                        !capturable(width, height) && e.says(over_budget(width, height))
                    },
                }
            },
        },
{
    if bytes.len() as u64 > MAX_ATTACHMENT_BYTES {
        return Err(failed("The captured window is larger than Zeron's 24 MB image limit."));
    }
    let (width, height) = match png_dimensions(bytes.as_slice()) {
        Some(size) => size,
        None => {
            return Err(failed("The captured window is not a valid PNG image."));
        },
    };
    match validate_capture_dimensions(width, height) {
        Ok(_) => {},
        Err(e) => {
            return Err(e);
        },
    }
    let app_name = safe_app_name(app_name);
    let name = shot_file(app_name.as_str());
    Ok((stage_png_bytes(name, bytes), (width, height)))
}

/// The PNG that an RGBA image of eight bits a channel is encoded as, or what the encoder says
/// instead.
pub uninterp spec fn png_encoding(width: u32, height: u32, rgba: Seq<u8>) -> Result<
    Seq<u8>,
    Seq<char>,
>;

/// `png::Encoder`, with its color set to RGBA and its depth to eight bits: `write_header`, then
/// `write_image_data`, into memory. An encoded image starts with the PNG signature and a header
/// chunk that states its size, and is closed by an end chunk, which takes twelve bytes. How the
/// pixels are packed is left to the encoder.
#[verifier::external_body]
pub(crate) fn png_encode(width: u32, height: u32, rgba: &[u8]) -> (r: Result<Vec<u8>, String>)
    requires
        width > 0,
        height > 0,
        rgba@.len() == 4 * (width * height),
    ensures
        match (r, png_encoding(width, height, rgba@)) {
            (Ok(bytes), Ok(encoded)) => bytes@ == encoded && encoded.len() >= 45 && png_size(
                encoded,
            ) == Some((width, height)),
            (Err(message), Err(text)) => message@ == text,
            _ => false,
        },
{
    let mut bytes = Vec::new();
    let mut encoder = png::Encoder::new(&mut bytes, width, height);
    encoder.set_color(png::ColorType::Rgba);
    encoder.set_depth(png::BitDepth::Eight);
    let written = encoder.write_header().and_then(|mut writer| writer.write_image_data(rgba));
    match written {
        Ok(()) => Ok(bytes),
        Err(error) => Err(error.to_string()),
    }
}

/// The length of a PNG's end chunk: its length, name and checksum, four bytes each.
pub const PNG_END_BYTES: usize = 12;

/// Whether everything before the end chunk is within the attachment limit.
pub open spec fn image_fits(encoded: Seq<u8>) -> bool {
    encoded.len() - PNG_END_BYTES <= MAX_ATTACHMENT_BYTES
}

/// As much of an encoded image as the attachment limit takes: where the image data fit and the end
/// chunk does not, the chunk's parts that do.
pub open spec fn budgeted(encoded: Seq<u8>) -> Seq<u8> {
    if encoded.len() <= MAX_ATTACHMENT_BYTES {
        encoded
    } else {
        let data = encoded.len() - PNG_END_BYTES;
        encoded.take(data + (MAX_ATTACHMENT_BYTES - data) / 4 * 4)
    }
}

/// What is said of an image that could not be encoded.
pub open spec fn encoding_failed(platform: Seq<char>, error: Seq<char>) -> Seq<char> {
    platform + " Appshot encoding failed: "@ + error
}

/// Keep an encoded image within the attachment limit.
pub fn keep_budget(platform: &str, encoded: Result<Vec<u8>, String>) -> (r: Result<
    Vec<u8>,
    CaptureError,
>)
    requires
        encoded matches Ok(bytes) ==> bytes@.len() >= PNG_END_BYTES,
    ensures
        match (encoded, r) {
            (Ok(bytes), Ok(kept)) => image_fits(bytes@) && kept@ == budgeted(bytes@),
            (Ok(bytes), Err(e)) => !image_fits(bytes@) && e.says(
                encoding_failed(platform@, "encoded Appshot exceeds attachment budget"@),
            ),
            (Err(error), Err(e)) => e.says(encoding_failed(platform@, error@)),
            (Err(_), Ok(_)) => false,
        },
{
    let mut message = platform.to_owned();
    message.push_str(" Appshot encoding failed: ");
    match encoded {
        Err(error) => {
            message.push_str(error.as_str());
            Err(CaptureError::CaptureFailed(message))
        },
        Ok(mut bytes) => {
            let data: u64 = (bytes.len() - PNG_END_BYTES) as u64;
            if data > MAX_ATTACHMENT_BYTES {
                message.push_str("encoded Appshot exceeds attachment budget");
                return Err(CaptureError::CaptureFailed(message));
            }
            if bytes.len() as u64 > MAX_ATTACHMENT_BYTES {
                let keep: u64 = data + (MAX_ATTACHMENT_BYTES - data) / 4 * 4;
                bytes.truncate(keep as usize);
            }
            Ok(bytes)
        },
    }
}

/// What encoding a capture's pixels comes to, within the capture bounds and the attachment limit.
pub open spec fn encodes(
    width: u32,
    height: u32,
    rgba: Seq<u8>,
    platform: Seq<char>,
    r: Result<Vec<u8>, CaptureError>,
) -> bool {
    if !sides_fit(width, height) {
        r matches Err(e) && e.says(unsupported_size(width, height))
    } else if !capturable(width, height) {
        r matches Err(e) && e.says(over_budget(width, height))
    } else if rgba.len() != 4 * (width * height) {
        r matches Err(e) && e.says(platform + " returned an invalid pixel buffer."@)
    } else {
        match (png_encoding(width, height, rgba), r) {
            (Ok(encoded), Ok(kept)) => image_fits(encoded) && kept@ == budgeted(encoded)
                && png_size(kept@) == Some((width, height)),
            (Ok(encoded), Err(e)) => !image_fits(encoded) && e.says(
                encoding_failed(platform, "encoded Appshot exceeds attachment budget"@),
            ),
            (Err(error), Err(e)) => e.says(encoding_failed(platform, error)),
            (Err(_), Ok(_)) => false,
        }
    }
}

/// Encode a capture's pixels.
pub fn encode_rgba_png(width: u32, height: u32, rgba: &[u8], platform: &str) -> (r: Result<
    Vec<u8>,
    CaptureError,
>)
    ensures
        encodes(width, height, rgba@, platform@, r),
{
    let expected: usize = match validate_capture_dimensions(width, height) {
        Ok(expected) => expected,
        Err(e) => {
            return Err(e);
        },
    };
    if rgba.len() != expected {
        let mut message = platform.to_owned();
        message.push_str(" returned an invalid pixel buffer.");
        return Err(CaptureError::CaptureFailed(message));
    }
    let encoded = png_encode(width, height, rgba);
    let r = keep_budget(platform, encoded);
    proof {
        if let Ok(whole) = png_encoding(width, height, rgba@) {
            if r is Ok {
                let kept = r->Ok_0@;
                assert(kept.len() >= 24);
                assert(forall|i: int| 0 <= i < 24 ==> kept[i] == whole[i]);
            }
        }
    }
    r
}

// ---------------------------------------------------------------------------
// Prompt context
// ---------------------------------------------------------------------------

/// A character as XML writes it.
pub open spec fn entity(c: char) -> Seq<char> {
    if c == '&' {
        "&amp;"@
    } else if c == '<' {
        "&lt;"@
    } else if c == '>' {
        "&gt;"@
    } else if c == '"' {
        "&quot;"@
    } else if c == '\'' {
        "&apos;"@
    } else {
        seq![c]
    }
}

/// A text as XML writes it.
pub open spec fn escaped(s: Seq<char>) -> Seq<char>
    decreases s.len(),
{
    if s.len() == 0 {
        Seq::empty()
    } else {
        entity(s[0]) + escaped(s.skip(1))
    }
}

/// Characters that would end or open a piece of markup.
pub open spec fn is_markup(c: char) -> bool {
    c == '<' || c == '>' || c == '"' || c == '\''
}

proof fn lemma_entity(c: char)
    ensures
        entity(c).len() > 0,
        forall|i: int| 0 <= i < entity(c).len() ==> !is_markup(#[trigger] entity(c)[i]),
{
    reveal_strlit("&amp;");
    reveal_strlit("&lt;");
    reveal_strlit("&gt;");
    reveal_strlit("&quot;");
    reveal_strlit("&apos;");
}

/// No entity starts with another.
proof fn lemma_prefix_free(c: char, d: char, x: Seq<char>, y: Seq<char>)
    requires
        entity(c) + x == entity(d) + y,
    ensures
        c == d,
        x == y,
{
    reveal_strlit("&amp;");
    reveal_strlit("&lt;");
    reveal_strlit("&gt;");
    reveal_strlit("&quot;");
    reveal_strlit("&apos;");
    let left = entity(c) + x;
    let right = entity(d) + y;
    assert(left[0] == right[0]);
    assert(left[0] == entity(c)[0]);
    assert(right[0] == entity(d)[0]);
    if entity(c)[0] == '&' {
        assert(left[1] == entity(c)[1] && right[1] == entity(d)[1]);
        assert(left[2] == entity(c)[2] && right[2] == entity(d)[2]);
    }
    assert(c == d);
    let n = entity(c).len() as int;
    assert(x =~= left.skip(n));
    assert(y =~= right.skip(n));
}

/// Escaped text holds no markup.
pub proof fn law_escaped_text_has_no_markup(s: Seq<char>)
    ensures
        forall|i: int| 0 <= i < escaped(s).len() ==> !is_markup(#[trigger] escaped(s)[i]),
    decreases s.len(),
{
    if s.len() > 0 {
        law_escaped_text_has_no_markup(s.skip(1));
        lemma_entity(s[0]);
        let rest = escaped(s.skip(1));
        let n = entity(s[0]).len() as int;
        assert forall|i: int| 0 <= i < escaped(s).len() implies !is_markup(
            #[trigger] escaped(s)[i],
        ) by {
            if i < n {
                assert(escaped(s)[i] == entity(s[0])[i]);
            } else {
                assert(escaped(s)[i] == rest[i - n]);
            }
        }
    }
}

/// Escaping loses nothing: no two texts are written alike.
pub proof fn law_escaping_is_faithful(a: Seq<char>, b: Seq<char>)
    requires
        escaped(a) == escaped(b),
    ensures
        a == b,
    decreases a.len(),
{
    if a.len() == 0 || b.len() == 0 {
        if a.len() > 0 {
            lemma_entity(a[0]);
            assert(escaped(a).len() > 0);
        }
        if b.len() > 0 {
            lemma_entity(b[0]);
            assert(escaped(b).len() > 0);
        }
        assert(a =~= b);
    } else {
        lemma_prefix_free(a[0], b[0], escaped(a.skip(1)), escaped(b.skip(1)));
        law_escaping_is_faithful(a.skip(1), b.skip(1));
        assert(a =~= seq![a[0]] + a.skip(1));
        assert(b =~= seq![b[0]] + b.skip(1));
    }
}

pub fn xml_escape(value: &str) -> (r: String)
    ensures
        r@ == escaped(value@),
{
    let chars = chars_of(value);
    let mut r = String::new();
    assert(chars@.skip(0) =~= chars@);
    for i in 0..chars.len()
        invariant
            chars@ == value@,
            r@ + escaped(chars@.skip(i as int)) =~= escaped(value@),
    {
        let c = chars[i];
        let ghost before = r@;
        if c == '&' {
            r.push_str("&amp;");
        } else if c == '<' {
            r.push_str("&lt;");
        } else if c == '>' {
            r.push_str("&gt;");
        } else if c == '"' {
            r.push_str("&quot;");
        } else if c == '\'' {
            r.push_str("&apos;");
        } else {
            r.push(c);
        }
        proof {
            let rest = chars@.skip(i as int);
            assert(rest[0] == c);
            assert(rest.skip(1) =~= chars@.skip(i + 1));
            assert(r@ =~= before + entity(c));
            assert(before + (entity(c) + escaped(rest.skip(1))) =~= (before + entity(c)) + escaped(
                rest.skip(1),
            ));
        }
    }
    assert(chars@.skip(chars@.len() as int) =~= Seq::<char>::empty());
    assert(r@ =~= escaped(value@));
    r
}

/// Where an image was put.
pub struct ImagePath {
    pub id: String,
    pub path: String,
}

/// The path of an image among those from the `i`th on, or nothing.
pub open spec fn path_from(paths: Seq<ImagePath>, id: Seq<char>, i: int) -> Seq<char>
    decreases paths.len() - i,
{
    if i < 0 || i >= paths.len() {
        Seq::empty()
    } else if paths[i].id@ == id {
        paths[i].path@
    } else {
        path_from(paths, id, i + 1)
    }
}

/// An optional attribute.
pub open spec fn attribute(open: Seq<char>, value: Option<Seq<char>>) -> Seq<char> {
    match value {
        Some(value) => open + escaped(value) + seq!['"'],
        None => Seq::empty(),
    }
}

/// One capture as the prompt states it.
pub open spec fn shot_text(shot: CapturedAppshot, image: Seq<char>) -> Seq<char> {
    "\n<appshot app=\""@ + escaped(shot.app_name@) + seq!['"'] + attribute(
        " bundle-identifier=\""@,
        opt_text(shot.bundle_identifier),
    ) + attribute(" window-title=\""@, opt_text(shot.window_title)) + " image=\""@ + escaped(image)
        + "\" accessibility-format=\""@ + decimal(shot.accessibility.format_version as nat)
        + "\" truncated=\""@ + (if shot.accessibility.truncated {
        "true"@
    } else {
        "false"@
    }) + "\">\n"@ + escaped(shot.accessibility.content@) + "\n</appshot>"@
}

/// The first `n` captures as the prompt states them.
pub open spec fn shots_text(shots: Seq<CapturedAppshot>, paths: Seq<ImagePath>, n: nat) -> Seq<char>
    decreases n,
{
    if n == 0 {
        Seq::empty()
    } else {
        shots_text(shots, paths, (n - 1) as nat) + shot_text(
            shots[n - 1],
            path_from(paths, shots[n - 1].screenshot.id@, 0),
        )
    }
}

/// What separates the prompt from its context.
pub open spec fn context_start() -> Seq<char> {
    seq!['\n', '\n'] + CONTEXT_MARKER@
}

/// A prompt with the context of its captures.
pub open spec fn prompt_with(
    text: Seq<char>,
    shots: Seq<CapturedAppshot>,
    paths: Seq<ImagePath>,
) -> Seq<char> {
    if shots.len() == 0 {
        text
    } else {
        text + context_start() + shots_text(shots, paths, shots.len())
    }
}

fn path_of(paths: &Vec<ImagePath>, id: &str) -> (r: String)
    ensures
        r@ == path_from(paths@, id@, 0),
{
    for i in 0..paths.len()
        invariant
            path_from(paths@, id@, i as int) == path_from(paths@, id@, 0),
    {
        if same_str(paths[i].id.as_str(), id) {
            return paths[i].path.clone();
        }
    }
    String::new()
}

fn push_attribute(out: &mut String, open: &str, value: &Option<String>)
    ensures
        final(out)@ == old(out)@ + attribute(open@, opt_text(*value)),
{
    let ghost start = out@;
    if let Some(value) = value {
        out.push_str(open);
        let value = xml_escape(value.as_str());
        out.push_str(value.as_str());
        out.push('"');
    }
    assert(out@ =~= start + attribute(open@, opt_text(*value)));
}

fn push_shot(out: &mut String, shot: &CapturedAppshot, image: &str)
    ensures
        final(out)@ == old(out)@ + shot_text(*shot, image@),
{
    let ghost start = out@;
    let app = xml_escape(shot.app_name.as_str());
    let path = xml_escape(image);
    let content = xml_escape(shot.accessibility.content.as_str());
    out.push_str("\n<appshot app=\"");
    out.push_str(app.as_str());
    out.push('"');
    push_attribute(out, " bundle-identifier=\"", &shot.bundle_identifier);
    push_attribute(out, " window-title=\"", &shot.window_title);
    out.push_str(" image=\"");
    out.push_str(path.as_str());
    out.push_str("\" accessibility-format=\"");
    push_decimal(out, shot.accessibility.format_version as u64);
    out.push_str("\" truncated=\"");
    if shot.accessibility.truncated {
        out.push_str("true");
    } else {
        out.push_str("false");
    }
    out.push_str("\">\n");
    out.push_str(content.as_str());
    out.push_str("\n</appshot>");
    assert(out@ =~= start + shot_text(*shot, image@));
}

/// Attach the captures' context to a prompt. `image_paths` is keyed by the staged screenshot's id.
pub fn with_appshots(
    text: &str,
    appshots: &Vec<CapturedAppshot>,
    image_paths: &Vec<ImagePath>,
) -> (r: String)
    ensures
        r@ == prompt_with(text@, appshots@, image_paths@),
{
    let mut out = text.to_owned();
    if appshots.len() == 0 {
        return out;
    }
    out.push('\n');
    out.push('\n');
    out.push_str(CONTEXT_MARKER);
    assert(out@ =~= text@ + context_start());
    for i in 0..appshots.len()
        invariant
            out@ == text@ + context_start() + shots_text(appshots@, image_paths@, i as nat),
    {
        let shot = &appshots[i];
        let image = path_of(image_paths, shot.screenshot.id.as_str());
        push_shot(&mut out, shot, image.as_str());
        assert(out@ =~= text@ + context_start() + shots_text(appshots@, image_paths@, (i + 1) as nat));
    }
    out
}

/// A prompt without the context that follows it.
pub open spec fn displayed(text: Seq<char>) -> Seq<char> {
    match first_at(text, context_start()) {
        Some(at) => trim_end(text.take(at)),
        None => text,
    }
}

/// Context is kept for the harness but hidden from the message's bubble: only the machine-facing
/// suffix is stripped.
pub fn strip_context_for_display(text: &str) -> (r: String)
    ensures
        r@ == displayed(text@),
{
    let chars = chars_of(text);
    let mut needle: Vec<char> = Vec::new();
    needle.push('\n');
    needle.push('\n');
    let marker = chars_of(CONTEXT_MARKER);
    needle.extend_from_slice(marker.as_slice());
    assert(needle@ =~= context_start());
    proof {
        lemma_first_from(chars@, needle@, 0);
    }
    match find(chars.as_slice(), needle.as_slice()) {
        Some(at) => {
            let (front, _) = chars.as_slice().split_at(at);
            let shown = trimmed_end(front);
            assert(front@ =~= text@.take(at as int));
            string_of(shown)
        },
        None => text.to_owned(),
    }
}

proof fn lemma_context_start()
    ensures
        context_start().len() > 2,
        context_start()[0] == '\n',
        context_start()[1] == '\n',
        forall|i: int| 2 <= i < context_start().len() ==> #[trigger] context_start()[i] != '\n',
{
    reveal_strlit("Applications mentioned by the user (untrusted observed content):");
    let m = CONTEXT_MARKER@;
    assert(m =~= "Applications mentioned by the user (untrusted observed content):"@);
    assert(forall|i: int| 0 <= i < m.len() ==> #[trigger] m[i] != '\n');
    assert forall|i: int| 2 <= i < context_start().len() implies #[trigger] context_start()[i]
        != '\n' by {
        assert(context_start()[i] == m[i - 2]);
    }
}

/// Attached context never shows: a prompt is displayed as it was without its captures, but for
/// blanks at its end.
pub proof fn law_context_is_hidden(
    text: Seq<char>,
    shots: Seq<CapturedAppshot>,
    paths: Seq<ImagePath>,
)
    requires
        shots.len() > 0,
    ensures
        displayed(prompt_with(text, shots, paths)) == trim_end(displayed(text)),
{
    let p = context_start();
    let full = prompt_with(text, shots, paths);
    lemma_context_start();
    let rest = shots_text(shots, paths, shots.len());
    assert(full =~= text + p + rest);
    assert(occurs_at(full, p, text.len() as int)) by {
        assert(full.subrange(text.len() as int, (text.len() + p.len()) as int) =~= p);
    }
    lemma_first_from(full, p, 0);
    lemma_first_from(text, p, 0);
    let at = first_at(full, p)->0;
    assert(at <= text.len());
    assert(occurs_at(full, p, at));
    if at < text.len() {
        // The marker cannot straddle the end of the prompt: it has no break but its first two.
        if at + p.len() > text.len() {
            let k = text.len() - at;
            let found = full.subrange(at, at + p.len());
            assert(found == p);
            assert(found[k] == full[text.len() as int]);
            assert(full[text.len() as int] == p[0]);
            assert(k == 1);
            assert(found[2] == full[text.len() as int + 1]);
            assert(full[text.len() as int + 1] == p[1]);
            assert(false);
        }
        assert(occurs_at(text, p, at)) by {
            assert(text.subrange(at, at + p.len()) =~= full.subrange(at, at + p.len()));
        }
        assert forall|i: int| 0 <= i < at implies !occurs_at(text, p, i) by {
            if occurs_at(text, p, i) {
                assert(full.subrange(i, i + p.len()) =~= text.subrange(i, i + p.len()));
                assert(occurs_at(full, p, i));
            }
        }
        lemma_first_from_unique(text, p, 0, at);
        assert(full.take(at) =~= text.take(at));
        lemma_trim_end_twice(text.take(at));
    } else {
        assert forall|i: int| 0 <= i <= text.len() - p.len() implies !occurs_at(text, p, i) by {
            if occurs_at(text, p, i) {
                assert(full.subrange(i, i + p.len()) =~= text.subrange(i, i + p.len()));
                assert(occurs_at(full, p, i));
            }
        }
        if first_at(text, p) is Some {
            assert(occurs_at(text, p, first_at(text, p)->0));
        }
        assert(full.take(at) =~= text);
    }
}

proof fn lemma_trim_end_twice(s: Seq<char>)
    ensures
        trim_end(trim_end(s)) == trim_end(s),
    decreases s.len(),
{
    if s.len() > 0 && is_space(s.last()) {
        lemma_trim_end_twice(s.drop_last());
    }
}

// ---------------------------------------------------------------------------
// What the context says of each capture
// ---------------------------------------------------------------------------

/// `path` is where the image with this id was put: the path of the first entry that has the id, or
/// nothing where no entry has it.
pub open spec fn is_image_of(paths: Seq<ImagePath>, id: Seq<char>, path: Seq<char>) -> bool {
    ||| path.len() == 0 && forall|k: int| 0 <= k < paths.len() ==> (#[trigger] paths[k]).id@ != id
    ||| exists|k: int| #[trigger] first_image(paths, id, path, k)
}

pub open spec fn first_image(
    paths: Seq<ImagePath>,
    id: Seq<char>,
    path: Seq<char>,
    k: int,
) -> bool {
    &&& 0 <= k < paths.len()
    &&& paths[k].id@ == id
    &&& paths[k].path@ == path
    &&& forall|j: int| 0 <= j < k ==> (#[trigger] paths[j]).id@ != id
}

/// Attributes as they are written in a tag: a blank, the name and the quoted value of each.
pub open spec fn attributes(pairs: Seq<(Seq<char>, Seq<char>)>) -> Seq<char>
    decreases pairs.len(),
{
    if pairs.len() == 0 {
        Seq::empty()
    } else {
        attributes(pairs.drop_last()) + (seq![' '] + pairs.last().0 + seq!['=', '"']
            + pairs.last().1 + seq!['"'])
    }
}

/// What is told of a capture, in order: its application, its bundle and its window's title where
/// they are known, where its image is, and the form of its accessible text.
pub open spec fn facts(shot: CapturedAppshot, image: Seq<char>) -> Seq<(Seq<char>, Seq<char>)> {
    seq![("app"@, escaped(shot.app_name@))] + (match shot.bundle_identifier {
        Some(bundle) => seq![("bundle-identifier"@, escaped(bundle@))],
        None => Seq::empty(),
    }) + (match shot.window_title {
        Some(title) => seq![("window-title"@, escaped(title@))],
        None => Seq::empty(),
    }) + seq![
        ("image"@, escaped(image)),
        ("accessibility-format"@, decimal(shot.accessibility.format_version as nat)),
        (
            "truncated"@,
            if shot.accessibility.truncated {
                "true"@
            } else {
                "false"@
            },
        ),
    ]
}

/// The block of a capture: a tag with what is told of it, around its accessible text.
pub open spec fn block_of(shot: CapturedAppshot, image: Seq<char>) -> Seq<char> {
    "\n<appshot"@ + attributes(facts(shot, image)) + ">\n"@ + escaped(shot.accessibility.content@)
        + "\n</appshot>"@
}

/// The block tells of this capture and of its own image.
pub open spec fn tells_of(block: Seq<char>, shot: CapturedAppshot, paths: Seq<ImagePath>) -> bool {
    exists|image: Seq<char>| #[trigger]
        is_image_of(paths, shot.screenshot.id@, image) && block == block_of(shot, image)
}

/// The blocks one after another.
pub open spec fn end_to_end(blocks: Seq<Seq<char>>) -> Seq<char>
    decreases blocks.len(),
{
    if blocks.len() == 0 {
        Seq::empty()
    } else {
        end_to_end(blocks.drop_last()) + blocks.last()
    }
}

proof fn lemma_attributes_push(
    pairs: Seq<(Seq<char>, Seq<char>)>,
    name: Seq<char>,
    value: Seq<char>,
)
    ensures
        attributes(pairs.push((name, value))) == attributes(pairs) + (seq![' '] + name + seq![
            '=',
            '"',
        ] + value + seq!['"']),
{
    assert(pairs.push((name, value)).drop_last() =~= pairs);
}

/// The attributes that every capture has behind those that it may have.
#[verifier::rlimit(50)]
proof fn lemma_last_attributes(
    pairs: Seq<(Seq<char>, Seq<char>)>,
    image: Seq<char>,
    format: Seq<char>,
    truncated: Seq<char>,
)
    ensures
        attributes(
            pairs + seq![
                ("image"@, image),
                ("accessibility-format"@, format),
                ("truncated"@, truncated),
            ],
        ) == attributes(pairs) + " image=\""@ + image + "\" accessibility-format=\""@ + format
            + "\" truncated=\""@ + truncated + seq!['"'],
{
    reveal_strlit("image");
    reveal_strlit("accessibility-format");
    reveal_strlit("truncated");
    reveal_strlit(" image=\"");
    reveal_strlit("\" accessibility-format=\"");
    reveal_strlit("\" truncated=\"");
    let one = pairs.push(("image"@, image));
    let two = one.push(("accessibility-format"@, format));
    let three = two.push(("truncated"@, truncated));
    lemma_attributes_push(pairs, "image"@, image);
    lemma_attributes_push(one, "accessibility-format"@, format);
    lemma_attributes_push(two, "truncated"@, truncated);
    assert(pairs + seq![
        ("image"@, image),
        ("accessibility-format"@, format),
        ("truncated"@, truncated),
    ] =~= three);
    assert(attributes(three) =~= attributes(pairs) + " image=\""@ + image
        + "\" accessibility-format=\""@ + format + "\" truncated=\""@ + truncated + seq!['"']);
}

/// The attributes that come first.
#[verifier::rlimit(50)]
proof fn lemma_first_attributes(
    app: Seq<char>,
    bundle: Option<Seq<char>>,
    title: Option<Seq<char>>,
)
    ensures
        attributes(
            seq![("app"@, app)] + (match bundle {
                Some(bundle) => seq![("bundle-identifier"@, escaped(bundle))],
                None => Seq::empty(),
            }) + (match title {
                Some(title) => seq![("window-title"@, escaped(title))],
                None => Seq::empty(),
            }),
        ) == " app=\""@ + app + seq!['"'] + attribute(" bundle-identifier=\""@, bundle) + attribute(
            " window-title=\""@,
            title,
        ),
{
    reveal_strlit("app");
    reveal_strlit(" app=\"");
    reveal_strlit("bundle-identifier");
    reveal_strlit(" bundle-identifier=\"");
    reveal_strlit("window-title");
    reveal_strlit(" window-title=\"");
    let none = Seq::<(Seq<char>, Seq<char>)>::empty();
    let one = none.push(("app"@, app));
    lemma_attributes_push(none, "app"@, app);
    let first = " app=\""@ + app + seq!['"'];
    assert(attributes(one) =~= first);
    let two = match bundle {
        Some(bundle) => one.push(("bundle-identifier"@, escaped(bundle))),
        None => one,
    };
    let second = first + attribute(" bundle-identifier=\""@, bundle);
    if let Some(bundle) = bundle {
        lemma_attributes_push(one, "bundle-identifier"@, escaped(bundle));
    }
    assert(attributes(two) =~= second);
    let three = match title {
        Some(title) => two.push(("window-title"@, escaped(title))),
        None => two,
    };
    let third = second + attribute(" window-title=\""@, title);
    if let Some(title) = title {
        lemma_attributes_push(two, "window-title"@, escaped(title));
    }
    assert(attributes(three) =~= third);
    assert(seq![("app"@, app)] + (match bundle {
        Some(bundle) => seq![("bundle-identifier"@, escaped(bundle))],
        None => Seq::empty(),
    }) + (match title {
        Some(title) => seq![("window-title"@, escaped(title))],
        None => Seq::empty(),
    }) =~= three);
}

#[verifier::rlimit(50)]
proof fn lemma_block(shot: CapturedAppshot, image: Seq<char>)
    ensures
        shot_text(shot, image) == block_of(shot, image),
{
    reveal_strlit("\n<appshot");
    reveal_strlit("\n<appshot app=\"");
    reveal_strlit(" app=\"");
    reveal_strlit(">\n");
    reveal_strlit("\">\n");
    let app = escaped(shot.app_name@);
    let format = decimal(shot.accessibility.format_version as nat);
    let truncated = if shot.accessibility.truncated {
        "true"@
    } else {
        "false"@
    };
    let bundle = opt_text(shot.bundle_identifier);
    let title = opt_text(shot.window_title);
    let pairs = seq![("app"@, app)] + (match bundle {
        Some(bundle) => seq![("bundle-identifier"@, escaped(bundle))],
        None => Seq::empty(),
    }) + (match title {
        Some(title) => seq![("window-title"@, escaped(title))],
        None => Seq::empty(),
    });
    lemma_first_attributes(app, bundle, title);
    lemma_last_attributes(pairs, escaped(image), format, truncated);
    assert(facts(shot, image) =~= pairs + seq![
        ("image"@, escaped(image)),
        ("accessibility-format"@, format),
        ("truncated"@, truncated),
    ]);
    let quote = seq!['"'];
    let middle = escaped(shot.app_name@) + quote + attribute(" bundle-identifier=\""@, bundle)
        + attribute(" window-title=\""@, title);
    let inner = " image=\""@ + escaped(image) + "\" accessibility-format=\""@ + format
        + "\" truncated=\""@ + truncated;
    let content = escaped(shot.accessibility.content@) + "\n</appshot>"@;
    assert("\n<appshot app=\""@ =~= "\n<appshot"@ + " app=\""@);
    assert("\">\n"@ =~= quote + ">\n"@);
    assert(shot_text(shot, image) =~= ("\n<appshot"@ + " app=\""@) + middle + inner + (quote
        + ">\n"@) + content) by {
        lemma_regrouped(
            "\n<appshot app=\""@,
            escaped(shot.app_name@) + quote,
            attribute(" bundle-identifier=\""@, bundle),
            attribute(" window-title=\""@, title),
            " image=\""@,
            escaped(image),
            "\" accessibility-format=\""@,
            format,
            "\" truncated=\""@,
            truncated,
            "\">\n"@,
            escaped(shot.accessibility.content@),
            "\n</appshot>"@,
        );
        assert("\n<appshot app=\""@ + (escaped(shot.app_name@) + quote) =~= "\n<appshot app=\""@
            + escaped(shot.app_name@) + quote);
    }
    assert(attributes(facts(shot, image)) =~= " app=\""@ + middle + inner + quote) by {
        lemma_regrouped(
            " app=\""@,
            escaped(shot.app_name@) + quote,
            attribute(" bundle-identifier=\""@, bundle),
            attribute(" window-title=\""@, title),
            " image=\""@,
            escaped(image),
            "\" accessibility-format=\""@,
            format,
            "\" truncated=\""@,
            truncated,
            quote,
            Seq::empty(),
            Seq::empty(),
        );
        assert(" app=\""@ + (escaped(shot.app_name@) + quote) =~= " app=\""@ + escaped(
            shot.app_name@,
        ) + quote);
    }
    lemma_rewrapped(
        "\n<appshot"@,
        " app=\""@,
        middle,
        inner,
        quote,
        ">\n"@,
        escaped(shot.accessibility.content@),
        "\n</appshot>"@,
    );
}

/// Texts that are put together one after another can be put together in parts.
#[verifier::rlimit(50)]
proof fn lemma_regrouped(
    a: Seq<char>,
    b: Seq<char>,
    c: Seq<char>,
    d: Seq<char>,
    e: Seq<char>,
    f: Seq<char>,
    g: Seq<char>,
    h: Seq<char>,
    i: Seq<char>,
    j: Seq<char>,
    k: Seq<char>,
    l: Seq<char>,
    m: Seq<char>,
)
    ensures
        a + b + c + d + e + f + g + h + i + j + k + l + m == a + (b + c + d) + (e + f + g + h + i
            + j) + k + (l + m),
{
    let x = a + b + c + d;
    assert(x =~= a + (b + c + d));
    let y = e + f + g + h + i + j;
    assert(x + e + f + g + h + i + j =~= x + y) by {
        assert(x + e + f =~= x + (e + f));
        assert(x + (e + f) + g =~= x + (e + f + g));
        assert(x + (e + f + g) + h =~= x + (e + f + g + h));
        assert(x + (e + f + g + h) + i =~= x + (e + f + g + h + i));
        assert(x + (e + f + g + h + i) + j =~= x + y);
    }
    assert(x + y + k + l + m =~= x + y + k + (l + m));
}

proof fn lemma_rewrapped(
    a: Seq<char>,
    b: Seq<char>,
    c: Seq<char>,
    d: Seq<char>,
    e: Seq<char>,
    f: Seq<char>,
    g: Seq<char>,
    h: Seq<char>,
)
    ensures
        (a + b) + c + d + (e + f) + (g + h) == a + (b + c + d + e) + f + g + h,
{
    let x = a + b + c + d;
    assert(x + (e + f) =~= x + e + f);
    assert(x + e =~= a + (b + c + d + e));
    assert(x + e + f + (g + h) =~= x + e + f + g + h);
}

proof fn lemma_path_from(paths: Seq<ImagePath>, id: Seq<char>, i: int)
    requires
        0 <= i <= paths.len(),
        forall|j: int| 0 <= j < i ==> (#[trigger] paths[j]).id@ != id,
    ensures
        is_image_of(paths, id, path_from(paths, id, i)),
    decreases paths.len() - i,
{
    if i < paths.len() {
        if paths[i].id@ == id {
            assert(first_image(paths, id, paths[i].path@, i));
        } else {
            lemma_path_from(paths, id, i + 1);
        }
    }
}

/// A prompt with captures is the prompt, the notice of what follows, and one block for each capture
/// in order. The block tells of that capture, and names the image that was put away under that
/// capture's own id.
pub proof fn law_each_capture_has_its_block(
    text: Seq<char>,
    shots: Seq<CapturedAppshot>,
    paths: Seq<ImagePath>,
) -> (blocks: Seq<Seq<char>>)
    requires
        shots.len() > 0,
    ensures
        blocks.len() == shots.len(),
        forall|i: int| 0 <= i < shots.len() ==> tells_of(#[trigger] blocks[i], shots[i], paths),
        prompt_with(text, shots, paths) == text + "\n\n"@
            + "Applications mentioned by the user (untrusted observed content):"@ + end_to_end(
            blocks,
        ),
{
    reveal_strlit("\n\n");
    let blocks = lemma_blocks(shots, paths, shots.len());
    let marker = "Applications mentioned by the user (untrusted observed content):"@;
    assert(CONTEXT_MARKER@ == marker);
    assert("\n\n"@ =~= seq!['\n', '\n']);
    assert(prompt_with(text, shots, paths) =~= text + "\n\n"@ + marker + end_to_end(blocks));
    blocks
}

proof fn lemma_blocks(shots: Seq<CapturedAppshot>, paths: Seq<ImagePath>, n: nat) -> (blocks: Seq<
    Seq<char>,
>)
    requires
        n <= shots.len(),
    ensures
        blocks.len() == n,
        forall|i: int| 0 <= i < n ==> tells_of(#[trigger] blocks[i], shots[i], paths),
        shots_text(shots, paths, n) == end_to_end(blocks),
    decreases n,
{
    if n == 0 {
        Seq::empty()
    } else {
        let front = lemma_blocks(shots, paths, (n - 1) as nat);
        let shot = shots[n - 1];
        let image = path_from(paths, shot.screenshot.id@, 0);
        lemma_path_from(paths, shot.screenshot.id@, 0);
        lemma_block(shot, image);
        let block = block_of(shot, image);
        assert(is_image_of(paths, shot.screenshot.id@, image));
        assert(tells_of(block, shot, paths));
        assert(front.push(block).drop_last() =~= front);
        front.push(block)
    }
}

/// A capture is shown with its own image: where one entry has the capture's id, the capture's block
/// names that entry's path.
pub proof fn law_blocks_name_their_own_image(
    block: Seq<char>,
    shot: CapturedAppshot,
    paths: Seq<ImagePath>,
    k: int,
)
    requires
        tells_of(block, shot, paths),
        0 <= k < paths.len(),
        paths[k].id@ == shot.screenshot.id@,
        forall|j: int|
            0 <= j < paths.len() && (#[trigger] paths[j]).id@ == shot.screenshot.id@ ==> j == k,
    ensures
        block == block_of(shot, paths[k].path@),
        contains(block, " image=\""@ + escaped(paths[k].path@) + seq!['"']),
{
    let id = shot.screenshot.id@;
    let image = choose|image: Seq<char>| #[trigger]
        is_image_of(paths, id, image) && block == block_of(shot, image);
    assert(paths[k].id@ == id);
    let j = choose|j: int| #[trigger] first_image(paths, id, image, j);
    assert(first_image(paths, id, image, j));
    assert(j == k);
    lemma_image_is_named(shot, image);
}

proof fn lemma_image_is_named(shot: CapturedAppshot, image: Seq<char>)
    ensures
        contains(block_of(shot, image), " image=\""@ + escaped(image) + seq!['"']),
{
    reveal_strlit("\" accessibility-format=\"");
    lemma_block(shot, image);
    let head = "\n<appshot app=\""@ + escaped(shot.app_name@) + seq!['"'] + attribute(
        " bundle-identifier=\""@,
        opt_text(shot.bundle_identifier),
    ) + attribute(" window-title=\""@, opt_text(shot.window_title));
    let named = " image=\""@ + escaped(image) + seq!['"'];
    let block = block_of(shot, image);
    let at = head.len() as int;
    assert(block.subrange(at, at + named.len()) =~= named);
    assert(occurs_at(block, named, at));
    lemma_first_from(block, named, 0);
}

/// Two captures that are told apart only by their images have different blocks.
pub proof fn law_different_images_have_different_blocks(
    shot: CapturedAppshot,
    one: Seq<char>,
    other: Seq<char>,
)
    requires
        block_of(shot, one) == block_of(shot, other),
    ensures
        one == other,
{
    lemma_block(shot, one);
    lemma_block(shot, other);
    let head = "\n<appshot app=\""@ + escaped(shot.app_name@) + seq!['"'] + attribute(
        " bundle-identifier=\""@,
        opt_text(shot.bundle_identifier),
    ) + attribute(" window-title=\""@, opt_text(shot.window_title)) + " image=\""@;
    let x = block_of(shot, one);
    let y = block_of(shot, other);
    let a = escaped(one);
    let b = escaped(other);
    let at = head.len() as int;
    assert(x.len() == y.len());
    assert(a.len() == b.len());
    assert(x.subrange(at, at + a.len()) =~= a);
    assert(y.subrange(at, at + b.len()) =~= b);
    law_escaping_is_faithful(one, other);
}

/// Text is escaped letter by letter: the five characters that mean something in markup by their
/// names, and every other one by itself.
pub proof fn law_text_is_escaped_letter_by_letter(x: Seq<char>, c: char, y: Seq<char>)
    ensures
        escaped(x + seq![c] + y) == escaped(x) + (if c == '&' {
            "&amp;"@
        } else if c == '<' {
            "&lt;"@
        } else if c == '>' {
            "&gt;"@
        } else if c == '"' {
            "&quot;"@
        } else if c == '\'' {
            "&apos;"@
        } else {
            seq![c]
        }) + escaped(y),
    decreases x.len(),
{
    let all = x + seq![c] + y;
    if x.len() == 0 {
        assert(all[0] == c);
        assert(all.skip(1) =~= y);
        assert(escaped(x) =~= Seq::<char>::empty());
        assert(escaped(all) =~= escaped(x) + entity(c) + escaped(y));
    } else {
        let rest = x.skip(1);
        law_text_is_escaped_letter_by_letter(rest, c, y);
        assert(all.skip(1) =~= rest + seq![c] + y);
        assert(all[0] == x[0]);
        assert(escaped(all) =~= escaped(x) + entity(c) + escaped(y));
    }
}

/// The size that a PNG's header states is read as it is written there, the high bytes first.
pub proof fn law_png_sizes_are_read(bytes: Seq<u8>, width: u32, height: u32)
    requires
        png_header(bytes),
        width > 0,
        height > 0,
        bytes[16] == width / 0x100_0000,
        bytes[17] == width / 0x1_0000 % 0x100,
        bytes[18] == width / 0x100 % 0x100,
        bytes[19] == width % 0x100,
        bytes[20] == height / 0x100_0000,
        bytes[21] == height / 0x1_0000 % 0x100,
        bytes[22] == height / 0x100 % 0x100,
        bytes[23] == height % 0x100,
    ensures
        png_size(bytes) == Some((width, height)),
{
    assert(be32(bytes, 16) == width);
    assert(be32(bytes, 20) == height);
}

/// An image that is kept is the beginning of the one that was encoded, within the attachment limit,
/// and all of it where it fits.
pub proof fn law_kept_images_are_within_the_limit(encoded: Seq<u8>)
    requires
        encoded.len() >= PNG_END_BYTES,
        image_fits(encoded),
    ensures
        budgeted(encoded).len() <= MAX_ATTACHMENT_BYTES,
        budgeted(encoded) == encoded.take(budgeted(encoded).len() as int),
        encoded.len() <= MAX_ATTACHMENT_BYTES ==> budgeted(encoded) == encoded,
        budgeted(encoded).len() >= encoded.len() - PNG_END_BYTES,
{
    assert(encoded.take(encoded.len() as int) =~= encoded);
}

/// A name that can be a filename already is kept: at most a hundred characters, none of them a
/// control character or a separator, with single spaces between words, and no dot, dash or space at
/// either end.
pub proof fn law_ordinary_names_are_kept(name: Seq<char>)
    requires
        0 < name.len() <= 100,
        forall|i: int|
            0 <= i < name.len() ==> {
                let c = #[trigger] name[i];
                (c as u32) >= 0x20 && !(0x7f <= (c as u32) <= 0x9f) && c != '/' && c != '\\' && c
                    != ':'
            },
        single_spaced(name),
        name[0] != '.' && name[0] != '-' && name[0] != ' ',
        name.last() != '.' && name.last() != '-' && name.last() != ' ',
    ensures
        safe_name(name) == name,
{
    assert forall|i: int| 0 <= i < name.len() implies safe_char(#[trigger] name[i]) == name[i] by {}
    lemma_component_is_kept(name);
}

/// A capture may be staged where neither side is empty or over 8192 pixels, and it has no more than
/// 32 Mi pixels.
pub proof fn law_captures_are_bounded(width: u32, height: u32)
    ensures
        capturable(width, height) <==> 0 < width <= 8192 && 0 < height <= 8192 && width * height
            <= 33_554_432,
        sides_fit(width, height) <==> 0 < width <= 8192 && 0 < height <= 8192,
{
}

/// A text without attached context is displayed as it is, and a prompt with captures as it was typed,
/// but for blanks at its end.
pub proof fn law_prompts_are_displayed_as_typed(
    text: Seq<char>,
    shots: Seq<CapturedAppshot>,
    paths: Seq<ImagePath>,
)
    requires
        !contains(
            text,
            "\n\nApplications mentioned by the user (untrusted observed content):"@,
        ),
    ensures
        displayed(text) == text,
        shots.len() > 0 ==> displayed(prompt_with(text, shots, paths)) == trim_end(text),
        shots.len() == 0 ==> prompt_with(text, shots, paths) == text,
{
    reveal_strlit("\n\nApplications mentioned by the user (untrusted observed content):");
    reveal_strlit("Applications mentioned by the user (untrusted observed content):");
    let marker = CONTEXT_MARKER@;
    assert(marker =~= "Applications mentioned by the user (untrusted observed content):"@);
    assert("\n\nApplications mentioned by the user (untrusted observed content):"@ =~= context_start());
    if shots.len() > 0 {
        law_context_is_hidden(text, shots, paths);
    }
}

/// An encoded capture is one of its own size, within the bounds and the attachment limit, from as
/// many pixels as it has.
pub proof fn law_encoded_captures_have_their_size(
    width: u32,
    height: u32,
    rgba: Seq<u8>,
    platform: Seq<char>,
    kept: Vec<u8>,
)
    requires
        encodes(width, height, rgba, platform, Ok(kept)),
    ensures
        0 < width <= 8192 && 0 < height <= 8192 && width * height <= 33_554_432,
        rgba.len() == 4 * (width * height),
        png_size(kept@) == Some((width, height)),
{
}

} // verus!

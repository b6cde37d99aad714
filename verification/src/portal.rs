//! Captures through the Linux desktop portal: what the portal can do, what it is asked, and what
//! its answer becomes.

use vstd::prelude::*;

use crate::appshots::{
    png_dimensions, png_size, shot_file, shot_name, stage_png_bytes, AccessibilitySnapshot,
    CapabilityState, CaptureError, CaptureTarget, CapturedAppshot,
};
use crate::ids::{fresh_id, is_uuid_v4};
use crate::semantic::SemanticCapture;
use crate::text::{opt_text, same_str};

verus! {

pub const SHORTCUT_ID: &'static str = "capture-appshot";

/// Whether an activated shortcut is the one that captures.
pub fn is_capture_shortcut(id: &str) -> (r: bool)
    ensures
        r == (id@ == SHORTCUT_ID@),
{
    same_str(id, SHORTCUT_ID)
}

/// What is known of the Wayland desktop.
#[derive(Debug, Clone, Copy, PartialEq, Eq, Structural)]
pub struct WaylandStatus {
    pub shortcut: CapabilityState,
    pub capture: CapabilityState,
    pub target: CaptureTarget,
}

/// Which targets a screenshot portal offers.
#[derive(Debug, Clone, Copy, PartialEq, Eq, Structural)]
pub struct PortalTargets {
    pub active_window: bool,
    pub window: bool,
}

/// What the screenshot portal answered: `Missing` where there is none, and no targets where it
/// could not tell them.
#[derive(Debug, Clone, Copy, PartialEq, Eq, Structural)]
pub enum PortalProbe {
    Missing,
    Version { version: u32, targets: Option<PortalTargets> },
}

/// The first version of the portal that knows targets.
pub const TARGETS_VERSION: u32 = 3;

/// What a probe makes of the status. A portal that knows no targets leaves the choice to the user;
/// one without any of ours keeps the target, and cannot capture.
pub open spec fn probed(status: WaylandStatus, probe: PortalProbe) -> WaylandStatus {
    let picker = WaylandStatus {
        capture: CapabilityState::UserSelection,
        target: CaptureTarget::PortalWindowPicker,
        ..status
    };
    let none = WaylandStatus { capture: CapabilityState::Unavailable, ..status };
    match probe {
        PortalProbe::Missing => none,
        PortalProbe::Version { version, targets } => if version < TARGETS_VERSION {
            picker
        } else {
            match targets {
                Some(offered) => if offered.active_window {
                    WaylandStatus {
                        capture: CapabilityState::Ready,
                        target: CaptureTarget::ActiveWindow,
                        ..status
                    }
                } else if offered.window {
                    picker
                } else {
                    none
                },
                None => none,
            }
        },
    }
}

/// Take a probe's answer into the status.
pub fn probe_capture(status: &mut WaylandStatus, probe: PortalProbe)
    ensures
        *final(status) == probed(*old(status), probe),
{
    match probe {
        PortalProbe::Missing => {
            status.capture = CapabilityState::Unavailable;
        },
        PortalProbe::Version { version, targets } => {
            if version < TARGETS_VERSION {
                status.capture = CapabilityState::UserSelection;
                status.target = CaptureTarget::PortalWindowPicker;
                return;
            }
            match targets {
                Some(offered) => {
                    if offered.active_window {
                        status.capture = CapabilityState::Ready;
                        status.target = CaptureTarget::ActiveWindow;
                    } else if offered.window {
                        status.capture = CapabilityState::UserSelection;
                        status.target = CaptureTarget::PortalWindowPicker;
                    } else {
                        status.capture = CapabilityState::Unavailable;
                    }
                },
                None => {
                    status.capture = CapabilityState::Unavailable;
                },
            }
        },
    }
}

/// Whether the portal captures the active window without asking.
pub fn active_window_supported(probe: PortalProbe) -> (r: bool)
    ensures
        r == match probe {
            PortalProbe::Version { version, targets: Some(offered) } => version >= TARGETS_VERSION
                && offered.active_window,
            _ => false,
        },
{
    match probe {
        PortalProbe::Version { version, targets: Some(offered) } => version >= TARGETS_VERSION
            && offered.active_window,
        _ => false,
    }
}

/// A probe that finds active-window capture is the one that makes the status ready; no probe
/// touches the shortcut.
pub proof fn law_ready_means_active_window(status: WaylandStatus, probe: PortalProbe)
    ensures
        probed(status, probe).capture == CapabilityState::Ready <==> (probe matches PortalProbe::Version {
            version,
            targets: Some(offered),
        } && version >= TARGETS_VERSION && offered.active_window),
        probed(status, probe).capture == CapabilityState::Ready ==> probed(status, probe).target
            == CaptureTarget::ActiveWindow,
        probed(status, probe).shortcut == status.shortcut,
{
}

/// The portal refused the shortcut: the user has to bind one.
pub fn shortcut_bound(status: &mut WaylandStatus, bound: bool)
    ensures
        *final(status) == (WaylandStatus {
            shortcut: if bound {
                CapabilityState::Ready
            } else {
                CapabilityState::SetupRequired
            },
            ..*old(status)
        }),
{
    status.shortcut = if bound {
        CapabilityState::Ready
    } else {
        CapabilityState::SetupRequired
    };
}

/// What the portal is asked for, and whether application text is read along. For a picker it is
/// not: one chosen window must not be paired with another application's text.
#[derive(Debug, Clone, Copy, PartialEq, Eq, Structural)]
pub struct PortalRequest {
    pub active_window: bool,
    pub interactive: bool,
    pub modal: bool,
    pub with_text: bool,
}

pub fn portal_request(target: CaptureTarget) -> (r: PortalRequest)
    ensures
        r == (PortalRequest {
            active_window: target == CaptureTarget::ActiveWindow,
            interactive: target == CaptureTarget::PortalWindowPicker,
            modal: false,
            with_text: target == CaptureTarget::ActiveWindow,
        }),
{
    PortalRequest {
        active_window: target == CaptureTarget::ActiveWindow,
        interactive: target == CaptureTarget::PortalWindowPicker,
        modal: false,
        with_text: target == CaptureTarget::ActiveWindow,
    }
}

/// A step that a portal capture can fail at.
#[derive(Debug, Clone, Copy, PartialEq, Eq, Structural)]
pub enum PortalStep {
    Send,
    Respond,
    ParseUri,
    Read,
}

pub open spec fn step_text(step: PortalStep) -> Seq<char> {
    match step {
        PortalStep::Send => "Screenshot portal failed: "@,
        PortalStep::Respond => "Screenshot portal request was cancelled: "@,
        PortalStep::ParseUri => "Invalid portal image URI: "@,
        PortalStep::Read => "Could not read portal screenshot: "@,
    }
}

/// What a failed step says.
pub fn portal_failed(step: PortalStep, error: &str) -> (r: CaptureError)
    ensures
        r.says(step_text(step) + error@),
{
    let mut message = match step {
        PortalStep::Send => "Screenshot portal failed: ".to_owned(),
        PortalStep::Respond => "Screenshot portal request was cancelled: ".to_owned(),
        PortalStep::ParseUri => "Invalid portal image URI: ".to_owned(),
        PortalStep::Read => "Could not read portal screenshot: ".to_owned(),
    };
    message.push_str(error);
    CaptureError::CaptureFailed(message)
}

/// The bytes of the path that a URI names, as the desktop's file system writes them; the parser's
/// message where it is no URI, and nothing where it names no local file.
pub uninterp spec fn uri_path(uri: Seq<char>) -> Result<Seq<u8>, Option<Seq<char>>>;

/// `url::Url::parse`, then `Url::to_file_path` of what it gives, on Unix, which is where portals
/// are: elsewhere a path may come out otherwise. Which texts are URIs, and how a path is spelled in
/// one, is left to the parser.
#[verifier::external_body]
fn file_path(uri: &str) -> (r: Result<Vec<u8>, Option<String>>)
    ensures
        match (r, uri_path(uri@)) {
            (Ok(path), Ok(bytes)) => path@ == bytes,
            (Err(message), Err(text)) => opt_text(message) == text,
            _ => false,
        },
{
    match url::Url::parse(uri) {
        Ok(url) => match url.to_file_path() {
            Ok(path) => Ok(path.into_os_string().into_encoded_bytes()),
            Err(()) => Err(None),
        },
        Err(error) => Err(Some(error.to_string())),
    }
}

/// What a URI that names no readable path comes to.
pub fn uri_failed(message: Option<String>) -> (r: CaptureError)
    ensures
        match opt_text(message) {
            Some(text) => r.says(step_text(PortalStep::ParseUri) + text),
            None => r.says("Screenshot portal returned a non-file URI."@),
        },
{
    match message {
        Some(text) => portal_failed(PortalStep::ParseUri, text.as_str()),
        None => CaptureError::CaptureFailed("Screenshot portal returned a non-file URI.".to_owned()),
    }
}

/// Where the portal put its screenshot.
pub fn portal_image_path(uri: &str) -> (r: Result<Vec<u8>, CaptureError>)
    ensures
        match (uri_path(uri@), r) {
            (Ok(bytes), Ok(path)) => path@ == bytes,
            (Err(Some(text)), Err(e)) => e.says(step_text(PortalStep::ParseUri) + text),
            (Err(None), Err(e)) => e.says("Screenshot portal returned a non-file URI."@),
            _ => false,
        },
{
    match file_path(uri) {
        Ok(path) => Ok(path),
        Err(message) => Err(uri_failed(message)),
    }
}

/// What a portal capture is filed under.
pub open spec fn portal_bundle(target: CaptureTarget) -> Seq<char> {
    match target {
        CaptureTarget::ActiveWindow => "linux-portal:active-window"@,
        CaptureTarget::PortalWindowPicker => "linux-portal:selection"@,
    }
}

/// A screenshot that the portal delivered, with the application text that was read along.
pub fn portal_shot(
    target: CaptureTarget,
    semantic: Option<SemanticCapture>,
    bytes: Vec<u8>,
    captured_at: i64,
) -> (r: CapturedAppshot)
    ensures
        is_uuid_v4(r.id@),
        r.app_name@ == match semantic {
            Some(known) => known.app_name@,
            None => "Selected window"@,
        },
        opt_text(r.bundle_identifier) == Some(portal_bundle(target)),
        match semantic {
            Some(known) => r.window_title == known.window_title && r.accessibility
                == known.snapshot,
            None => r.window_title is None && r.accessibility.format_version == 1
                && r.accessibility.content@.len() == 0 && !r.accessibility.truncated,
        },
        is_uuid_v4(r.screenshot.id@),
        r.screenshot.name@ == shot_name(r.app_name@),
        r.screenshot.bytes == bytes,
        r.screenshot_dimensions == png_size(bytes@),
        r.app_icon is None,
        r.captured_at == captured_at,
{
    let screenshot_dimensions = png_dimensions(bytes.as_slice());
    let (app_name, window_title, accessibility) = match semantic {
        Some(known) => (known.app_name, known.window_title, known.snapshot),
        None => ("Selected window".to_owned(), None, AccessibilitySnapshot::unavailable()),
    };
    let name = shot_file(app_name.as_str());
    let screenshot = stage_png_bytes(name, bytes);
    let bundle = match target {
        CaptureTarget::ActiveWindow => "linux-portal:active-window".to_owned(),
        CaptureTarget::PortalWindowPicker => "linux-portal:selection".to_owned(),
    };
    CapturedAppshot {
        id: fresh_id(),
        app_name,
        bundle_identifier: Some(bundle),
        window_title,
        accessibility,
        screenshot,
        screenshot_dimensions,
        app_icon: None,
        captured_at,
    }
}

/// A portal that is too old to know targets, or that offers to pick a window and no more, leaves the
/// choice to the user; one that is missing, or offers neither, cannot capture.
pub proof fn law_portals_offer_what_they_can(status: WaylandStatus, probe: PortalProbe)
    ensures
        ({
            let after = probed(status, probe);
            match probe {
                PortalProbe::Missing => after.capture == CapabilityState::Unavailable,
                PortalProbe::Version { version, targets } => {
                    &&& version < 3 ==> after.capture == CapabilityState::UserSelection
                        && after.target == CaptureTarget::PortalWindowPicker
                    &&& version >= 3 && targets is None ==> after.capture
                        == CapabilityState::Unavailable
                    &&& version >= 3 && targets is Some && targets->0.active_window ==> after.capture
                        == CapabilityState::Ready && after.target == CaptureTarget::ActiveWindow
                    &&& version >= 3 && targets is Some && !targets->0.active_window
                        && targets->0.window ==> after.capture == CapabilityState::UserSelection
                        && after.target == CaptureTarget::PortalWindowPicker
                    &&& version >= 3 && targets is Some && !targets->0.active_window
                        && !targets->0.window ==> after.capture == CapabilityState::Unavailable
                },
            }
        }),
{
}

} // verus!

//! Captures of macOS windows: which window is taken, and what it is staged and filed as.

use vstd::prelude::*;

use crate::appshots::{
    failed, png_dimensions, png_size, shot_file, shot_name, stage_png_bytes,
    AccessibilitySnapshot, CaptureError, CapturedAppshot, StagedAttachment, MAX_ATTACHMENT_BYTES,
};
use crate::ids::{fresh_id, is_uuid_v4};
use crate::text::{chars_of, string_of};

verus! {

/// An application's name with dashes for the characters that separate paths.
pub open spec fn path_safe(name: Seq<char>) -> Seq<char> {
    name.map_values(
        |c: char|
            if c == '/' || c == ':' {
                '-'
            } else {
                c
            },
    )
}

/// Stage a capture under its application's name, where it is within the attachment limit.
pub fn stage_png(app_name: &str, bytes: Vec<u8>) -> (r: Result<StagedAttachment, CaptureError>)
    ensures
        match r {
            Ok(staged) => {
                &&& bytes@.len() <= MAX_ATTACHMENT_BYTES
                &&& is_uuid_v4(staged.id@)
                &&& staged.name@ == shot_name(path_safe(app_name@))
                &&& staged.bytes == bytes
            },
            Err(e) => {
                &&& bytes@.len() > MAX_ATTACHMENT_BYTES
                &&& e.says("The captured window is larger than Zeron's 24 MB image limit."@)
            },
        },
{
    if bytes.len() as u64 > MAX_ATTACHMENT_BYTES {
        return Err(failed("The captured window is larger than Zeron's 24 MB image limit."));
    }
    let chars = chars_of(app_name);
    let mut safe: Vec<char> = Vec::new();
    for i in 0..chars.len()
        invariant
            chars@ == app_name@,
            safe@ =~= path_safe(app_name@).take(i as int),
    {
        if chars[i] == '/' || chars[i] == ':' {
            safe.push('-');
        } else {
            safe.push(chars[i]);
        }
    }
    assert(safe@ =~= path_safe(app_name@));
    let safe = string_of(safe.as_slice());
    let name = shot_file(safe.as_str());
    Ok(stage_png_bytes(name, bytes))
}

// ---------------------------------------------------------------------------
// The window
// ---------------------------------------------------------------------------

/// A window as the window server lists it. The area is given by the bits of a double that is not
/// negative: such bits are in the same order as the numbers that they hold.
#[derive(Debug, Clone, Copy, PartialEq, Eq, Structural)]
pub struct ListedWindow {
    pub owner: Option<i32>,
    pub layer: Option<i64>,
    pub id: Option<u32>,
    pub area: u64,
}

/// The bits of the area that a window has at least: one point.
pub const UNIT_AREA: u64 = 0x3FF0_0000_0000_0000;

impl ListedWindow {
    /// Whether it is an ordinary window of the application.
    pub open spec fn is_of(self, pid: i32) -> bool {
        self.owner == Some(pid) && self.layer == Some(0i64)
    }

    pub open spec fn eligible(self, pid: i32) -> bool {
        self.is_of(pid) && self.area >= UNIT_AREA
    }
}

/// Whether the `i`th of the first `n` windows is the first of the largest that are eligible.
pub open spec fn is_largest(windows: Seq<ListedWindow>, pid: i32, i: int, n: int) -> bool {
    &&& 0 <= i < n
    &&& windows[i].eligible(pid)
    &&& forall|j: int|
        0 <= j < n && (#[trigger] windows[j]).eligible(pid) ==> windows[j].area <= windows[i].area
    &&& forall|j: int|
        0 <= j < i && (#[trigger] windows[j]).eligible(pid) ==> windows[j].area < windows[i].area
}

/// The application's largest window, the first of them where several are. There is none to capture
/// where no window has an extent, or where one cannot be named.
pub fn largest_window(windows: &Vec<ListedWindow>, pid: i32) -> (r: Result<usize, CaptureError>)
    ensures
        match r {
            Ok(i) => {
                &&& is_largest(windows@, pid, i as int, windows@.len() as int)
                &&& forall|j: int|
                    0 <= j < windows@.len() && (#[trigger] windows@[j]).is_of(pid)
                        ==> windows@[j].id is Some
            },
            Err(e) => {
                &&& e is NoEligibleWindow
                &&& (forall|j: int|
                    0 <= j < windows@.len() ==> !(#[trigger] windows@[j]).eligible(pid)) || (exists|
                    j: int,
                |
                    0 <= j < windows@.len() && (#[trigger] windows@[j]).is_of(pid)
                        && windows@[j].id is None)
            },
        },
{
    let mut best: Option<usize> = None;
    for i in 0..windows.len()
        invariant
            forall|j: int|
                0 <= j < i && (#[trigger] windows@[j]).is_of(pid) ==> windows@[j].id is Some,
            match best {
                Some(b) => is_largest(windows@, pid, b as int, i as int),
                None => forall|j: int| 0 <= j < i ==> !(#[trigger] windows@[j]).eligible(pid),
            },
    {
        let window = windows[i];
        let ours = match (window.owner, window.layer) {
            (Some(owner), Some(layer)) => owner == pid && layer == 0,
            _ => false,
        };
        if ours {
            if window.id.is_none() {
                return Err(CaptureError::NoEligibleWindow);
            }
            if window.area >= UNIT_AREA {
                let larger = match best {
                    Some(b) => window.area > windows[b].area,
                    None => true,
                };
                if larger {
                    best = Some(i);
                }
            }
        }
    }
    match best {
        Some(b) => Ok(b),
        None => Err(CaptureError::NoEligibleWindow),
    }
}

/// A window as the capture framework shares it.
#[derive(Debug, Clone, Copy, PartialEq, Eq, Structural)]
pub struct SharedWindow {
    pub owner: Option<i32>,
    pub layer: i64,
    pub active: bool,
    pub on_screen: bool,
    pub area: u64,
}

impl SharedWindow {
    pub open spec fn is_of(self, pid: i32) -> bool {
        self.owner == Some(pid) && self.layer == 0
    }

    /// The active window first, then what is on screen.
    pub open spec fn rank_of(self) -> int {
        (if self.active {
            2int
        } else {
            0
        }) + (if self.on_screen {
            1int
        } else {
            0
        })
    }

    /// Whether it is rather captured than `other`: by its rank, and then by its area.
    pub open spec fn beats(self, other: SharedWindow) -> bool {
        self.rank_of() > other.rank_of() || (self.rank_of() == other.rank_of() && self.area
            > other.area)
    }

    fn rank(&self) -> (r: u8)
        ensures
            r == self.rank_of(),
    {
        match (self.active, self.on_screen) {
            (true, true) => 3,
            (true, false) => 2,
            (false, true) => 1,
            (false, false) => 0,
        }
    }
}

/// Whether the `i`th of the first `n` windows is the application's best, and the first of those
/// that no other beats.
pub open spec fn is_best(windows: Seq<SharedWindow>, pid: i32, i: int, n: int) -> bool {
    &&& 0 <= i < n
    &&& windows[i].is_of(pid)
    &&& forall|j: int|
        0 <= j < n && (#[trigger] windows[j]).is_of(pid) ==> !windows[j].beats(windows[i])
    &&& forall|j: int|
        0 <= j < i && (#[trigger] windows[j]).is_of(pid) ==> windows[i].beats(windows[j])
}

/// The window of the application to capture.
pub fn best_window(windows: &Vec<SharedWindow>, pid: i32) -> (r: Option<usize>)
    ensures
        match r {
            Some(i) => is_best(windows@, pid, i as int, windows@.len() as int),
            None => forall|j: int|
                0 <= j < windows@.len() ==> !(#[trigger] windows@[j]).is_of(pid),
        },
{
    let mut best: Option<usize> = None;
    for i in 0..windows.len()
        invariant
            match best {
                Some(b) => is_best(windows@, pid, b as int, i as int),
                None => forall|j: int| 0 <= j < i ==> !(#[trigger] windows@[j]).is_of(pid),
            },
    {
        let window = windows[i];
        let ours = match window.owner {
            Some(owner) => owner == pid && window.layer == 0,
            None => false,
        };
        if ours {
            let better = match best {
                Some(b) => {
                    let held = windows[b];
                    window.rank() > held.rank() || (window.rank() == held.rank() && window.area
                        > held.area)
                },
                None => true,
            };
            if better {
                best = Some(i);
            }
        }
    }
    best
}

/// The application in front.
pub struct FrontmostApplication {
    pub pid: i32,
    pub name: String,
    pub bundle_identifier: Option<String>,
    pub icon_png: Option<Vec<u8>>,
}

/// Whether the application in front may be captured: not this process itself, and only with the
/// system's permission.
pub fn may_capture(app: &FrontmostApplication, own_pid: i32, permitted: bool) -> (r: Result<
    (),
    CaptureError,
>)
    ensures
        match r {
            Ok(_) => app.pid != own_pid && permitted,
            Err(e) => if app.pid == own_pid {
                e is NoEligibleWindow
            } else {
                e is PermissionRequired && !permitted
            },
        },
{
    if app.pid == own_pid {
        return Err(CaptureError::NoEligibleWindow);
    }
    if !permitted {
        return Err(CaptureError::PermissionRequired);
    }
    Ok(())
}

/// A captured window; without permission to read application text there is none.
pub fn macos_shot(
    app: FrontmostApplication,
    window_title: Option<String>,
    png: Vec<u8>,
    accessibility: Option<AccessibilitySnapshot>,
    captured_at: i64,
) -> (r: Result<CapturedAppshot, CaptureError>)
    ensures
        match r {
            Ok(shot) => {
                &&& png@.len() <= MAX_ATTACHMENT_BYTES
                &&& is_uuid_v4(shot.id@)
                &&& shot.app_name == app.name
                &&& shot.bundle_identifier == app.bundle_identifier
                &&& shot.window_title == window_title
                &&& match accessibility {
                    Some(known) => shot.accessibility == known,
                    None => shot.accessibility.format_version == 1
                        && shot.accessibility.content@.len() == 0 && !shot.accessibility.truncated,
                }
                &&& shot.screenshot.name@ == shot_name(path_safe(app.name@))
                &&& is_uuid_v4(shot.screenshot.id@)
                &&& shot.screenshot.bytes == png
                &&& shot.screenshot_dimensions == png_size(png@)
                &&& shot.app_icon == app.icon_png
                &&& shot.captured_at == captured_at
            },
            Err(e) => {
                &&& png@.len() > MAX_ATTACHMENT_BYTES
                &&& e.says("The captured window is larger than Zeron's 24 MB image limit."@)
            },
        },
{
    let screenshot_dimensions = png_dimensions(png.as_slice());
    let screenshot = match stage_png(app.name.as_str(), png) {
        Ok(screenshot) => screenshot,
        Err(e) => {
            return Err(e);
        },
    };
    let accessibility = match accessibility {
        Some(known) => known,
        None => AccessibilitySnapshot::unavailable(),
    };
    Ok(
        CapturedAppshot {
            id: fresh_id(),
            app_name: app.name,
            bundle_identifier: app.bundle_identifier,
            window_title,
            accessibility,
            screenshot,
            screenshot_dimensions,
            app_icon: app.icon_png,
            captured_at,
        },
    )
}

/// The window that is captured is an ordinary one of the application. An active window is preferred
/// to one that is not, then one on screen to one that is not, and then the larger.
pub proof fn law_the_active_window_is_captured(
    windows: Seq<SharedWindow>,
    pid: i32,
    i: int,
    j: int,
)
    requires
        is_best(windows, pid, i, windows.len() as int),
        0 <= j < windows.len(),
        windows[j].owner == Some(pid),
        windows[j].layer == 0,
    ensures
        windows[i].owner == Some(pid) && windows[i].layer == 0,
        windows[j].active ==> windows[i].active,
        windows[j].active == windows[i].active && windows[j].on_screen ==> windows[i].on_screen,
        windows[j].active == windows[i].active && windows[j].on_screen == windows[i].on_screen
            ==> windows[j].area <= windows[i].area,
        windows[j].active == windows[i].active && windows[j].on_screen == windows[i].on_screen
            && windows[j].area == windows[i].area ==> i <= j,
{
    assert(windows[j].is_of(pid));
}

/// The listed window that is taken is an ordinary one of the application, with an extent, and no
/// other such window is larger.
pub proof fn law_the_largest_window_is_taken(
    windows: Seq<ListedWindow>,
    pid: i32,
    i: int,
    j: int,
)
    requires
        is_largest(windows, pid, i, windows.len() as int),
        0 <= j < windows.len(),
        windows[j].owner == Some(pid),
        windows[j].layer == Some(0i64),
    ensures
        windows[i].owner == Some(pid) && windows[i].layer == Some(0i64),
        windows[i].area >= UNIT_AREA,
        windows[j].area <= windows[i].area,
        windows[j].area == windows[i].area ==> i <= j,
{
    if windows[j].area >= UNIT_AREA {
        assert(windows[j].eligible(pid));
    }
}

/// A name that goes into a path has no separator left, and every other character is as it was.
pub proof fn law_names_have_no_separators(name: Seq<char>, i: int)
    requires
        0 <= i < name.len(),
    ensures
        path_safe(name).len() == name.len(),
        path_safe(name)[i] != '/' && path_safe(name)[i] != ':',
        name[i] != '/' && name[i] != ':' ==> path_safe(name)[i] == name[i],
        name[i] == '/' || name[i] == ':' ==> path_safe(name)[i] == '-',
{
}

} // verus!

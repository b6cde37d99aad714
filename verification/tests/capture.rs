use zeron::appshots::{
    png_dimensions, AccessibilitySnapshot, AppshotPlatform, CapabilityState, CaptureError,
    CaptureTarget,
};
use zeron::macos::{
    best_window, largest_window, macos_shot, may_capture, stage_png, FrontmostApplication,
    ListedWindow, SharedWindow,
};
use zeron::portal::{
    active_window_supported, is_capture_shortcut, portal_failed, portal_image_path, portal_request,
    portal_shot, probe_capture, shortcut_bound, uri_failed, PortalProbe, PortalStep, PortalTargets,
    WaylandStatus,
};
use zeron::semantic::{
    atspi_node, ax_node, clean, reads_text, select_focus, title_of, uia_node, AxWalk, Focus, SemanticCapture,
    TreeWalk, Visit, WindowState, MAX_DEPTH, MAX_TEXT_CHARS,
};
use zeron::windows::{
    capture_timed_out, drawn_icon_png, drawn_rgba, text_end, windows_failed, windows_shot,
    WindowMetadata, WindowsBackend,
};
use zeron::x11::{
    desktop_directories, desktop_entry, icon_candidates, icon_png, pick_icon, shortcut_state,
    space_keycode, unknown_entry, window_class, window_png, window_rgba, window_title, x11_failed,
    x11_shot, IconAt, NativeCapture, Visual, TRUE_COLOR,
};

fn semantic(app: &str, title: Option<&str>) -> SemanticCapture {
    SemanticCapture {
        app_name: app.into(),
        window_title: title.map(str::to_string),
        snapshot: AccessibilitySnapshot::unavailable(),
    }
}

fn header(width: u32, height: u32) -> Vec<u8> {
    let mut png = Vec::from(b"\x89PNG\r\n\x1a\n\0\0\0\rIHDR".as_slice());
    png.extend_from_slice(&width.to_be_bytes());
    png.extend_from_slice(&height.to_be_bytes());
    png
}

fn text(chars: &[char]) -> String {
    chars.iter().collect()
}

#[test]
fn identity_requires_the_same_application_and_window() {
    assert!(
        semantic("Firefox", Some("Issue 216"))
            .same_window(&semantic("firefox", Some("Issue 216")))
    );
    assert!(
        !semantic("Firefox", Some("Issue 216"))
            .same_window(&semantic("Terminal", Some("Issue 216")))
    );
    assert!(
        !semantic("Firefox", Some("Issue 216"))
            .same_window(&semantic("Firefox", Some("Passwords")))
    );
}

#[test]
fn names_are_compared_by_their_letters_in_lower_case() {
    assert!(semantic("ÉDITEUR-1", None).same_window(&semantic("éditeur 1", None)));
    assert!(semantic("Firefox", None).matches_x11(Some("org.mozilla.firefox"), None));
    assert!(!semantic("Firefox", None).matches_x11(Some("--"), None));
    assert!(!semantic("Firefox", None).matches_x11(None, Some("x")));
    assert!(semantic("A", Some("Inbox (3)")).matches_x11(None, Some("inbox 3")));
}

#[test]
fn the_active_window_has_the_focus() {
    let window =
        |active: bool, title: &str| WindowState { active, title: Some(title.to_string()) };
    let chosen = select_focus(true, &vec![window(false, "a"), window(true, "b")]).unwrap();
    assert_eq!((chosen.focus, chosen.title.as_deref()), (Focus::Window(1), Some("b")));
    assert_eq!(title_of(&Some("  ".to_string())), None);
    assert_eq!(title_of(&Some("x".to_string())).as_deref(), Some("x"));
}

#[test]
fn node_text_is_flattened_and_cut() {
    assert_eq!(text(&clean("  a \n b\tc ")), "a b c");
    assert_eq!(clean(&"x".repeat(MAX_TEXT_CHARS + 5)).len(), MAX_TEXT_CHARS);
    let fields = atspi_node(false, "Save", "Save", "Saves the file");
    assert_eq!(fields.len(), 2);
    assert_eq!(text(&fields[1]), "Saves the file");
    assert_eq!(uia_node(false, "", "", "").len(), 0);
}

#[test]
fn secure_values_stay_secret() {
    let title = Some("Password".to_string());
    let value = Some("hunter2".to_string());
    let open: Vec<String> =
        ax_node("AXTextField", &title, &None, &value).iter().map(|f| text(f)).collect();
    assert!(open.iter().any(|field| field.contains("hunter2")));
    let secure: Vec<String> =
        ax_node("AXSecureTextField", &title, &None, &value).iter().map(|f| text(f)).collect();
    assert_eq!(secure.len(), 1);
    assert!(secure[0].contains("Password") && !secure[0].contains("hunter2"));
    assert_eq!(atspi_node(true, "Password", "", "hunter2").len(), 1);
    assert_eq!(atspi_node(false, "Note", "", "hunter2").len(), 2);
    assert_eq!(uia_node(true, "Password", "", "hunter2").len(), 1);
    assert_eq!(uia_node(false, "Note", "", "hunter2").len(), 2);
    assert!(reads_text(false, true) && !reads_text(true, true) && !reads_text(false, false));
}

#[test]
fn a_tree_is_walked_level_by_level() {
    let mut walk = TreeWalk::new(1);
    let root = walk.next(false).unwrap();
    assert_eq!(root, Visit { node: 1, depth: 0 });
    walk.visited(root, "frame", &atspi_node(false, "Main", "", ""), &vec![2, 3]);
    let second = walk.next(false).unwrap();
    assert_eq!(second, Visit { node: 2, depth: 1 });
    walk.visited(second, "button", &atspi_node(false, "OK", "Confirm", ""), &vec![]);
    assert_eq!(walk.next(true), None);
    let snapshot = walk.finish();
    assert!(snapshot.truncated);
    assert_eq!(snapshot.content, "frame: Main\n  button: OK | Confirm\n");
}

#[test]
fn a_deep_or_long_tree_is_cut() {
    let mut walk = TreeWalk::new(1);
    let mut seen = 0;
    while let Some(visit) = walk.next(false) {
        seen += 1;
        walk.visited(visit, "panel", &Vec::new(), &vec![visit.node + 1]);
    }
    assert_eq!(seen, MAX_DEPTH + 1);
    assert!(walk.finish().truncated);

    let mut walk = AxWalk::new(1);
    let first = walk.next(false).unwrap();
    walk.visited(first, "AXWindow", &Vec::new(), &vec![2, 3]);
    assert_eq!(walk.next(false).unwrap().depth, 1);
    assert!(!walk.finish().truncated);
}

#[test]
fn a_probe_decides_how_a_window_is_captured() {
    let checking = WaylandStatus {
        shortcut: CapabilityState::Checking,
        capture: CapabilityState::Checking,
        target: CaptureTarget::PortalWindowPicker,
    };
    let offers = |active_window: bool, window: bool| PortalProbe::Version {
        version: 3,
        targets: Some(PortalTargets { active_window, window }),
    };
    let probed = |probe: PortalProbe| {
        let mut status = checking;
        probe_capture(&mut status, probe);
        (status.capture, status.target)
    };
    assert_eq!(
        probed(offers(true, false)),
        (CapabilityState::Ready, CaptureTarget::ActiveWindow)
    );
    assert_eq!(
        probed(offers(false, true)),
        (CapabilityState::UserSelection, CaptureTarget::PortalWindowPicker)
    );
    assert_eq!(probed(offers(false, false)).0, CapabilityState::Unavailable);
    assert_eq!(probed(PortalProbe::Missing).0, CapabilityState::Unavailable);
    let old = PortalProbe::Version { version: 2, targets: None };
    assert_eq!(probed(old).0, CapabilityState::UserSelection);
    assert!(active_window_supported(offers(true, true)));
    assert!(!active_window_supported(old));
    let mut status = checking;
    shortcut_bound(&mut status, false);
    assert_eq!(status.shortcut, CapabilityState::SetupRequired);
    assert!(is_capture_shortcut("capture-appshot") && !is_capture_shortcut("other"));
    assert!(portal_request(CaptureTarget::ActiveWindow).with_text);
    assert!(!portal_request(CaptureTarget::PortalWindowPicker).with_text);
}

#[test]
fn portal_uris_name_files() {
    assert_eq!(
        portal_image_path("file:///tmp/my%20shot.png"),
        Ok(b"/tmp/my shot.png".to_vec())
    );
    assert_eq!(
        portal_image_path("https://example.com/x.png").unwrap_err().message(),
        "Screenshot portal returned a non-file URI."
    );
    let error = portal_image_path("not a uri").unwrap_err();
    assert!(error.message().starts_with("Invalid portal image URI: "), "{error:?}");
    assert_eq!(uri_failed(None).message(), "Screenshot portal returned a non-file URI.");
    assert_eq!(
        portal_failed(PortalStep::Respond, "no").message(),
        "Screenshot portal request was cancelled: no"
    );
}

#[test]
fn portal_shots_carry_the_text_that_was_read() {
    let bare = portal_shot(CaptureTarget::PortalWindowPicker, None, header(2, 3), 7);
    assert_eq!(bare.app_name, "Selected window");
    assert_eq!(bare.bundle_identifier.as_deref(), Some("linux-portal:selection"));
    assert_eq!(bare.screenshot_dimensions, Some((2, 3)));
    assert_eq!(bare.captured_at, 7);
    let known = Some(semantic("Firefox", Some("Issue")));
    let full = portal_shot(CaptureTarget::ActiveWindow, known, header(2, 3), 7);
    assert_eq!((full.app_name.as_str(), full.window_title.as_deref()), ("Firefox", Some("Issue")));
    assert_eq!(full.bundle_identifier.as_deref(), Some("linux-portal:active-window"));
    assert_ne!(bare.id, full.id);
}

const RGB: Visual =
    Visual { class: TRUE_COLOR, red_mask: 0xff0000, green_mask: 0xff00, blue_mask: 0xff };

#[test]
fn pixels_are_split_into_their_colors() {
    assert_eq!(
        window_rgba(RGB, &vec![0x0012_34ff, 0]),
        Some(vec![0x12, 0x34, 0xff, 0xff, 0, 0, 0, 0xff])
    );
    let sixteen = Visual { red_mask: 0xf800, green_mask: 0x07e0, blue_mask: 0x001f, ..RGB };
    assert_eq!(window_rgba(sixteen, &vec![0xffff]), Some(vec![0xff, 0xff, 0xff, 0xff]));
    // A narrow color is filled up with its own bits: 10101 gives 10101101, 100000 gives 10000010.
    assert_eq!(window_rgba(sixteen, &vec![0xac00]), Some(vec![0xad, 0x82, 0x00, 0xff]));
    assert_eq!(window_rgba(Visual { class: 0, ..RGB }, &vec![0]), None);
    assert_eq!(window_rgba(Visual { red_mask: 0, ..RGB }, &vec![0]), None);
}

#[test]
fn windows_become_images() {
    let png = window_png(2, 1, RGB, &vec![0xff0000, 0x00ff00]).unwrap();
    assert_eq!(png_dimensions(&png), Some((2, 1)));
    assert_eq!(window_png(0, 4, RGB, &vec![]), Err(CaptureError::NoEligibleWindow));
    let error = window_png(1, 1, Visual { class: 0, ..RGB }, &vec![0]).unwrap_err();
    assert!(error.message().starts_with("X11 Appshot capture failed: "));
    assert_eq!(x11_failed("boom").message(), "X11 Appshot capture failed: boom");
}

#[test]
fn window_properties_are_read() {
    assert_eq!(
        window_title(Some("Über".as_bytes().to_vec()), None).as_deref(),
        Some("Über")
    );
    assert_eq!(window_title(None, Some(b"old".to_vec())).as_deref(), Some("old"));
    assert_eq!(window_title(Some(vec![0xff, 0xfe]), None), None);
    assert_eq!(window_title(Some(b"  ".to_vec()), None), None);
    assert_eq!(window_class(&b"navigator\0Firefox\0".to_vec()).as_deref(), Some("Firefox"));
    assert_eq!(window_class(&Vec::new()), None);
    assert_eq!(space_keycode(&vec![1, 2, 3, 0x20, 5, 6], 2, 8), Some(9));
    assert_eq!(space_keycode(&vec![1, 2], 2, 8), None);
    assert_eq!(shortcut_state(true), CapabilityState::Ready);
    assert_eq!(shortcut_state(false), CapabilityState::SetupRequired);
}

#[test]
fn the_icon_nearest_to_its_size_is_picked() {
    let mut values = vec![1, 1, 0xff00_00ff, 2, 2];
    values.extend([0xff11_2233u32; 4]);
    assert_eq!(pick_icon(&values), Some(IconAt { start: 5, width: 2, height: 2 }));
    let png = icon_png(&values).unwrap();
    assert_eq!(png_dimensions(&png), Some((2, 2)));
    assert_eq!(pick_icon(&vec![9, 9, 1]), None);
    assert_eq!(icon_png(&vec![]), None);
}

const DESKTOP: &str = "\
[Desktop Entry]
Name=Firefox Web Browser
Icon=firefox
StartupWMClass=Navigator
[Desktop Action new]
Name=New Window
";

#[test]
fn desktop_entries_are_found_by_class_or_file() {
    let found =
        desktop_entry(Some("firefox.desktop"), Some("firefox"), DESKTOP, "navigator").unwrap();
    assert_eq!(found.id.as_deref(), Some("firefox.desktop"));
    assert_eq!(found.name.as_deref(), Some("Firefox Web Browser"));
    assert_eq!(found.icon.as_deref(), Some("firefox"));
    assert!(desktop_entry(None, Some("firefox"), "", "Firefox").is_some());
    assert!(desktop_entry(None, Some("other"), DESKTOP, "gimp").is_none());
    assert_eq!(unknown_entry("Gimp").id.as_deref(), Some("linux-x11:gimp"));
    assert_eq!(desktop_directories(None).len(), 2);
    assert_eq!(desktop_directories(Some("/home/u"))[0], "/home/u/.local/share/applications");
    assert_eq!(icon_candidates("/x/y.png", None), ["/x/y.png"]);
    assert_eq!(
        icon_candidates("firefox", Some("/home/u"))[0],
        "/home/u/.local/share/icons/hicolor/64x64/apps/firefox.png"
    );
}

#[test]
fn x11_shots_take_the_best_name_that_is_known() {
    let native = || NativeCapture {
        png: header(4, 5),
        title: Some("Inbox".into()),
        wm_class: Some("Mail".into()),
        desktop: desktop_entry(Some("m.desktop"), Some("mail"), "[Desktop Entry]\nName=Mail App", "mail"),
        icon_png: None,
    };
    let shot = x11_shot(native(), None, 3);
    assert_eq!(shot.app_name, "Mail App");
    assert_eq!(shot.bundle_identifier.as_deref(), Some("m.desktop"));
    assert_eq!((shot.window_title.as_deref(), shot.screenshot_dimensions), (Some("Inbox"), Some((4, 5))));
}

#[test]
fn windows_captures() {
    let backend = WindowsBackend { shortcut_ready: true, capture_supported: false };
    let can = backend.capabilities();
    assert_eq!(can.platform, AppshotPlatform::Windows);
    assert_eq!(
        (can.global_shortcut, can.window_capture),
        (CapabilityState::Ready, CapabilityState::Unavailable)
    );
    assert_eq!(text_end(&vec![65, 66, 0, 67]), 2);
    assert_eq!(text_end(&vec![65]), 1);
    assert_eq!(
        drawn_rgba(&vec![1, 2, 3, 0, 0, 0, 0, 0, 4, 5, 6, 7]),
        [3, 2, 1, 255, 0, 0, 0, 0, 6, 5, 4, 7]
    );
    let icon = drawn_icon_png(&vec![9u8; 64 * 64 * 4]).unwrap();
    assert_eq!(png_dimensions(&icon), Some((64, 64)));
    assert!(drawn_icon_png(&vec![9u8; 4]).is_err());
    assert!(windows_failed("boom").message().contains("boom"));
    assert!(capture_timed_out("late").message().contains("late"));
    let metadata = || WindowMetadata {
        title: Some("Doc".into()),
        app_name: Some("Editor".into()),
        executable: None,
        application_user_model_id: None,
        icon_png: None,
    };
    let shot = windows_shot(metadata(), header(10, 20), None, 1).unwrap();
    assert_eq!((shot.app_name.as_str(), shot.screenshot_dimensions), ("Editor", Some((10, 20))));
    assert!(windows_shot(metadata(), vec![1], None, 1).is_err());
}

#[test]
fn macos_captures() {
    let app = || FrontmostApplication {
        pid: 7,
        name: "Safari/1".into(),
        bundle_identifier: Some("com.apple.Safari".into()),
        icon_png: None,
    };
    assert_eq!(may_capture(&app(), 1, true), Ok(()));
    assert_eq!(may_capture(&app(), 7, true), Err(CaptureError::NoEligibleWindow));
    assert_eq!(may_capture(&app(), 1, false), Err(CaptureError::PermissionRequired));
    assert!(stage_png("x", vec![0u8; 24 * 1024 * 1024 + 1]).is_err());
    assert!(!stage_png("a/b", vec![1]).unwrap().name.contains('/'));
    let shot = macos_shot(app(), Some("Home".into()), header(8, 9), None, 2).unwrap();
    assert_eq!((shot.app_name.as_str(), shot.screenshot_dimensions), ("Safari/1", Some((8, 9))));
}

#[test]
fn the_largest_window_of_the_application_is_listed_first() {
    let window = |owner: i32, layer: i64, id: Option<u32>, area: f64| ListedWindow {
        owner: Some(owner),
        layer: Some(layer),
        id,
        area: area.to_bits(),
    };
    let windows = vec![
        window(1, 0, Some(1), 9_000.0),
        window(7, 3, Some(2), 5_000.0),
        window(7, 0, Some(3), 200.5),
        window(7, 0, Some(4), 1_200.0),
        window(7, 0, Some(5), 1_200.0),
        window(7, 0, Some(6), 0.5),
    ];
    assert_eq!(largest_window(&windows, 7), Ok(3));
    assert_eq!(largest_window(&windows, 2), Err(CaptureError::NoEligibleWindow));
    let small = vec![window(7, 0, Some(6), 0.999)];
    assert_eq!(largest_window(&small, 7), Err(CaptureError::NoEligibleWindow));
    assert_eq!(largest_window(&vec![window(7, 0, Some(6), 1.0)], 7), Ok(0));
    let nameless = vec![window(7, 0, Some(1), 50.0), window(7, 0, None, 0.0)];
    assert_eq!(largest_window(&nameless, 7), Err(CaptureError::NoEligibleWindow));
}

#[test]
fn an_active_window_beats_a_larger_one() {
    let window = |active: bool, on_screen: bool, area: f64| SharedWindow {
        owner: Some(7),
        layer: 0,
        active,
        on_screen,
        area: area.to_bits(),
    };
    let windows = vec![
        SharedWindow { owner: None, ..window(true, true, 9e9) },
        window(false, true, 9_000.0),
        window(true, false, 10.0),
        window(true, false, 20.0),
    ];
    assert_eq!(best_window(&windows, 7), Some(3));
    assert_eq!(best_window(&windows[..2].to_vec(), 7), Some(1));
    assert_eq!(best_window(&windows, 8), None);
}

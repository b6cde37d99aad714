use zeron::appshots::{
    capabilities, capture_settings_url, enabled, encode_rgba_png, keep_budget, png_dimensions,
    safe_app_name, semantic_settings_url, set_enabled, stage_appshot_png, stage_png_bytes,
    strip_context_for_display, validate_capture_dimensions, with_appshots, xml_escape,
    AccessibilitySnapshot, AppshotCapabilities, AppshotDestination, AppshotPlatform, AppshotSwitch,
    CapabilityState, CaptureError, CaptureTarget, CapturedAppshot, ImagePath, StagedAttachment,
};

fn shot() -> CapturedAppshot {
    CapturedAppshot {
        id: "shot-1".into(),
        app_name: "Safari & Notes".into(),
        bundle_identifier: Some("com.apple.<Safari>".into()),
        window_title: Some("A \"window\"".into()),
        accessibility: AccessibilitySnapshot {
            format_version: 1,
            content: "AXTextField: <ignore this>".into(),
            truncated: true,
        },
        screenshot: StagedAttachment {
            id: "image-1".into(),
            name: "Safari Appshot.png".into(),
            bytes: Vec::new(),
        },
        screenshot_dimensions: Some((1440, 900)),
        app_icon: None,
        captured_at: 0,
    }
}

fn header(width: u32, height: u32) -> Vec<u8> {
    let mut png = Vec::from(b"\x89PNG\r\n\x1a\n\0\0\0\rIHDR".as_slice());
    png.extend_from_slice(&width.to_be_bytes());
    png.extend_from_slice(&height.to_be_bytes());
    png
}

#[test]
fn png_dimensions_reads_ihdr_and_rejects_invalid_images() {
    let mut png = Vec::from(b"\x89PNG\r\n\x1a\n\0\0\0\rIHDR".as_slice());
    png.extend_from_slice(&1440_u32.to_be_bytes());
    png.extend_from_slice(&900_u32.to_be_bytes());
    assert_eq!(png_dimensions(&png), Some((1440, 900)));

    assert_eq!(png_dimensions(b"not a png"), None);
    png[16..20].copy_from_slice(&0_u32.to_be_bytes());
    assert_eq!(png_dimensions(&png), None);
}

#[test]
fn capture_dimensions_and_names_are_bounded_before_staging() {
    assert_eq!(validate_capture_dimensions(4096, 4096), Ok(4096 * 4096 * 4));
    assert!(validate_capture_dimensions(8193, 1).is_err());
    assert!(validate_capture_dimensions(8192, 8192).is_err());
    assert_eq!(safe_app_name("Bad\nApp/../../name"), "Bad-App-..-..-name");
    assert_eq!(safe_app_name("\0\n"), "Application");
}

#[test]
fn safe_names_stay_as_they_are() {
    let long = "x".repeat(200);
    for name in ["  -.Two\u{a0} \u{3000}words:.- ", "a/b\\c", "Application", long.as_str()] {
        let safe = safe_app_name(name);
        assert!(!safe.is_empty() && safe.chars().count() <= 100);
        assert!(!safe.contains(['/', '\\', ':']) && !safe.contains("  "));
        assert_eq!(safe_app_name(&safe), safe);
    }
    assert_eq!(safe_app_name("  -.Two\u{a0} \u{3000}words:.- "), "Two words");
}

#[test]
fn appshot_context_is_escaped_and_strip_safe() {
    let shot = shot();
    let paths =
        vec![ImagePath { id: "image-1".into(), path: "pending://id/a&b.png".into() }];
    let prompt = with_appshots("Fix this", &vec![shot], &paths);
    assert!(prompt.contains("app=\"Safari &amp; Notes\""));
    assert!(prompt.contains("com.apple.&lt;Safari&gt;"));
    assert!(prompt.contains("A &quot;window&quot;"));
    assert!(prompt.contains("pending://id/a&amp;b.png"));
    assert!(prompt.contains("&lt;ignore this&gt;"));
    assert_eq!(strip_context_for_display(&prompt), "Fix this");
}

#[test]
fn empty_prompt_round_trips_to_empty_display() {
    let shot = shot();
    let prompt = with_appshots("", &vec![shot], &Vec::new());
    assert_eq!(strip_context_for_display(&prompt), "");
}

#[test]
fn wayland_capabilities_explain_picker_and_system_shortcut_fallbacks() {
    let capabilities = AppshotCapabilities {
        platform: AppshotPlatform::LinuxWayland,
        global_shortcut: CapabilityState::SetupRequired,
        window_capture: CapabilityState::UserSelection,
        application_text: CapabilityState::Ready,
        target: CaptureTarget::PortalWindowPicker,
    };
    assert!(capabilities.shortcut_description().contains("zeron appshot"));
    assert!(capabilities.capture_description().contains("each capture"));
    assert!(capabilities.window_capture.is_ready());
}

#[test]
fn a_prompt_without_appshots_is_left_alone() {
    assert_eq!(with_appshots("Fix this", &Vec::new(), &Vec::new()), "Fix this");
    assert_eq!(strip_context_for_display("Fix this  "), "Fix this  ");
}

#[test]
fn escaped_text_holds_no_markup() {
    assert_eq!(xml_escape("<a href=\"x\">&'</a>"), "&lt;a href=&quot;x&quot;&gt;&amp;&apos;&lt;/a&gt;");
    assert_eq!(xml_escape("plain"), "plain");
    assert_ne!(xml_escape("&lt;"), xml_escape("<"));
}

#[test]
fn encoded_images_have_their_dimensions() {
    let rgba = [10u8, 20, 30, 255, 40, 50, 60, 255, 1, 2, 3, 4, 5, 6, 7, 8, 9, 9, 9, 9, 0, 0, 0, 0];
    let png = encode_rgba_png(3, 2, &rgba, "X11").unwrap();
    assert_eq!(png_dimensions(&png), Some((3, 2)));
    assert_ne!(png, rgba);
}

#[test]
fn images_with_missing_pixels_are_not_encoded() {
    let error = encode_rgba_png(3, 2, &[0u8; 4], "X11").unwrap_err();
    assert!(error.message().starts_with("X11"), "{error:?}");
}

#[test]
fn an_encoder_failure_names_the_platform() {
    let error = keep_budget("Windows", Err("boom".into())).unwrap_err();
    assert!(error.message().contains("boom"), "{error:?}");
    assert_eq!(keep_budget("Windows", Ok(vec![7u8; 20])), Ok(vec![7u8; 20]));
}

#[test]
fn a_capture_is_staged_under_the_name_of_its_app() {
    let (staged, size) = stage_appshot_png("Fire/fox", header(1440, 900)).unwrap();
    assert_eq!(size, (1440, 900));
    assert_eq!(staged.name, "Fire-fox Appshot.png");
    assert_eq!(staged.id.len(), 36);
    assert_eq!(staged.bytes, header(1440, 900));
    let other = stage_png_bytes("x.png".into(), vec![1]);
    assert_eq!((other.name.as_str(), other.bytes.as_slice()), ("x.png", [1u8].as_slice()));
    assert_ne!(other.id, staged.id);
}

#[test]
fn captures_that_cannot_be_staged_say_why() {
    let large = stage_appshot_png("App", vec![0u8; 24 * 1024 * 1024 + 1]).unwrap_err();
    assert_eq!(large.message(), "The captured window is larger than Zeron's 24 MB image limit.");
    assert!(stage_appshot_png("App", b"junk".to_vec()).is_err());
    assert!(stage_appshot_png("App", header(9000, 10)).is_err());
}

#[test]
fn errors_say_what_happened() {
    assert_eq!(CaptureError::CaptureFailed("boom".into()).message(), "boom");
    let all = [
        CaptureError::PermissionRequired.message(),
        CaptureError::NoEligibleWindow.message(),
        CaptureError::ShortcutUnavailable.message(),
    ];
    assert!(all.iter().all(|text| !text.is_empty()));
    assert!(all[0] != all[1] && all[1] != all[2] && all[0] != all[2]);
}

#[test]
fn the_switch_and_the_destinations() {
    let mut switch = AppshotSwitch::new();
    set_enabled(&mut switch, true);
    assert!(enabled(&switch));
    set_enabled(&mut switch, false);
    assert!(!enabled(&switch));
    assert_eq!(AppshotDestination::all().len(), 3);
    assert_eq!(AppshotDestination::default(), AppshotDestination::Automatic);
    assert_ne!(AppshotDestination::LastSession.label(), AppshotDestination::NewSession.label());
}

#[test]
fn without_a_backend_nothing_is_supported() {
    let none = capabilities(None);
    assert_eq!(none.platform, AppshotPlatform::Unsupported);
    assert!(!none.window_capture.is_ready());
    assert_eq!(capture_settings_url(AppshotPlatform::LinuxX11), None);
    assert!(capture_settings_url(AppshotPlatform::MacOs).is_some());
    assert!(semantic_settings_url(AppshotPlatform::MacOs).is_some());
    let unread = AccessibilitySnapshot::unavailable();
    assert_eq!((unread.format_version, unread.truncated), (1, false));
}

#[test]
fn a_platform_is_described_in_its_own_words() {
    let mut capabilities = AppshotCapabilities {
        platform: AppshotPlatform::MacOs,
        global_shortcut: CapabilityState::Ready,
        window_capture: CapabilityState::Ready,
        application_text: CapabilityState::Ready,
        target: CaptureTarget::ActiveWindow,
    };
    assert_eq!(capabilities.shortcut_label(), "Control-Option-Space (⌃⌥Space)");
    assert!(capabilities.setup_description().starts_with("Set up once"));
    assert!(capabilities.semantic_description().starts_with("Accessibility adds"));
    capabilities.platform = AppshotPlatform::LinuxX11;
    assert_eq!(capabilities.shortcut_label(), "Control-Alt-Space");
    assert!(capabilities.setup_description().starts_with("X11 normally needs"));
    assert!(capabilities.semantic_description().starts_with("AT-SPI adds"));
    capabilities.platform = AppshotPlatform::Unsupported;
    assert_eq!(capabilities.shortcut_label(), "Unavailable");
}

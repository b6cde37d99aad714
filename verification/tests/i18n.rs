use zeron::i18n::{
    detect_system_preview_zh, init, is_zh, locale, lookup, mode, set_mode, t, t_str, tf, tr,
    with_locale, Argument, Environment, Language, LanguageMode, Locale,
};

#[test]
fn tests_default_to_english() {
    let language = Language::default();
    assert_eq!(t(&language, "Appearance"), "Appearance");
    assert_eq!(t_str(&language, "No project"), "No project");
}

#[test]
fn chinese_lookup_and_passthrough() {
    with_locale(Locale::Zh, |language| {
        assert_eq!(t(&language, "Appearance"), "外观");
        assert_eq!(t(&language, "Accounts"), "账号");
        assert_eq!(t(&language, "___missing_key___"), "___missing_key___");
        assert_eq!(tr(&language, "Open", "打开"), "打开");
    });
    assert_eq!(tr(&Language::default(), "Open", "打开"), "Open");
}

#[test]
fn tf_named_and_positional() {
    let n = Argument { name: "n", value: "3" };
    let pct = Argument { name: "pct", value: "12" };
    let n = vec![n];
    let pct = vec![pct];
    with_locale(Locale::Zh, |language| {
        assert_eq!(tf(&language, "{n} attached images", &n), "3 张已附加图片");
        assert_eq!(tf(&language, "{pct}% used", &pct), "已用 12%");
    });
    let language = Language::default();
    assert_eq!(tf(&language, "{n} attached images", &n), "3 attached images");
    assert_eq!(tf(&language, "{pct}% used", &pct), "12% used");
}

#[test]
fn relative_now_localizes() {
    assert_eq!(t_str(&Language::default(), "now"), "now");
    with_locale(Locale::Zh, |language| {
        assert_eq!(t_str(&language, "now"), "刚刚");
    });
}

#[test]
fn modes_round_trip_through_their_number() {
    for mode in LanguageMode::all() {
        assert_eq!(LanguageMode::from_u8(mode.as_u8()), mode);
    }
    assert_eq!(LanguageMode::from_u8(77), LanguageMode::System);
}

#[test]
fn the_mode_decides_before_the_system() {
    let mut language = init(LanguageMode::System, true);
    assert!(is_zh(&language));
    assert!(set_mode(&mut language, LanguageMode::English));
    assert!(!set_mode(&mut language, LanguageMode::English));
    assert_eq!(mode(&language), LanguageMode::English);
    assert_eq!(locale(&language), Locale::En);
    assert!(set_mode(&mut language, LanguageMode::Chinese));
    assert_eq!(locale(&language), Locale::Zh);
    assert_eq!(lookup(&language, "no such text at all"), "no such text at all");
}

#[test]
fn the_environment_names_the_language() {
    let silent =
        || Environment { zeron_lang: None, lc_all: None, lc_messages: None, lang: None, preferred: None };
    assert!(!detect_system_preview_zh(&silent()));
    assert!(detect_system_preview_zh(&Environment { lang: Some("zh_CN.UTF-8"), ..silent() }));
    assert!(!detect_system_preview_zh(&Environment { lang: Some("en_US.UTF-8"), ..silent() }));
    assert!(detect_system_preview_zh(&Environment {
        zeron_lang: Some("zh"),
        lang: Some("en_US.UTF-8"),
        ..silent()
    }));
}

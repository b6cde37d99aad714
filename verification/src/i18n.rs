//! Interface localization.
//!
//! English is the source language in code. Simplified Chinese is selected when the system's locale
//! is Chinese, or when the user pins it.

use vstd::prelude::*;

use crate::i18n_zh::{lookup_zh, zh};
use crate::text::{
    ascii_folded, chars_of, first_at, folded, is_prefix, lemma_first_from,
    lemma_first_from_unique, occurs_at, opt_str, replace_all, replaced, spells, starts_with,
    string_of,
};

verus! {

pub const MODE_SYSTEM: u8 = 0;

pub const MODE_EN: u8 = 1;

pub const MODE_ZH: u8 = 2;

/// Persisted language preference. Defaults to following the system.
#[derive(Debug, Clone, Copy, PartialEq, Eq, Structural)]
pub enum LanguageMode {
    System,
    English,
    Chinese,
}

impl Default for LanguageMode {
    fn default() -> (r: Self)
        ensures
            r == LanguageMode::System,
    {
        LanguageMode::System
    }
}

impl LanguageMode {
    pub fn all() -> (r: Vec<Self>)
        ensures
            r@ == seq![LanguageMode::System, LanguageMode::English, LanguageMode::Chinese],
    {
        let mut r: Vec<Self> = Vec::new();
        r.push(LanguageMode::System);
        r.push(LanguageMode::English);
        r.push(LanguageMode::Chinese);
        r
    }

    /// The name of the choice: languages name themselves.
    pub fn label(self, language: &Language) -> (r: &'static str)
        ensures
            r@ == match self {
                LanguageMode::System => translated(*language, "System"@),
                LanguageMode::English => "English"@,
                LanguageMode::Chinese => "简体中文"@,
            },
    {
        match self {
            LanguageMode::System => t(language, "System"),
            LanguageMode::English => "English",
            LanguageMode::Chinese => "简体中文",
        }
    }

    /// The choice as a number.
    pub open spec fn number(self) -> u8 {
        match self {
            LanguageMode::System => MODE_SYSTEM,
            LanguageMode::English => MODE_EN,
            LanguageMode::Chinese => MODE_ZH,
        }
    }

    /// The choice that a number stands for.
    pub open spec fn numbered(v: u8) -> Self {
        if v == MODE_EN {
            LanguageMode::English
        } else if v == MODE_ZH {
            LanguageMode::Chinese
        } else {
            LanguageMode::System
        }
    }

    pub fn as_u8(self) -> (r: u8)
        ensures
            r == self.number(),
    {
        match self {
            LanguageMode::System => MODE_SYSTEM,
            LanguageMode::English => MODE_EN,
            LanguageMode::Chinese => MODE_ZH,
        }
    }

    pub fn from_u8(v: u8) -> (r: Self)
        ensures
            r == Self::numbered(v),
    {
        if v == MODE_EN {
            LanguageMode::English
        } else if v == MODE_ZH {
            LanguageMode::Chinese
        } else {
            LanguageMode::System
        }
    }
}

/// A choice is read back from its number.
pub proof fn law_modes_round_trip(mode: LanguageMode)
    ensures
        LanguageMode::numbered(mode.number()) == mode,
{
}

/// Resolved locale.
#[derive(Debug, Clone, Copy, PartialEq, Eq, Structural)]
pub enum Locale {
    En,
    Zh,
}

/// The language of the interface: the user's choice, and what the system prefers.
#[derive(Debug, Clone, Copy, PartialEq, Eq, Structural)]
pub struct Language {
    pub mode: LanguageMode,
    pub system_zh: bool,
}

impl Default for Language {
    fn default() -> (r: Self)
        ensures
            r == (Language { mode: LanguageMode::System, system_zh: false }),
    {
        Language { mode: LanguageMode::System, system_zh: false }
    }
}

impl Language {
    pub open spec fn resolved(self) -> Locale {
        match self.mode {
            LanguageMode::English => Locale::En,
            LanguageMode::Chinese => Locale::Zh,
            LanguageMode::System => if self.system_zh {
                Locale::Zh
            } else {
                Locale::En
            },
        }
    }
}

/// Install the persisted preference.
pub fn init(mode: LanguageMode, system_zh: bool) -> (r: Language)
    ensures
        r == (Language { mode, system_zh }),
{
    Language { mode, system_zh }
}

pub fn mode(language: &Language) -> (r: LanguageMode)
    ensures
        r == language.mode,
{
    language.mode
}

/// Pin a language. Returns whether that changes anything, in which case it is to be persisted.
pub fn set_mode(language: &mut Language, mode: LanguageMode) -> (changed: bool)
    ensures
        changed == (old(language).mode != mode),
        *final(language) == (Language { mode, ..*old(language) }),
{
    if language.mode == mode {
        return false;
    }
    language.mode = mode;
    true
}

pub fn locale(language: &Language) -> (r: Locale)
    ensures
        r == language.resolved(),
{
    match language.mode {
        LanguageMode::English => Locale::En,
        LanguageMode::Chinese => Locale::Zh,
        LanguageMode::System => if language.system_zh {
            Locale::Zh
        } else {
            Locale::En
        },
    }
}

pub fn is_zh(language: &Language) -> (r: bool)
    ensures
        r == (language.resolved() == Locale::Zh),
{
    locale(language) == Locale::Zh
}

/// The language that is pinned to a locale.
pub open spec fn pinned(locale: Locale) -> Language {
    Language {
        mode: match locale {
            Locale::En => LanguageMode::English,
            Locale::Zh => LanguageMode::Chinese,
        },
        system_zh: false,
    }
}

/// Do something in the language of a locale.
pub fn with_locale<T, F: FnOnce(Language) -> T>(locale: Locale, f: F) -> (r: T)
    requires
        f.requires((pinned(locale),)),
    ensures
        f.ensures((pinned(locale),), r),
{
    let mode = match locale {
        Locale::En => LanguageMode::English,
        Locale::Zh => LanguageMode::Chinese,
    };
    f(Language { mode, system_zh: false })
}

/// A text in a language. Unknown texts stay English.
pub open spec fn translated(language: Language, en: Seq<char>) -> Seq<char> {
    if language.resolved() == Locale::Zh && zh(en) is Some {
        zh(en)->0
    } else {
        en
    }
}

/// Translate a static English text.
pub fn t(language: &Language, en: &'static str) -> (r: &'static str)
    ensures
        r@ == translated(*language, en@),
{
    if !is_zh(language) {
        return en;
    }
    let chars = chars_of(en);
    match lookup_zh(chars.as_slice()) {
        Some(found) => found,
        None => en,
    }
}

/// Pick between two texts where the same English word has two Chinese senses.
pub fn tr(language: &Language, en: &'static str, zh: &'static str) -> (r: &'static str)
    ensures
        r@ == if language.resolved() == Locale::Zh {
            zh@
        } else {
            en@
        },
{
    if is_zh(language) {
        zh
    } else {
        en
    }
}

/// Translate an English text known at run time (engine errors, catalog labels, …).
pub fn t_str(language: &Language, en: &str) -> (r: String)
    ensures
        r@ == translated(*language, en@),
{
    lookup(language, en).to_owned()
}

/// The template used by [`tf`].
pub fn lookup<'a>(language: &Language, en: &'a str) -> (r: &'a str)
    ensures
        r@ == translated(*language, en@),
{
    if !is_zh(language) {
        return en;
    }
    let chars = chars_of(en);
    match lookup_zh(chars.as_slice()) {
        Some(found) => found,
        None => en,
    }
}

/// A text that nobody translated stays as it is, in every language.
pub proof fn law_unknown_texts_pass_through(language: Language, en: Seq<char>)
    requires
        zh(en) is None,
    ensures
        translated(language, en) == en,
{
}

/// English is the source: no text changes in it.
pub proof fn law_english_is_the_source(language: Language, en: Seq<char>)
    requires
        language.resolved() == Locale::En,
    ensures
        translated(language, en) == en,
{
}

/// A named value of a template.
pub struct Argument<'a> {
    pub name: &'a str,
    pub value: &'a str,
}

/// What an argument stands for in a template.
pub open spec fn placeholder(name: Seq<char>) -> Seq<char> {
    seq!['{'] + name + seq!['}']
}

/// A template with its first `n` arguments put in, one after the other.
pub open spec fn filled(template: Seq<char>, arguments: Seq<Argument>, n: nat) -> Seq<char>
    decreases n,
{
    if n == 0 {
        template
    } else {
        replace_all(
            filled(template, arguments, (n - 1) as nat),
            placeholder(arguments[n - 1].name@),
            arguments[n - 1].value@,
        )
    }
}

/// Translate a template and put its arguments in.
pub fn tf(language: &Language, en: &str, arguments: &Vec<Argument>) -> (r: String)
    ensures
        r@ == filled(translated(*language, en@), arguments@, arguments@.len()),
{
    let template = lookup(language, en);
    let mut r = chars_of(template);
    for i in 0..arguments.len()
        invariant
            r@ == filled(translated(*language, en@), arguments@, i as nat),
    {
        let mut pattern = String::new();
        pattern.push('{');
        pattern.push_str(arguments[i].name);
        pattern.push('}');
        assert(pattern@ =~= placeholder(arguments@[i as int].name@));
        r = replaced(r.as_slice(), pattern.as_str(), arguments[i].value);
    }
    string_of(r.as_slice())
}

// ---------------------------------------------------------------------------
// The system's language
// ---------------------------------------------------------------------------

/// What the environment says of the language.
pub struct Environment<'a> {
    pub zeron_lang: Option<&'a str>,
    pub lc_all: Option<&'a str>,
    pub lc_messages: Option<&'a str>,
    pub lang: Option<&'a str>,
    /// The first of the languages that the system's settings prefer.
    pub preferred: Option<&'a str>,
}

pub open spec fn asks_zh(v: Seq<char>) -> bool {
    let v = ascii_folded(v);
    v == "zh"@ || is_prefix("zh_"@, v) || is_prefix("zh-"@, v) || v == "cn"@
}

pub open spec fn asks_en(v: Seq<char>) -> bool {
    let v = ascii_folded(v);
    v == "en"@ || is_prefix("en_"@, v) || is_prefix("en-"@, v)
}

/// Whether a variable names a Chinese locale.
pub open spec fn names_zh(v: Option<Seq<char>>) -> bool {
    v matches Some(v) && is_prefix("zh"@, ascii_folded(v))
}

/// Whether the system prefers Chinese: the application's own variable decides where it asks for
/// either language; otherwise the system's settings, and then any of the locale variables.
pub open spec fn prefers_zh(environment: Environment) -> bool {
    match opt_str(environment.zeron_lang) {
        Some(v) if asks_zh(v) => true,
        Some(v) if asks_en(v) => false,
        _ => names_zh(opt_str(environment.preferred)) || names_zh(opt_str(environment.lc_all))
            || names_zh(opt_str(environment.lc_messages)) || names_zh(opt_str(environment.lang)),
    }
}

fn is_zh_name(v: Option<&str>) -> (r: bool)
    ensures
        r == names_zh(opt_str(v)),
{
    match v {
        Some(v) => {
            let v = folded(v);
            starts_with(v.as_slice(), "zh")
        },
        None => false,
    }
}

pub fn detect_system_preview_zh(environment: &Environment) -> (r: bool)
    ensures
        r == prefers_zh(*environment),
{
    if let Some(v) = environment.zeron_lang {
        let v = folded(v);
        let v = v.as_slice();
        if spells(v, "zh") || starts_with(v, "zh_") || starts_with(v, "zh-") || spells(v, "cn") {
            return true;
        }
        if spells(v, "en") || starts_with(v, "en_") || starts_with(v, "en-") {
            return false;
        }
    }
    is_zh_name(environment.preferred) || is_zh_name(environment.lc_all) || is_zh_name(
        environment.lc_messages,
    ) || is_zh_name(environment.lang)
}

/// A language that is picked is the one that is spoken, whatever the system prefers; without a pick
/// the system's preference counts.
pub proof fn law_a_picked_language_is_spoken(language: Language)
    ensures
        language.mode == LanguageMode::English ==> language.resolved() == Locale::En,
        language.mode == LanguageMode::Chinese ==> language.resolved() == Locale::Zh,
        language.mode == LanguageMode::System ==> (language.resolved() == Locale::Zh
            <==> language.system_zh),
{
}

/// The application's own variable decides where it asks for a language; the system's settings and
/// the locale variables count only where it does not, and any of them that names Chinese is enough.
pub proof fn law_the_own_variable_decides(environment: Environment)
    ensures
        environment.zeron_lang is Some && ascii_folded((environment.zeron_lang->0)@) == "zh"@
            ==> prefers_zh(environment),
        environment.zeron_lang is Some && ascii_folded((environment.zeron_lang->0)@) == "en"@
            ==> !prefers_zh(environment),
        environment.zeron_lang is None ==> (prefers_zh(environment) <==> {
            ||| environment.preferred matches Some(v) && is_prefix("zh"@, ascii_folded(v@))
            ||| environment.lc_all matches Some(v) && is_prefix("zh"@, ascii_folded(v@))
            ||| environment.lc_messages matches Some(v) && is_prefix("zh"@, ascii_folded(v@))
            ||| environment.lang matches Some(v) && is_prefix("zh"@, ascii_folded(v@))
        }),
{
    reveal_strlit("zh");
    reveal_strlit("en");
    reveal_strlit("zh_");
    reveal_strlit("zh-");
    reveal_strlit("cn");
    assert("en"@[0] == 'e' && "zh"@[0] == 'z' && "cn"@[0] == 'c');
}

/// A template whose arguments it does not mention stays as it is, and one placeholder alone gives
/// way to its value.
pub proof fn law_placeholders_give_way_to_values(argument: Argument, arguments: Seq<Argument>)
    requires
        arguments == seq![argument],
    ensures
        filled(placeholder(argument.name@), arguments, 1) == argument.value@,
{
    let whole = placeholder(argument.name@);
    reveal_with_fuel(filled, 2);
    assert(whole.subrange(0, whole.len() as int) =~= whole);
    lemma_first_from_unique(whole, whole, 0, 0);
    assert(whole.skip(whole.len() as int) =~= Seq::<char>::empty());
    assert(whole.take(0) =~= Seq::<char>::empty());
    reveal_with_fuel(replace_all, 2);
    assert(replace_all(whole, whole, argument.value@) =~= argument.value@);
}

/// A placeholder in a template gives way to its value, and the text around it stays.
pub proof fn law_templates_are_filled_in_place(
    x: Seq<char>,
    argument: Argument,
    y: Seq<char>,
    arguments: Seq<Argument>,
)
    requires
        arguments == seq![argument],
        forall|i: int| 0 <= i < x.len() ==> #[trigger] x[i] != '{',
        forall|i: int| 0 <= i < y.len() ==> #[trigger] y[i] != '{',
    ensures
        filled(x + placeholder(argument.name@) + y, arguments, 1) == x + argument.value@ + y,
{
    let hole = placeholder(argument.name@);
    let all = x + hole + y;
    let n = x.len() as int;
    reveal_with_fuel(filled, 2);
    assert(all.subrange(n, n + hole.len()) =~= hole);
    assert forall|i: int| 0 <= i < n implies !occurs_at(all, hole, i) by {
        if occurs_at(all, hole, i) {
            assert(all.subrange(i, i + hole.len())[0] == all[i]);
            assert(all[i] == x[i]);
        }
    }
    lemma_first_from_unique(all, hole, 0, n);
    assert(all.take(n) =~= x);
    assert(all.skip(n + hole.len()) =~= y);
    lemma_first_from(y, hole, 0);
    if first_at(y, hole) is Some {
        let at = first_at(y, hole)->0;
        assert(y.subrange(at, at + hole.len())[0] == y[at]);
    }
    assert(replace_all(y, hole, argument.value@) == y);
}

/// A language that is pinned to a locale speaks it.
pub proof fn law_pinned_languages_speak_their_locale(locale: Locale)
    ensures
        pinned(locale).resolved() == locale,
{
}

} // verus!

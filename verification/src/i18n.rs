use vstd::prelude::*;

verus! {

/// The interface languages the application offers.
#[derive(Debug, Clone, Copy, PartialEq, Eq, Structural)]
pub enum Locale {
    En,
    ZhTW,
}

/// The locale code that a locale is registered under.
pub open spec fn locale_code_spec(locale: Locale) -> Seq<char> {
    match locale {
        Locale::En => "en"@,
        Locale::ZhTW => "zh-TW"@,
    }
}

/// The label a locale is shown under in the language picker.
pub open spec fn locale_label_spec(locale: Locale) -> Seq<char> {
    match locale {
        Locale::En => "English"@,
        Locale::ZhTW => "中文"@,
    }
}

impl Locale {
    /// The locale code, as understood by the translation catalogue.
    pub fn code(&self) -> (code: &'static str)
        ensures
            code@ == locale_code_spec(*self),
    {
        match self {
            Locale::En => "en",
            Locale::ZhTW => "zh-TW",
        }
    }

    /// The human-readable name of the locale.
    pub fn label(&self) -> (label: &'static str)
        ensures
            label@ == locale_label_spec(*self),
    {
        match self {
            Locale::En => "English",
            Locale::ZhTW => "中文",
        }
    }

    /// Every locale, each exactly once, in picker order.
    pub fn all() -> (all: &'static [Locale])
        ensures
            all@ == seq![Locale::En, Locale::ZhTW],
    {
        &[Locale::En, Locale::ZhTW]
    }
}

/// The locale codes are pairwise distinct, so a code identifies its locale.
pub proof fn lemma_locale_code_injective(a: Locale, b: Locale)
    requires
        locale_code_spec(a) == locale_code_spec(b),
    ensures
        a == b,
{
    reveal_strlit("en");
    reveal_strlit("zh-TW");
    assert("en"@.len() == 2);
    assert("zh-TW"@.len() == 5);
}

} // verus!

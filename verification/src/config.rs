use vstd::prelude::*;

verus! {

/// Language of the text to normalize.
#[derive(Clone, Copy, Debug, PartialEq, Eq, Structural)]
pub enum Language {
    /// Chinese.
    Zh,
    /// English.
    En,
    /// Japanese.
    Ja,
    /// Detect the language from the text.
    Auto,
}

/// Direction of the normalization.
#[derive(Clone, Copy, Debug, PartialEq, Eq, Structural)]
pub enum Operator {
    /// Text normalization: written form to spoken form.
    Tn,
    /// Inverse text normalization: spoken form to written form.
    Itn,
}

/// Options of a normalization run.
#[derive(Clone, Copy, Debug, PartialEq, Eq, Structural)]
pub struct NormalizerConfig {
    /// Language of the input, or `Auto` to detect it.
    pub lang: Language,
    /// TN or ITN.
    pub operator: Operator,
    /// Expand English contractions ("don't" to "do not") first.
    pub fix_contractions: bool,
    /// Convert traditional Chinese characters to simplified ones first.
    pub traditional_to_simple: bool,
    /// Convert full-width characters to half-width ones at the end.
    pub full_to_half: bool,
    /// Remove interjections at the end.
    pub remove_interjections: bool,
    /// Remove punctuation at the end.
    pub remove_puncts: bool,
    /// Tag out-of-vocabulary characters at the end.
    pub tag_oov: bool,
    /// ITN: also convert single digits 0 to 9.
    pub enable_0_to_9: bool,
    /// TN: remove erhua (the 儿 suffix of spoken Mandarin).
    pub remove_erhua: bool,
}

/// The default options: detect the language, TN, every optional stage off.
pub open spec fn default_config() -> NormalizerConfig {
    NormalizerConfig {
        lang: Language::Auto,
        operator: Operator::Tn,
        fix_contractions: false,
        traditional_to_simple: false,
        full_to_half: false,
        remove_interjections: false,
        remove_puncts: false,
        tag_oov: false,
        enable_0_to_9: false,
        remove_erhua: false,
    }
}

impl NormalizerConfig {
    /// The default options (see [`default_config`]).
    pub fn new() -> (config: Self)
        ensures
            config == default_config(),
    {
        NormalizerConfig {
            lang: Language::Auto,
            operator: Operator::Tn,
            fix_contractions: false,
            traditional_to_simple: false,
            full_to_half: false,
            remove_interjections: false,
            remove_puncts: false,
            tag_oov: false,
            enable_0_to_9: false,
            remove_erhua: false,
        }
    }

    /// The same options with the language set to `lang`.
    pub fn with_lang(self, lang: Language) -> (config: Self)
        ensures
            config == (NormalizerConfig { lang, ..self }),
    {
        NormalizerConfig { lang, ..self }
    }

    /// The same options with the operator set to `operator`.
    pub fn with_operator(self, operator: Operator) -> (config: Self)
        ensures
            config == (NormalizerConfig { operator, ..self }),
    {
        NormalizerConfig { operator, ..self }
    }

    /// The same options with contraction expansion switched to `enabled`.
    pub fn with_fix_contractions(self, enabled: bool) -> (config: Self)
        ensures
            config == (NormalizerConfig { fix_contractions: enabled, ..self }),
    {
        NormalizerConfig { fix_contractions: enabled, ..self }
    }
}

impl Default for NormalizerConfig {
    fn default() -> (config: Self)
        ensures
            config == default_config(),
    {
        NormalizerConfig::new()
    }
}

} // verus!

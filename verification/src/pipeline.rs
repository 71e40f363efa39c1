use vstd::prelude::*;

use crate::config::{Language, NormalizerConfig, Operator};
use crate::contractions::{expand_contractions, fix_contractions, lemma_expand_padded};
use crate::error::{outcome_of, ErrorView, Outcome, WeTextError};
use crate::normalizer::{
    detected_language, erhua_simplified, erhua_traditional, has_char_where, is_ascii_digit_char,
    needs_normalization, needs_normalization_of, Normalizer,
};
use crate::text::{
    contains_char, lemma_trim, lemma_trim_chars, lemma_trim_idempotent, lemma_trim_padded,
    lemma_trim_ignores_white_space_at_ends, lemma_trim_removes_white_space, lemma_trim_split, trim,
    trim_string,
};
use crate::token_parser::{order_kind, reordered, TokenParser};

verus! {

broadcast use vstd::string::group_string_axioms;

// A normalization runs these stages on the text, in order:
//
// 1. expand English contractions, if asked and the text holds an
//    apostrophe; trim the text;
// 2. simplify traditional Chinese characters, if asked (transducer
//    `traditional_to_simple.fst`);
// 3. if the text needs normalization (see `needs_normalization`): tag it
//    with the tagger of its language, trim the tags, put the fields of each
//    token into the verbalizer's order, verbalize with the verbalizer of
//    its language, trim;
// 4. the optional final stages, each a transducer: full width to half
//    width, interjection removal, punctuation removal, out-of-vocabulary
//    tagging; then trim.
//
// The first failing stage ends the run with its error. The transducers
// themselves are not part of this crate: a run hands each transducer
// application to its driver (`Step::Apply`) and goes on with the answer
// (`Normalization::resume`).

/// What the transducers do: the output, or the failure, of applying the
/// transducer stored under a relative path to a text.
pub type Transducers = spec_fn(Seq<char>, Seq<char>) -> Outcome;

/// The name of a language, as it appears in error messages.
pub open spec fn language_name(lang: Language) -> Seq<char> {
    match lang {
        Language::Zh => "Zh"@,
        Language::En => "En"@,
        Language::Ja => "Ja"@,
        Language::Auto => "Auto"@,
    }
}

/// The tagger for a language and operator.
pub open spec fn tagger_path(lang: Language, operator: Operator, enable_0_to_9: bool) -> Result<
    Seq<char>,
    ErrorView,
> {
    match (lang, operator) {
        (Language::En, Operator::Tn) => Ok("en/tn/tagger.fst"@),
        (Language::Zh, Operator::Tn) => Ok("zh/tn/tagger.fst"@),
        (Language::Zh, Operator::Itn) => Ok(
            if enable_0_to_9 {
                "zh/itn/tagger_enable_0_to_9.fst"@
            } else {
                "zh/itn/tagger.fst"@
            },
        ),
        (Language::Ja, Operator::Tn) => Ok("ja/tn/tagger.fst"@),
        (Language::Ja, Operator::Itn) => Ok(
            if enable_0_to_9 {
                "ja/itn/tagger_enable_0_to_9.fst"@
            } else {
                "ja/itn/tagger.fst"@
            },
        ),
        _ => Err(ErrorView::InvalidLanguage(language_name(lang))),
    }
}

/// The verbalizer for a language and operator.
pub open spec fn verbalizer_path(lang: Language, operator: Operator, remove_erhua: bool) -> Result<
    Seq<char>,
    ErrorView,
> {
    match (lang, operator) {
        (Language::En, Operator::Tn) => Ok("en/tn/verbalizer.fst"@),
        (Language::Zh, Operator::Tn) => Ok(
            if remove_erhua {
                "zh/tn/verbalizer_remove_erhua.fst"@
            } else {
                "zh/tn/verbalizer.fst"@
            },
        ),
        (Language::Zh, Operator::Itn) => Ok("zh/itn/verbalizer.fst"@),
        (Language::Ja, Operator::Tn) => Ok("ja/tn/verbalizer.fst"@),
        (Language::Ja, Operator::Itn) => Ok("ja/itn/verbalizer.fst"@),
        _ => Err(ErrorView::InvalidLanguage(language_name(lang))),
    }
}

/// The transducer that simplifies traditional Chinese characters.
pub open spec fn simplify_path() -> Seq<char> {
    "traditional_to_simple.fst"@
}

/// Whether final stage `k` (0: full to half width, 1: interjections,
/// 2: punctuation, 3: out-of-vocabulary tags) is switched on.
pub open spec fn final_stage_on(config: NormalizerConfig, k: nat) -> bool {
    if k == 0 {
        config.full_to_half
    } else if k == 1 {
        config.remove_interjections
    } else if k == 2 {
        config.remove_puncts
    } else {
        config.tag_oov
    }
}

/// The transducer of final stage `k`.
pub open spec fn final_stage_path(k: nat) -> Seq<char> {
    if k == 0 {
        "full_to_half.fst"@
    } else if k == 1 {
        "remove_interjections.fst"@
    } else if k == 2 {
        "remove_puncts.fst"@
    } else {
        "tag_oov.fst"@
    }
}

/// The text after stage 1.
pub open spec fn prepared(text: Seq<char>, config: NormalizerConfig) -> Seq<char> {
    trim(
        if config.fix_contractions && text.contains('\'') {
            expand_contractions(text)
        } else {
            text
        },
    )
}

/// The language whose transducers tag and verbalize `t`: the configured
/// one, or the detected one for `Auto`; English ITN uses the Chinese
/// transducers, as there are no English ITN transducers.
pub open spec fn working_language(config: NormalizerConfig, t: Seq<char>) -> Language {
    let lang = if config.lang == Language::Auto {
        detected_language(t)
    } else {
        config.lang
    };
    if lang == Language::En && config.operator == Operator::Itn {
        Language::Zh
    } else {
        lang
    }
}

/// Final stages `k` and on, on `t`, then the trim.
pub open spec fn finished(config: NormalizerConfig, k: nat, t: Seq<char>, fst: Transducers) -> Outcome
    decreases 4 - k,
{
    if k >= 4 {
        Ok(trim(t))
    } else if final_stage_on(config, k) {
        match fst(final_stage_path(k), t) {
            Err(e) => Err(e),
            Ok(r) => finished(config, k + 1, r, fst),
        }
    } else {
        finished(config, k + 1, t, fst)
    }
}

/// Stage 3 from the tagger's output `tagged` on, then stage 4.
pub open spec fn verbalized(config: NormalizerConfig, lang: Language, tagged: Seq<char>, fst: Transducers) -> Outcome {
    match reordered(order_kind(lang, config.operator), trim(tagged)) {
        Err(e) => Err(e),
        Ok(tokens) => match verbalizer_path(lang, config.operator, config.remove_erhua) {
            Err(e) => Err(e),
            Ok(p) => match fst(p, tokens) {
                Err(e) => Err(e),
                Ok(v) => finished(config, 0, trim(v), fst),
            },
        },
    }
}

/// Stages 3 and 4 on `t`.
pub open spec fn from_stage_three(config: NormalizerConfig, t: Seq<char>, fst: Transducers) -> Outcome {
    if needs_normalization(t, config.operator, config.remove_erhua) {
        let lang = working_language(config, t);
        match tagger_path(lang, config.operator, config.enable_0_to_9) {
            Err(e) => Err(e),
            Ok(p) => match fst(p, t) {
                Err(e) => Err(e),
                Ok(tagged) => verbalized(config, lang, tagged, fst),
            },
        }
    } else {
        finished(config, 0, t, fst)
    }
}

/// The result of normalizing `text` under `config` with the transducers
/// `fst`.
pub open spec fn normalized(text: Seq<char>, config: NormalizerConfig, fst: Transducers) -> Outcome {
    let t = prepared(text, config);
    if config.traditional_to_simple {
        match fst(simplify_path(), t) {
            Err(e) => Err(e),
            Ok(s) => from_stage_three(config, s, fst),
        }
    } else {
        from_stage_three(config, t, fst)
    }
}

/// The stage whose transducer a run waits for.
#[derive(Clone, Copy, Debug, PartialEq, Eq, Structural)]
pub enum Stage {
    Simplify,
    Tag,
    Verbalize,
    FullToHalf,
    RemoveInterjections,
    RemovePuncts,
    TagOov,
}

/// The number of a final stage.
pub open spec fn final_stage_number(stage: Stage) -> nat {
    match stage {
        Stage::FullToHalf => 0,
        Stage::RemoveInterjections => 1,
        Stage::RemovePuncts => 2,
        _ => 3,
    }
}

/// The place of a stage in the pipeline.
pub open spec fn stage_rank(stage: Stage) -> nat {
    match stage {
        Stage::Simplify => 0,
        Stage::Tag => 1,
        Stage::Verbalize => 2,
        Stage::FullToHalf => 3,
        Stage::RemoveInterjections => 4,
        Stage::RemovePuncts => 5,
        Stage::TagOov => 6,
    }
}

/// A step that asks for a transducer asks for one of a stage after the
/// `rank`-th: stages only go forward, so a run asks for at most seven
/// transducer applications.
pub open spec fn asks_after(step: Step, rank: int) -> bool {
    step matches Step::Apply { run, .. } ==> stage_rank(run.stage) > rank
}

/// A normalization in progress, waiting for the output of a transducer.
pub struct Normalization {
    /// The configuration of the run.
    pub config: NormalizerConfig,
    /// The language whose transducers tag and verbalize.
    pub lang: Language,
    /// The stage whose transducer the run waits for.
    pub stage: Stage,
}

/// What a run asks for next.
pub enum Step {
    /// Apply the transducer stored under the relative path `fst` to `input`,
    /// and resume `run` with the result.
    Apply { run: Normalization, fst: String, input: String },
    /// The run is over, with this result.
    Finished(Result<String, WeTextError>),
}

impl Normalization {
    /// The result of the run if the transducer it waits for answers `out`
    /// and the later ones answer as `fst` does.
    pub open spec fn rest(&self, out: Outcome, fst: Transducers) -> Outcome {
        match out {
            Err(e) => Err(e),
            Ok(t) => match self.stage {
                Stage::Simplify => from_stage_three(self.config, t, fst),
                Stage::Tag => verbalized(self.config, self.lang, t, fst),
                Stage::Verbalize => finished(self.config, 0, trim(t), fst),
                _ => finished(self.config, final_stage_number(self.stage) + 1, t, fst),
            },
        }
    }
}

impl Step {
    /// The result that this step leads to if every transducer answers as
    /// `fst` does.
    pub open spec fn result(self, fst: Transducers) -> Outcome {
        match self {
            Step::Finished(r) => outcome_of(r),
            Step::Apply { run, fst: path, input } => run.rest(fst(path@, input@), fst),
        }
    }
}

/// The name of `lang` in error messages (see [`language_name`]).
fn language_name_of(lang: Language) -> (s: String)
    ensures
        s@ == language_name(lang),
{
    match lang {
        Language::Zh => "Zh".to_string(),
        Language::En => "En".to_string(),
        Language::Ja => "Ja".to_string(),
        Language::Auto => "Auto".to_string(),
    }
}

/// The relative path of the tagger for `lang` and `operator` (see
/// [`tagger_path`]).
pub fn tagger_fst(lang: Language, operator: Operator, enable_0_to_9: bool) -> (r: Result<
    String,
    WeTextError,
>)
    ensures
        outcome_of(r) == tagger_path(lang, operator, enable_0_to_9),
{
    match (lang, operator) {
        (Language::En, Operator::Tn) => Ok("en/tn/tagger.fst".to_string()),
        (Language::Zh, Operator::Tn) => Ok("zh/tn/tagger.fst".to_string()),
        (Language::Zh, Operator::Itn) => {
            if enable_0_to_9 {
                Ok("zh/itn/tagger_enable_0_to_9.fst".to_string())
            } else {
                Ok("zh/itn/tagger.fst".to_string())
            }
        },
        (Language::Ja, Operator::Tn) => Ok("ja/tn/tagger.fst".to_string()),
        (Language::Ja, Operator::Itn) => {
            if enable_0_to_9 {
                Ok("ja/itn/tagger_enable_0_to_9.fst".to_string())
            } else {
                Ok("ja/itn/tagger.fst".to_string())
            }
        },
        _ => Err(WeTextError::InvalidLanguage(language_name_of(lang))),
    }
}

/// The relative path of the verbalizer for `lang` and `operator` (see
/// [`verbalizer_path`]).
pub fn verbalizer_fst(lang: Language, operator: Operator, remove_erhua: bool) -> (r: Result<
    String,
    WeTextError,
>)
    ensures
        outcome_of(r) == verbalizer_path(lang, operator, remove_erhua),
{
    match (lang, operator) {
        (Language::En, Operator::Tn) => Ok("en/tn/verbalizer.fst".to_string()),
        (Language::Zh, Operator::Tn) => {
            if remove_erhua {
                Ok("zh/tn/verbalizer_remove_erhua.fst".to_string())
            } else {
                Ok("zh/tn/verbalizer.fst".to_string())
            }
        },
        (Language::Zh, Operator::Itn) => Ok("zh/itn/verbalizer.fst".to_string()),
        (Language::Ja, Operator::Tn) => Ok("ja/tn/verbalizer.fst".to_string()),
        (Language::Ja, Operator::Itn) => Ok("ja/itn/verbalizer.fst".to_string()),
        _ => Err(WeTextError::InvalidLanguage(language_name_of(lang))),
    }
}

/// Whether final stage `k` is on (see [`final_stage_on`]).
fn final_stage_is_on(config: NormalizerConfig, k: usize) -> (r: bool)
    ensures
        r == final_stage_on(config, k as nat),
{
    if k == 0 {
        config.full_to_half
    } else if k == 1 {
        config.remove_interjections
    } else if k == 2 {
        config.remove_puncts
    } else {
        config.tag_oov
    }
}

/// The stage and the transducer of final stage `k`.
fn final_stage(k: usize) -> (r: (Stage, String))
    requires
        k < 4,
    ensures
        final_stage_number(r.0) == k,
        stage_rank(r.0) == k + 3,
        r.0 != Stage::Simplify && r.0 != Stage::Tag && r.0 != Stage::Verbalize,
        r.1@ == final_stage_path(k as nat),
{
    if k == 0 {
        (Stage::FullToHalf, "full_to_half.fst".to_string())
    } else if k == 1 {
        (Stage::RemoveInterjections, "remove_interjections.fst".to_string())
    } else if k == 2 {
        (Stage::RemovePuncts, "remove_puncts.fst".to_string())
    } else {
        (Stage::TagOov, "tag_oov.fst".to_string())
    }
}

/// The step that runs final stages `k` and on on `t`.
fn final_step(config: NormalizerConfig, k: usize, t: String) -> (step: Step)
    requires
        k <= 4,
    ensures
        forall|fst: Transducers| #[trigger] step.result(fst) == finished(config, k as nat, t@, fst),
        asks_after(step, k + 2),
{
    let mut j = k;
    while j < 4 && !final_stage_is_on(config, j)
        invariant
            k <= j <= 4,
            forall|fst: Transducers| #[trigger]
                finished(config, k as nat, t@, fst) == finished(config, j as nat, t@, fst),
        decreases 4 - j,
    {
        j = j + 1;
    }
    if j >= 4 {
        Step::Finished(Ok(trim_string(t.as_str())))
    } else {
        let (stage, path) = final_stage(j);
        let run = Normalization { config, lang: config.lang, stage };
        Step::Apply { run, fst: path, input: t }
    }
}

/// The step that reorders and verbalizes the tagger's output `tagged`.
fn verbalize_step(config: NormalizerConfig, lang: Language, tagged: String) -> (step: Step)
    ensures
        forall|fst: Transducers| #[trigger] step.result(fst) == verbalized(config, lang, tagged@, fst),
        asks_after(step, 1),
{
    let t = trim_string(tagged.as_str());
    let parser = TokenParser::new(lang, config.operator);
    match parser.reorder(t.as_str()) {
        Err(e) => Step::Finished(Err(e)),
        Ok(tokens) => match verbalizer_fst(lang, config.operator, config.remove_erhua) {
            Err(e) => Step::Finished(Err(e)),
            Ok(path) => {
                let run = Normalization { config, lang, stage: Stage::Verbalize };
                Step::Apply { run, fst: path, input: tokens }
            },
        },
    }
}

/// The step that runs stages 3 and 4 on `t`.
fn stage_three_step(config: NormalizerConfig, t: String) -> (step: Step)
    ensures
        forall|fst: Transducers| #[trigger] step.result(fst) == from_stage_three(config, t@, fst),
        asks_after(step, 0),
{
    if needs_normalization_of(t.as_str(), config.operator, config.remove_erhua) {
        let detected = if config.lang == Language::Auto {
            Normalizer::detect_language(t.as_str())
        } else {
            config.lang
        };
        let lang = if detected == Language::En && config.operator == Operator::Itn {
            Language::Zh
        } else {
            detected
        };
        match tagger_fst(lang, config.operator, config.enable_0_to_9) {
            Err(e) => Step::Finished(Err(e)),
            Ok(path) => {
                let run = Normalization { config, lang, stage: Stage::Tag };
                Step::Apply { run, fst: path, input: t }
            },
        }
    } else {
        final_step(config, 0, t)
    }
}

impl Normalization {
    /// Starts normalizing `text` under `config`: the first step of the run.
    pub fn start(text: &str, config: NormalizerConfig) -> (step: Step)
        ensures
            forall|fst: Transducers| #[trigger] step.result(fst) == normalized(text@, config, fst),
            asks_after(step, -1),
    {
        let expanded = if config.fix_contractions && contains_char(text, '\'') {
            fix_contractions(text)
        } else {
            text.to_string()
        };
        let t = trim_string(expanded.as_str());
        if config.traditional_to_simple {
            let run = Normalization { config, lang: config.lang, stage: Stage::Simplify };
            Step::Apply { run, fst: "traditional_to_simple.fst".to_string(), input: t }
        } else {
            stage_three_step(config, t)
        }
    }

    /// Goes on with the run, given what the transducer it waited for gave.
    pub fn resume(self, output: Result<String, WeTextError>) -> (step: Step)
        ensures
            forall|fst: Transducers| #[trigger] step.result(fst) == self.rest(outcome_of(output), fst),
            asks_after(step, stage_rank(self.stage) as int),
    {
        match output {
            Err(e) => Step::Finished(Err(e)),
            Ok(t) => match self.stage {
                Stage::Simplify => stage_three_step(self.config, t),
                Stage::Tag => verbalize_step(self.config, self.lang, t),
                Stage::Verbalize => final_step(self.config, 0, trim_string(t.as_str())),
                Stage::FullToHalf => final_step(self.config, 1, t),
                Stage::RemoveInterjections => final_step(self.config, 2, t),
                Stage::RemovePuncts => final_step(self.config, 3, t),
                Stage::TagOov => final_step(self.config, 4, t),
            },
        }
    }
}

/// The final stages end with a trim.
proof fn lemma_finished_trimmed(config: NormalizerConfig, k: nat, t: Seq<char>, fst: Transducers)
    ensures
        finished(config, k, t, fst) matches Ok(r) ==> trim(r) == r,
    decreases 4 - k,
{
    if k >= 4 {
        lemma_trim_idempotent(t);
    } else if final_stage_on(config, k) {
        if let Ok(r) = fst(final_stage_path(k), t) {
            lemma_finished_trimmed(config, k + 1, r, fst);
        }
    } else {
        lemma_finished_trimmed(config, k + 1, t, fst);
    }
}

/// With the final stages off, they only trim.
proof fn lemma_finished_off(config: NormalizerConfig, k: nat, t: Seq<char>, fst: Transducers)
    requires
        !config.full_to_half,
        !config.remove_interjections,
        !config.remove_puncts,
        !config.tag_oov,
    ensures
        finished(config, k, t, fst) == Ok::<Seq<char>, ErrorView>(trim(t)),
    decreases 4 - k,
{
    if k < 4 {
        lemma_finished_off(config, k + 1, t, fst);
    }
}

/// A normalized text never starts or ends with white space: whatever the
/// transducers give, a successful run ends with a trim.
pub proof fn lemma_normalized_is_trimmed(text: Seq<char>, config: NormalizerConfig, fst: Transducers)
    ensures
        normalized(text, config, fst) matches Ok(r) ==> trim(r) == r,
{
    let t = prepared(text, config);
    let s = if config.traditional_to_simple {
        match fst(simplify_path(), t) {
            Ok(s) => s,
            Err(_) => t,
        }
    } else {
        t
    };
    lemma_finished_trimmed(config, 0, s, fst);
    if needs_normalization(s, config.operator, config.remove_erhua) {
        let lang = working_language(config, s);
        if let Ok(p) = tagger_path(lang, config.operator, config.enable_0_to_9) {
            if let Ok(tagged) = fst(p, s) {
                if let Ok(tokens) = reordered(order_kind(lang, config.operator), trim(tagged)) {
                    if let Ok(vp) = verbalizer_path(lang, config.operator, config.remove_erhua) {
                        if let Ok(v) = fst(vp, tokens) {
                            lemma_finished_trimmed(config, 0, trim(v), fst);
                        }
                    }
                }
            }
        }
    }
}

/// White space around the text does not change its normalization.
pub proof fn lemma_surrounding_space_ignored(text: Seq<char>, config: NormalizerConfig, fst: Transducers)
    ensures
        normalized(text, config, fst) == normalized(trim(text), config, fst),
{
    let (p, q) = lemma_trim_split(text);
    let m = trim(text);
    lemma_trim_idempotent(text);
    lemma_trim_chars(text, '\'');
    assert(text.contains('\'') == m.contains('\'')) by {
        if text.contains('\'') {
            let k = choose|k: int| 0 <= k < text.len() && text[k] == '\'';
            if k < p.len() {
                assert(text[k] == p[k]);
            } else if k >= p.len() + m.len() {
                assert(text[k] == q[k - p.len() - m.len()]);
            } else {
                assert(text[k] == m[k - p.len()]);
            }
        }
    }
    if config.fix_contractions && text.contains('\'') {
        lemma_expand_padded(p, m, q);
        lemma_trim_padded(p, expand_contractions(m), q);
    }
    assert(prepared(text, config) == prepared(m, config));
}

/// Text that needs no normalization once prepared (contractions expanded,
/// trimmed), run with every optional transducer stage off, comes back as
/// prepared, whatever the transducers do: no transducer runs.
pub proof fn lemma_nothing_to_normalize(text: Seq<char>, config: NormalizerConfig, fst: Transducers)
    requires
        !config.traditional_to_simple,
        !config.full_to_half,
        !config.remove_interjections,
        !config.remove_puncts,
        !config.tag_oov,
        !needs_normalization(prepared(text, config), config.operator, config.remove_erhua),
    ensures
        normalized(text, config, fst) == Ok::<Seq<char>, ErrorView>(prepared(text, config)),
{
    let t = if config.fix_contractions && text.contains('\'') {
        expand_contractions(text)
    } else {
        text
    };
    lemma_finished_off(config, 0, prepared(text, config), fst);
    lemma_trim_idempotent(t);
}

/// TN leaves text without digits as it is, apart from the surrounding
/// white space, when no optional stage changes it (and erhua is kept, or
/// the text has none).
pub proof fn lemma_tn_without_digits_unchanged(text: Seq<char>, config: NormalizerConfig, fst: Transducers)
    requires
        config.operator == Operator::Tn,
        config.fix_contractions ==> expand_contractions(text) == text,
        !config.traditional_to_simple,
        !config.full_to_half,
        !config.remove_interjections,
        !config.remove_puncts,
        !config.tag_oov,
        !has_char_where(text, |c: char| is_ascii_digit_char(c)),
        config.remove_erhua ==> !text.contains(erhua_simplified()) && !text.contains(erhua_traditional()),
    ensures
        normalized(text, config, fst) == Ok::<Seq<char>, ErrorView>(trim(text)),
{
    let (a, b) = lemma_trim(text);
    let t = trim(text);
    assert(prepared(text, config) == t);
    if has_char_where(t, |c: char| is_ascii_digit_char(c)) {
        let i = choose|i: int| 0 <= i < t.len() && is_ascii_digit_char(#[trigger] t[i]);
        assert(t[i] == text[a + i]);
        assert(is_ascii_digit_char(text[a + i]));
    }
    lemma_trim_chars(text, erhua_simplified());
    lemma_trim_chars(text, erhua_traditional());
    lemma_nothing_to_normalize(text, config, fst);
}

/// `t`, then the transducer `path` if `on`; a failure stays a failure.
pub open spec fn then_if(r: Outcome, on: bool, path: Seq<char>, fst: Transducers) -> Outcome {
    match r {
        Err(e) => Err(e),
        Ok(t) => if on {
            fst(path, t)
        } else {
            Ok(t)
        },
    }
}

/// The final stages of a run, as the options name them: full to half width
/// if `full_to_half`, then interjection removal if `remove_interjections`,
/// then punctuation removal if `remove_puncts`, then out-of-vocabulary
/// tagging if `tag_oov`, each by its transducer, and a trim at the end.
pub open spec fn final_chain(config: NormalizerConfig, t: Seq<char>, fst: Transducers) -> Outcome {
    let r = then_if(
        then_if(
            then_if(
                then_if(Ok(t), config.full_to_half, "full_to_half.fst"@, fst),
                config.remove_interjections,
                "remove_interjections.fst"@,
                fst,
            ),
            config.remove_puncts,
            "remove_puncts.fst"@,
            fst,
        ),
        config.tag_oov,
        "tag_oov.fst"@,
        fst,
    );
    match r {
        Err(e) => Err(e),
        Ok(v) => Ok(trim(v)),
    }
}

/// The final stages from stage `k` on, given what the stages before gave.
spec fn finished_after(config: NormalizerConfig, k: nat, r: Outcome, fst: Transducers) -> Outcome {
    match r {
        Err(e) => Err(e),
        Ok(t) => finished(config, k, t, fst),
    }
}

proof fn lemma_finished_step(config: NormalizerConfig, k: nat, r: Outcome, fst: Transducers)
    requires
        k < 4,
    ensures
        finished_after(config, k, r, fst) == finished_after(
            config,
            k + 1,
            then_if(r, final_stage_on(config, k), final_stage_path(k), fst),
            fst,
        ),
{
}

/// The final stages run the switched-on transducers in the order of the
/// options, each on what the one before gave, and stop at the first
/// failure; a successful run ends with a trim.
pub proof fn lemma_final_stages_in_order(config: NormalizerConfig, t: Seq<char>, fst: Transducers)
    ensures
        finished(config, 0, t, fst) == final_chain(config, t, fst),
{
    let r0 = Ok::<Seq<char>, ErrorView>(t);
    lemma_finished_step(config, 0, r0, fst);
    let r1 = then_if(r0, final_stage_on(config, 0), final_stage_path(0), fst);
    lemma_finished_step(config, 1, r1, fst);
    let r2 = then_if(r1, final_stage_on(config, 1), final_stage_path(1), fst);
    lemma_finished_step(config, 2, r2, fst);
    let r3 = then_if(r2, final_stage_on(config, 2), final_stage_path(2), fst);
    lemma_finished_step(config, 3, r3, fst);
    let r4 = then_if(r3, final_stage_on(config, 3), final_stage_path(3), fst);
    assert(finished_after(config, 4, r4, fst) == match r4 {
        Err(e) => Err(e),
        Ok(v) => Ok::<Seq<char>, ErrorView>(trim(v)),
    });
}

/// A text that needs no tagging (and is not simplified) goes straight to
/// the final stages: its result is [`final_chain`] of the prepared text.
/// With only `full_to_half` on, for example, the one transducer asked for is
/// `full_to_half.fst`.
pub proof fn lemma_only_final_stages(text: Seq<char>, config: NormalizerConfig, fst: Transducers)
    requires
        !config.traditional_to_simple,
        !needs_normalization(prepared(text, config), config.operator, config.remove_erhua),
    ensures
        normalized(text, config, fst) == final_chain(config, prepared(text, config), fst),
{
    lemma_final_stages_in_order(config, prepared(text, config), fst);
}

/// The directory of a language's transducers.
pub open spec fn language_dir(lang: Language) -> Seq<char> {
    match lang {
        Language::Zh => "zh"@,
        Language::En => "en"@,
        Language::Ja => "ja"@,
        Language::Auto => "auto"@,
    }
}

/// The directory of an operator's transducers, inside a language's.
pub open spec fn operator_dir(operator: Operator) -> Seq<char> {
    match operator {
        Operator::Tn => "tn"@,
        Operator::Itn => "itn"@,
    }
}

/// Where the tagger and the verbalizer of a language and operator lie:
/// both in `lang/op/`; the tagger is `tagger.fst`, or for ITN with
/// `enable_0_to_9` (Chinese and Japanese alike) `tagger_enable_0_to_9.fst`;
/// the verbalizer is `verbalizer.fst`, or for Chinese TN with erhua removal
/// `verbalizer_remove_erhua.fst`. The options change nothing else.
pub proof fn lemma_transducer_paths(
    lang: Language,
    operator: Operator,
    enable_0_to_9: bool,
    remove_erhua: bool,
)
    requires
        lang != Language::Auto,
        !(lang == Language::En && operator == Operator::Itn),
    ensures
        tagger_path(lang, operator, enable_0_to_9) == Ok::<Seq<char>, ErrorView>(
            language_dir(lang) + "/"@ + operator_dir(operator) + "/"@ + if operator == Operator::Itn
                && enable_0_to_9 {
                "tagger_enable_0_to_9.fst"@
            } else {
                "tagger.fst"@
            },
        ),
        verbalizer_path(lang, operator, remove_erhua) == Ok::<Seq<char>, ErrorView>(
            language_dir(lang) + "/"@ + operator_dir(operator) + "/"@ + if lang == Language::Zh
                && operator == Operator::Tn && remove_erhua {
                "verbalizer_remove_erhua.fst"@
            } else {
                "verbalizer.fst"@
            },
        ),
{
    reveal_strlit("zh");
    reveal_strlit("en");
    reveal_strlit("ja");
    reveal_strlit("tn");
    reveal_strlit("itn");
    reveal_strlit("/");
    reveal_strlit("tagger.fst");
    reveal_strlit("tagger_enable_0_to_9.fst");
    reveal_strlit("verbalizer.fst");
    reveal_strlit("verbalizer_remove_erhua.fst");
    reveal_strlit("en/tn/tagger.fst");
    reveal_strlit("zh/tn/tagger.fst");
    reveal_strlit("zh/itn/tagger.fst");
    reveal_strlit("zh/itn/tagger_enable_0_to_9.fst");
    reveal_strlit("ja/tn/tagger.fst");
    reveal_strlit("ja/itn/tagger.fst");
    reveal_strlit("ja/itn/tagger_enable_0_to_9.fst");
    reveal_strlit("en/tn/verbalizer.fst");
    reveal_strlit("zh/tn/verbalizer.fst");
    reveal_strlit("zh/tn/verbalizer_remove_erhua.fst");
    reveal_strlit("zh/itn/verbalizer.fst");
    reveal_strlit("ja/tn/verbalizer.fst");
    reveal_strlit("ja/itn/verbalizer.fst");
    let dir = language_dir(lang) + "/"@ + operator_dir(operator) + "/"@;
    let tn = if operator == Operator::Itn && enable_0_to_9 {
        "tagger_enable_0_to_9.fst"@
    } else {
        "tagger.fst"@
    };
    let vn = if lang == Language::Zh && operator == Operator::Tn && remove_erhua {
        "verbalizer_remove_erhua.fst"@
    } else {
        "verbalizer.fst"@
    };
    assert(tagger_path(lang, operator, enable_0_to_9)->Ok_0 =~= dir + tn);
    assert(verbalizer_path(lang, operator, remove_erhua)->Ok_0 =~= dir + vn);
}

/// A white-space character at either end of the input changes nothing: a
/// line read with its line feed normalizes as the line does.
pub proof fn lemma_white_space_at_ends_ignored(
    c: char,
    text: Seq<char>,
    config: NormalizerConfig,
    fst: Transducers,
)
    requires
        c == '\t' || c == '\n' || c == '\u{0b}' || c == '\u{0c}' || c == '\r' || c == ' ' || c
            == '\u{85}' || c == '\u{a0}' || c == '\u{1680}' || ('\u{2000}' <= c && c <= '\u{200a}')
            || c == '\u{2028}' || c == '\u{2029}' || c == '\u{202f}' || c == '\u{205f}' || c
            == '\u{3000}',
    ensures
        normalized(text + seq![c], config, fst) == normalized(text, config, fst),
        normalized(seq![c] + text, config, fst) == normalized(text, config, fst),
{
    lemma_trim_removes_white_space(c);
    lemma_trim_ignores_white_space_at_ends(c, text, c);
    lemma_surrounding_space_ignored(text + seq![c], config, fst);
    lemma_surrounding_space_ignored(seq![c] + text, config, fst);
    lemma_surrounding_space_ignored(text, config, fst);
}

} // verus!

use vstd::prelude::*;

use crate::config::{Language, NormalizerConfig, Operator};
use crate::pipeline::{normalized, Normalization, Step, Transducers};
use crate::text::chars_of;

verus! {

/// Hiragana (U+3040 to U+309F) or katakana (U+30A0 to U+30FF).
pub open spec fn is_kana(c: char) -> bool {
    '\u{3040}' <= c <= '\u{30ff}'
}

/// A CJK unified ideograph (U+4E00 to U+9FFF).
pub open spec fn is_cjk_ideograph(c: char) -> bool {
    '\u{4e00}' <= c <= '\u{9fff}'
}

/// An ASCII digit.
pub open spec fn is_ascii_digit_char(c: char) -> bool {
    '0' <= c <= '9'
}

/// Some character of `s` satisfies `p`.
pub open spec fn has_char_where(s: Seq<char>, p: spec_fn(char) -> bool) -> bool {
    exists|i: int| 0 <= i < s.len() && p(#[trigger] s[i])
}

/// Adding `c` at the end of `s` adds `c` to what `has_char_where` looks at.
pub proof fn lemma_has_char_push(s: Seq<char>, c: char, p: spec_fn(char) -> bool)
    ensures
        has_char_where(s.push(c), p) == (has_char_where(s, p) || p(c)),
{
    if has_char_where(s, p) {
        let k = choose|k: int| 0 <= k < s.len() && p(#[trigger] s[k]);
        assert(s.push(c)[k] == s[k]);
    }
    if p(c) {
        assert(s.push(c)[s.len() as int] == c);
    }
    if has_char_where(s.push(c), p) {
        let k = choose|k: int| 0 <= k < s.push(c).len() && p(#[trigger] s.push(c)[k]);
        if k < s.len() {
            assert(s[k] == s.push(c)[k]);
        }
    }
}

/// Whether `c` has the Unicode `Alphabetic` property, as `char::is_alphabetic`
/// reports it (letters of every script, ideographs among them).
pub uninterp spec fn is_unicode_alphabetic(c: char) -> bool;

/// Calls `char::is_alphabetic`, whose result is taken on trust to be the
/// Unicode `Alphabetic` property of `c`. Among ASCII characters that
/// property holds of the letters alone; beyond ASCII it is not spelled out
/// here.
#[verifier::external_body]
fn is_alphabetic(c: char) -> (r: bool)
    ensures
        r == is_unicode_alphabetic(c),
        c <= '\u{7f}' ==> (r <==> ('a' <= c <= 'z' || 'A' <= c <= 'Z')),
{
    c.is_alphabetic()
}

/// Whether `c` is numeric in Unicode (general category `Nd`, `Nl` or `No`),
/// as `char::is_numeric` reports it.
pub uninterp spec fn is_unicode_numeric(c: char) -> bool;

/// Calls `char::is_numeric`, whose result is taken on trust to be whether
/// `c` is in the Unicode categories `Nd`, `Nl` or `No`. Among ASCII
/// characters those are the digits alone; beyond ASCII they are not spelled
/// out here.
#[verifier::external_body]
fn is_numeric(c: char) -> (r: bool)
    ensures
        r == is_unicode_numeric(c),
        c <= '\u{7f}' ==> (r <==> '0' <= c <= '9'),
{
    c.is_numeric()
}

/// Han characters outside U+4E00 to U+9FFF and Chinese phonetic letters:
/// the iteration and ideographic marks 々 〆 〇 (U+3005 to U+3007),
/// Bopomofo (U+3100 to U+312F, U+31A0 to U+31BF), CJK extension A
/// (U+3400 to U+4DBF), compatibility ideographs (U+F900 to U+FAFF) and the
/// supplementary ideographs (U+20000 to U+323AF). Text made of these counts
/// as Chinese, not as letters of an alphabet.
pub open spec fn is_other_han(c: char) -> bool {
    ||| '\u{3005}' <= c <= '\u{3007}'
    ||| '\u{3100}' <= c <= '\u{312f}'
    ||| '\u{31a0}' <= c <= '\u{31bf}'
    ||| '\u{3400}' <= c <= '\u{4dbf}'
    ||| '\u{f900}' <= c <= '\u{faff}'
    ||| '\u{20000}' <= c <= '\u{323af}'
}

/// A letter of an alphabet, whose presence makes text that holds neither
/// kana nor CJK ideographs English: an ASCII letter, or beyond ASCII a
/// character with the Unicode `Alphabetic` property that is not numeric
/// (such as the Roman numeral Ⅻ) and not one of [`is_other_han`]. Digits,
/// punctuation and symbols are no letters.
pub open spec fn is_letter(c: char) -> bool {
    if c <= '\u{7f}' {
        ('a' <= c <= 'z') || ('A' <= c <= 'Z')
    } else {
        is_unicode_alphabetic(c) && !is_unicode_numeric(c) && !is_other_han(c)
    }
}

/// Executable form of [`is_letter`].
fn is_letter_char(c: char) -> (r: bool)
    ensures
        r == is_letter(c),
{
    let alphabetic = is_alphabetic(c);
    let numeric = is_numeric(c);
    let other_han = ('\u{3005}' <= c && c <= '\u{3007}') || ('\u{3100}' <= c && c <= '\u{312f}')
        || ('\u{31a0}' <= c && c <= '\u{31bf}') || ('\u{3400}' <= c && c <= '\u{4dbf}') || (
    '\u{f900}' <= c && c <= '\u{faff}') || ('\u{20000}' <= c && c <= '\u{323af}');
    alphabetic && !numeric && !other_han
}

/// The language that detection assigns to `s`, where `letters[i]` says
/// whether `s[i]` is a letter: Japanese if `s` holds kana, else Chinese if
/// it holds a CJK ideograph, else Chinese if it is not empty and holds no
/// letter (digits, punctuation, symbols only), else English.
pub open spec fn language_given(s: Seq<char>, letters: Seq<bool>) -> Language {
    if has_char_where(s, |c: char| is_kana(c)) {
        Language::Ja
    } else if has_char_where(s, |c: char| is_cjk_ideograph(c)) {
        Language::Zh
    } else if s.len() > 0 && !(exists|i: int| 0 <= i < s.len() && #[trigger] letters[i]) {
        Language::Zh
    } else {
        Language::En
    }
}

/// The language that detection assigns to `s` (see [`language_given`] and
/// [`is_letter`]).
pub open spec fn detected_language(s: Seq<char>) -> Language {
    language_given(s, s.map_values(|c: char| is_letter(c)))
}

/// 儿, the erhua suffix.
pub open spec fn erhua_simplified() -> char {
    '\u{513f}'
}

/// 兒, the traditional form of 儿.
pub open spec fn erhua_traditional() -> char {
    '\u{5152}'
}

/// Whether the tagging and verbalizing stages run on `s`: for TN, when `s`
/// holds an ASCII digit, or when erhua is to be removed and `s` holds 儿 or
/// 兒; for ITN, when `s` is not empty.
pub open spec fn needs_normalization(s: Seq<char>, operator: Operator, remove_erhua: bool) -> bool {
    match operator {
        Operator::Tn => {
            ||| has_char_where(s, |c: char| is_ascii_digit_char(c))
            ||| remove_erhua && (s.contains(erhua_simplified()) || s.contains(erhua_traditional()))
        },
        Operator::Itn => s.len() > 0,
    }
}

/// Whether `v` holds an ASCII digit.
fn has_ascii_digit(v: &[char]) -> (r: bool)
    ensures
        r == has_char_where(v@, |c: char| is_ascii_digit_char(c)),
{
    let n = v.len();
    for i in 0..n
        invariant
            n == v@.len(),
            !has_char_where(v@.take(i as int), |c: char| is_ascii_digit_char(c)),
    {
        proof {
            assert(v@.take(i + 1) =~= v@.take(i as int).push(v@[i as int]));
            lemma_has_char_push(v@.take(i as int), v@[i as int], |c: char| is_ascii_digit_char(c));
        }
        if '0' <= v[i] && v[i] <= '9' {
            assert(v@[i as int] == v[i as int]);
            return true;
        }
    }
    assert(v@.take(n as int) =~= v@);
    false
}

/// Whether `v` holds the character `c`.
fn has_char(v: &[char], c: char) -> (r: bool)
    ensures
        r == v@.contains(c),
{
    let n = v.len();
    for i in 0..n
        invariant
            n == v@.len(),
            forall|k: int| 0 <= k < i ==> v@[k] != c,
    {
        if v[i] == c {
            assert(v@[i as int] == c);
            return true;
        }
    }
    false
}

/// Executable form of [`needs_normalization`].
pub(crate) fn needs_normalization_of(text: &str, operator: Operator, remove_erhua: bool) -> (r: bool)
    ensures
        r == needs_normalization(text@, operator, remove_erhua),
{
    let v = chars_of(text);
    match operator {
        Operator::Tn => {
            if has_ascii_digit(v.as_slice()) {
                return true;
            }
            if remove_erhua && (has_char(v.as_slice(), '\u{513f}') || has_char(
                v.as_slice(),
                '\u{5152}',
            )) {
                return true;
            }
            false
        },
        Operator::Itn => v.len() > 0,
    }
}

/// Every ASCII letter, upper or lower case, is a letter; no ASCII digit,
/// space, punctuation mark or control character is.
pub proof fn lemma_ascii_letters(c: char)
    ensures
        c <= '\u{7f}' ==> (is_letter(c) <==> (('a' <= c && c <= 'z') || ('A' <= c && c <= 'Z'))),
{
}

/// Detection on ASCII text: English as soon as the text holds a letter of
/// either case, Chinese for non-empty text of digits, spaces, punctuation
/// and symbols only, English for the empty text.
pub proof fn lemma_ascii_text_detection(s: Seq<char>)
    requires
        forall|i: int| 0 <= i < s.len() ==> #[trigger] s[i] <= '\u{7f}',
    ensures
        detected_language(s) == if exists|i: int|
            0 <= i < s.len() && (('a' <= #[trigger] s[i] && s[i] <= 'z') || ('A' <= s[i] && s[i]
                <= 'Z')) {
            Language::En
        } else if s.len() > 0 {
            Language::Zh
        } else {
            Language::En
        },
{
    let letters = s.map_values(|c: char| is_letter(c));
    if has_char_where(s, |c: char| is_kana(c)) {
        let i = choose|i: int| 0 <= i < s.len() && is_kana(#[trigger] s[i]);
        assert(s[i] <= '\u{7f}');
    }
    if has_char_where(s, |c: char| is_cjk_ideograph(c)) {
        let i = choose|i: int| 0 <= i < s.len() && is_cjk_ideograph(#[trigger] s[i]);
        assert(s[i] <= '\u{7f}');
    }
    if exists|i: int| 0 <= i < s.len() && (('a' <= #[trigger] s[i] && s[i] <= 'z') || ('A' <= s[i]
        && s[i] <= 'Z')) {
        let i = choose|i: int|
            0 <= i < s.len() && (('a' <= #[trigger] s[i] && s[i] <= 'z') || ('A' <= s[i] && s[i]
                <= 'Z'));
        assert(letters[i]);
    } else {
        assert forall|i: int| 0 <= i < s.len() implies !#[trigger] letters[i] by {
            assert(s[i] <= '\u{7f}');
        }
    }
}

/// Detection looks at kana first and at ideographs next: a text holding
/// hiragana or katakana (U+3040 to U+30FF) is Japanese whatever else it
/// holds; one without kana that holds a CJK unified ideograph (U+4E00 to
/// U+9FFF) is Chinese whatever else it holds.
pub proof fn lemma_detection_priority(s: Seq<char>)
    ensures
        (exists|i: int| 0 <= i < s.len() && '\u{3040}' <= #[trigger] s[i] && s[i] <= '\u{30ff}')
            ==> detected_language(s) == Language::Ja,
        !(exists|i: int| 0 <= i < s.len() && '\u{3040}' <= #[trigger] s[i] && s[i] <= '\u{30ff}')
            && (exists|i: int| 0 <= i < s.len() && '\u{4e00}' <= #[trigger] s[i] && s[i]
            <= '\u{9fff}') ==> detected_language(s) == Language::Zh,
{
    if exists|i: int| 0 <= i < s.len() && '\u{3040}' <= #[trigger] s[i] && s[i] <= '\u{30ff}' {
        let i = choose|i: int| 0 <= i < s.len() && '\u{3040}' <= #[trigger] s[i] && s[i] <= '\u{30ff}';
        assert(is_kana(s[i]));
    } else {
        if has_char_where(s, |c: char| is_kana(c)) {
            let i = choose|i: int| 0 <= i < s.len() && is_kana(#[trigger] s[i]);
            assert('\u{3040}' <= s[i] && s[i] <= '\u{30ff}');
        }
        if exists|i: int| 0 <= i < s.len() && '\u{4e00}' <= #[trigger] s[i] && s[i] <= '\u{9fff}' {
            let i = choose|i: int|
                0 <= i < s.len() && '\u{4e00}' <= #[trigger] s[i] && s[i] <= '\u{9fff}';
            assert(is_cjk_ideograph(s[i]));
        }
    }
}

/// For TN, a text that holds an ASCII digit `0` to `9` always needs
/// normalization; one that holds no digit needs it only for erhua removal
/// (when asked for and the text holds 儿 or 兒). For ITN, exactly the
/// non-empty texts need it.
pub proof fn lemma_when_normalization_is_needed(s: Seq<char>, remove_erhua: bool)
    ensures
        (exists|i: int| 0 <= i < s.len() && '0' <= #[trigger] s[i] && s[i] <= '9')
            ==> needs_normalization(s, Operator::Tn, remove_erhua),
        !(exists|i: int| 0 <= i < s.len() && '0' <= #[trigger] s[i] && s[i] <= '9') ==> (
        needs_normalization(s, Operator::Tn, remove_erhua) <==> (remove_erhua && (s.contains(
            '\u{513f}',
        ) || s.contains('\u{5152}')))),
        needs_normalization(s, Operator::Itn, remove_erhua) <==> s.len() > 0,
{
    if exists|i: int| 0 <= i < s.len() && '0' <= #[trigger] s[i] && s[i] <= '9' {
        let i = choose|i: int| 0 <= i < s.len() && '0' <= #[trigger] s[i] && s[i] <= '9';
        assert(is_ascii_digit_char(s[i]));
    } else {
        if has_char_where(s, |c: char| is_ascii_digit_char(c)) {
            let i = choose|i: int| 0 <= i < s.len() && is_ascii_digit_char(#[trigger] s[i]);
            assert('0' <= s[i] && s[i] <= '9');
        }
    }
}

/// Entry point of normalization: a configuration and the directory that
/// holds the transducer files.
pub struct Normalizer {
    config: NormalizerConfig,
    fst_dir: String,
}

impl Normalizer {
    /// The configuration of this normalizer.
    pub closed spec fn spec_config(&self) -> NormalizerConfig {
        self.config
    }

    /// The transducer directory of this normalizer.
    pub closed spec fn spec_fst_dir(&self) -> Seq<char> {
        self.fst_dir@
    }

    /// A normalizer with the given transducer directory and configuration.
    pub fn new(fst_dir: &str, config: NormalizerConfig) -> (n: Self)
        ensures
            n.spec_config() == config,
            n.spec_fst_dir() == fst_dir@,
    {
        Normalizer { config, fst_dir: fst_dir.to_string() }
    }

    /// A normalizer with the default configuration.
    pub fn with_defaults(fst_dir: &str) -> (n: Self)
        ensures
            n.spec_config() == crate::config::default_config(),
            n.spec_fst_dir() == fst_dir@,
    {
        Normalizer::new(fst_dir, NormalizerConfig::new())
    }

    /// The configuration.
    pub fn config(&self) -> (c: NormalizerConfig)
        ensures
            c == self.spec_config(),
    {
        self.config
    }

    /// The directory that holds the transducer files.
    pub fn fst_dir(&self) -> (d: &str)
        ensures
            d@ == self.spec_fst_dir(),
    {
        self.fst_dir.as_str()
    }

    /// Starts normalizing `text` with this normalizer's configuration.
    pub fn normalize(&self, text: &str) -> (step: Step)
        ensures
            forall|fst: Transducers| #[trigger] step.result(fst) == normalized(text@, self.spec_config(), fst),
            crate::pipeline::asks_after(step, -1),
    {
        self.normalize_with_config(text, &self.config)
    }

    /// Starts normalizing `text` with the configuration `config`.
    pub fn normalize_with_config(&self, text: &str, config: &NormalizerConfig) -> (step: Step)
        ensures
            forall|fst: Transducers| #[trigger] step.result(fst) == normalized(text@, *config, fst),
            crate::pipeline::asks_after(step, -1),
    {
        Normalization::start(text, *config)
    }

    /// Whether `text` goes through the tagging and verbalizing stages (see
    /// [`needs_normalization`]).
    pub fn should_normalize(&self, text: &str, operator: Operator, remove_erhua: bool) -> (r: bool)
        ensures
            r == needs_normalization(text@, operator, remove_erhua),
    {
        needs_normalization_of(text, operator, remove_erhua)
    }

    /// Detects the language of `text` (see [`detected_language`]).
    pub fn detect_language(text: &str) -> (lang: Language)
        ensures
            lang == detected_language(text@),
    {
        let v = chars_of(text);
        let n = v.len();
        let mut letters: Vec<bool> = Vec::new();
        for i in 0..n
            invariant
                n == v@.len(),
                v@ == text@,
                letters@.len() == i,
                forall|k: int| 0 <= k < i ==> #[trigger] letters@[k] == is_letter(v@[k]),
        {
            letters.push(is_letter_char(v[i]));
        }
        assert(letters@ =~= text@.map_values(|c: char| is_letter(c)));
        Normalizer::language_of(text, letters.as_slice())
    }

    /// The language of `text`, given for each of its characters whether it
    /// is a letter (see [`language_given`]).
    pub fn language_of(text: &str, letters: &[bool]) -> (lang: Language)
        requires
            letters@.len() == text@.len(),
        ensures
            lang == language_given(text@, letters@),
    {
        let v = chars_of(text);
        let n = v.len();
        let mut has_cjk = false;
        let mut has_alpha = false;
        for i in 0..n
            invariant
                n == v@.len() == letters@.len(),
                v@ == text@,
                !has_char_where(v@.take(i as int), |c: char| is_kana(c)),
                has_cjk == has_char_where(v@.take(i as int), |c: char| is_cjk_ideograph(c)),
                has_alpha == (exists|k: int| 0 <= k < i && #[trigger] letters@[k]),
        {
            let ch = v[i];
            proof {
                assert(v@.take(i + 1) =~= v@.take(i as int).push(ch));
                lemma_has_char_push(v@.take(i as int), ch, |c: char| is_kana(c));
                lemma_has_char_push(v@.take(i as int), ch, |c: char| is_cjk_ideograph(c));
            }
            if '\u{3040}' <= ch && ch <= '\u{30ff}' {
                assert(v@[i as int] == ch);
                return Language::Ja;
            }
            if '\u{4e00}' <= ch && ch <= '\u{9fff}' {
                has_cjk = true;
            }
            if letters[i] {
                has_alpha = true;
            }
        }
        assert(v@.take(n as int) =~= v@);
        if has_cjk {
            return Language::Zh;
        }
        if n > 0 && !has_alpha {
            return Language::Zh;
        }
        Language::En
    }
}

} // verus!

use std::cell::RefCell;

use wetext_rs::{
    tagger_fst, verbalizer_fst, Language, Normalization, NormalizerConfig, Operator, Step,
    WeTextError,
};

/// Runs `text` under `config`, answering each transducer application with
/// `fst`, and returns the result with the applications made, in order.
fn run<F: Fn(&str, &str) -> Result<String, WeTextError>>(
    text: &str,
    config: NormalizerConfig,
    fst: F,
) -> (Result<String, WeTextError>, Vec<(String, String)>) {
    let calls = RefCell::new(Vec::new());
    let mut step = Normalization::start(text, config);
    loop {
        match step {
            Step::Finished(result) => return (result, calls.into_inner()),
            Step::Apply { run, fst: path, input } => {
                calls.borrow_mut().push((path.clone(), input.clone()));
                step = run.resume(fst(&path, &input));
            }
        }
    }
}

/// Stand-in transducers: taggers wrap the text into a token, verbalizers
/// read its value back, with some white space around; the final stages
/// mark the text with their name.
fn fake(path: &str, input: &str) -> Result<String, WeTextError> {
    if path.ends_with("tagger.fst") || path.ends_with("tagger_enable_0_to_9.fst") {
        Ok(format!("  cardinal {{ value: \"{}\" }}  ", input))
    } else if path.contains("verbalizer") {
        let start = input.find('"').unwrap() + 1;
        let end = input.rfind('"').unwrap();
        Ok(format!(" <{}> ", &input[start..end]))
    } else {
        Ok(format!("{}|{}", input, path))
    }
}

fn paths(calls: &[(String, String)]) -> Vec<&str> {
    calls.iter().map(|(p, _)| p.as_str()).collect()
}

#[test]
fn chinese_tn_tags_reorders_and_verbalizes() {
    let (result, calls) = run("   123   ", NormalizerConfig::new(), fake);
    assert_eq!(result.unwrap(), "<123>");
    assert_eq!(
        calls,
        vec![
            ("zh/tn/tagger.fst".to_string(), "123".to_string()),
            ("zh/tn/verbalizer.fst".to_string(), "cardinal { value: \"123\" }".to_string()),
        ]
    );
}

#[test]
fn detected_languages_pick_their_transducers() {
    let (_, calls) = run("今天是2024年", NormalizerConfig::new(), fake);
    assert_eq!(paths(&calls), vec!["zh/tn/tagger.fst", "zh/tn/verbalizer.fst"]);
    let (_, calls) = run("$100 dollars", NormalizerConfig::new(), fake);
    assert_eq!(paths(&calls), vec!["en/tn/tagger.fst", "en/tn/verbalizer.fst"]);
    let (_, calls) = run("100円です", NormalizerConfig::new(), fake);
    assert_eq!(paths(&calls), vec!["ja/tn/tagger.fst", "ja/tn/verbalizer.fst"]);
}

#[test]
fn english_itn_uses_the_chinese_transducers() {
    let config = NormalizerConfig::new()
        .with_lang(Language::En)
        .with_operator(Operator::Itn);
    let (_, calls) = run("one hundred", config, fake);
    assert_eq!(paths(&calls), vec!["zh/itn/tagger.fst", "zh/itn/verbalizer.fst"]);
}

#[test]
fn itn_options_pick_their_transducers() {
    let mut config = NormalizerConfig::new()
        .with_lang(Language::Ja)
        .with_operator(Operator::Itn);
    config.enable_0_to_9 = true;
    let (_, calls) = run("いち", config, fake);
    assert_eq!(paths(&calls), vec!["ja/itn/tagger_enable_0_to_9.fst", "ja/itn/verbalizer.fst"]);
}

#[test]
fn erhua_removal_normalizes_text_with_erhua() {
    let mut config = NormalizerConfig::new().with_lang(Language::Zh);
    config.remove_erhua = true;
    let (_, calls) = run("一点儿", config, fake);
    assert_eq!(
        paths(&calls),
        vec!["zh/tn/tagger.fst", "zh/tn/verbalizer_remove_erhua.fst"]
    );
    let (result, calls) = run("一点儿", NormalizerConfig::new(), fake);
    assert_eq!(result.unwrap(), "一点儿");
    assert!(calls.is_empty());
}

#[test]
fn optional_stages_run_in_order() {
    let mut config = NormalizerConfig::new();
    config.traditional_to_simple = true;
    config.full_to_half = true;
    config.remove_interjections = true;
    config.remove_puncts = true;
    config.tag_oov = true;
    let (result, calls) = run(" 你好 ", config, fake);
    assert_eq!(
        paths(&calls),
        vec![
            "traditional_to_simple.fst",
            "full_to_half.fst",
            "remove_interjections.fst",
            "remove_puncts.fst",
            "tag_oov.fst"
        ]
    );
    assert_eq!(calls[0].1, "你好");
    assert_eq!(
        result.unwrap(),
        "你好|traditional_to_simple.fst|full_to_half.fst|remove_interjections.fst|remove_puncts.fst|tag_oov.fst"
    );
}

#[test]
fn only_switched_on_final_stages_run() {
    let mut config = NormalizerConfig::new();
    config.remove_puncts = true;
    let (result, calls) = run("ab", config, |p, i| Ok(format!("  {}{}  ", i, p.len())));
    assert_eq!(paths(&calls), vec!["remove_puncts.fst"]);
    assert_eq!(result.unwrap(), "ab17");
}

#[test]
fn a_failing_transducer_ends_the_run() {
    let failing = |path: &str, _: &str| -> Result<String, WeTextError> {
        Err(WeTextError::FstError(format!("cannot load {}", path)))
    };
    let (result, calls) = run("12", NormalizerConfig::new(), failing);
    assert_eq!(
        result.unwrap_err(),
        WeTextError::FstError("cannot load zh/tn/tagger.fst".to_string())
    );
    assert_eq!(calls.len(), 1);
}

#[test]
fn malformed_tags_end_the_run_with_a_parse_error() {
    let bad = |_: &str, _: &str| -> Result<String, WeTextError> { Ok("w { v: \"open".to_string()) };
    let (result, calls) = run("12", NormalizerConfig::new(), bad);
    assert!(matches!(result, Err(WeTextError::ParseError(_))));
    assert_eq!(calls.len(), 1);
}

#[test]
fn contractions_are_expanded_before_everything_else() {
    let config = NormalizerConfig::new()
        .with_lang(Language::En)
        .with_fix_contractions(true);
    let (_, calls) = run("  I don't have 2 ", config, fake);
    assert_eq!(calls[0].1, "I do not have 2");
    let (_, calls) = run("  I don't have 2 ", NormalizerConfig::new().with_lang(Language::En), fake);
    assert_eq!(calls[0].1, "I don't have 2");
}

#[test]
fn transducer_paths_per_language() {
    assert_eq!(tagger_fst(Language::Zh, Operator::Itn, false).unwrap(), "zh/itn/tagger.fst");
    assert_eq!(
        tagger_fst(Language::Zh, Operator::Itn, true).unwrap(),
        "zh/itn/tagger_enable_0_to_9.fst"
    );
    assert_eq!(tagger_fst(Language::Ja, Operator::Tn, true).unwrap(), "ja/tn/tagger.fst");
    assert_eq!(verbalizer_fst(Language::Ja, Operator::Itn, false).unwrap(), "ja/itn/verbalizer.fst");
    assert_eq!(
        tagger_fst(Language::En, Operator::Itn, false).unwrap_err(),
        WeTextError::InvalidLanguage("En".to_string())
    );
    assert_eq!(
        verbalizer_fst(Language::Auto, Operator::Tn, false).unwrap_err(),
        WeTextError::InvalidLanguage("Auto".to_string())
    );
}

#[test]
fn results_are_trimmed() {
    let (result, _) = run("5", NormalizerConfig::new(), fake);
    let out = result.unwrap();
    assert_eq!(out, out.trim());
}

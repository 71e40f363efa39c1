use wetext_rs::{Language, Normalizer, NormalizerConfig, Operator, Step, WeTextError};

const FST_DIR: &str = "fsts";

/// Runs a normalization to its end, answering each transducer application
/// with `fst(relative path, input)`.
fn drive<F: Fn(&str, &str) -> Result<String, WeTextError>>(
    mut step: Step,
    fst: F,
) -> Result<String, WeTextError> {
    loop {
        match step {
            Step::Finished(result) => return result,
            Step::Apply { run, fst: path, input } => {
                let output = fst(&path, &input);
                step = run.resume(output);
            }
        }
    }
}

/// A transducer set that must not be consulted.
fn no_transducer(path: &str, _input: &str) -> Result<String, WeTextError> {
    panic!("no transducer should run, but {} was asked for", path)
}

/// Stand-ins for the English transducers: the tagger wraps the text into a
/// single token, the verbalizer reads the token's value back.
fn english_pass_through(path: &str, input: &str) -> Result<String, WeTextError> {
    match path {
        "en/tn/tagger.fst" => Ok(format!("word {{ value: \"{}\" }}", input)),
        "en/tn/verbalizer.fst" => {
            let start = input.find('"').unwrap() + 1;
            let end = input.rfind('"').unwrap();
            Ok(input[start..end].to_string())
        }
        other => panic!("unexpected transducer {}", other),
    }
}

#[test]
fn test_no_normalization_needed() {
    let normalizer = Normalizer::with_defaults(FST_DIR);

    // Text without numbers should remain unchanged
    let result = drive(normalizer.normalize("你好世界"), no_transducer).unwrap();
    assert_eq!(result, "你好世界");
}

#[test]
fn test_empty_input() {
    let normalizer = Normalizer::with_defaults(FST_DIR);

    let result = drive(normalizer.normalize(""), no_transducer).unwrap();
    assert_eq!(result, "");
}

#[test]
fn test_contractions_fix() {
    let config = NormalizerConfig::new()
        .with_lang(Language::En)
        .with_fix_contractions(true);
    let normalizer = Normalizer::new(FST_DIR, config);

    // With contractions fix enabled
    let result = drive(normalizer.normalize("I don't have $100"), english_pass_through).unwrap();
    assert!(
        result.contains("do not") || !result.contains("don't"),
        "Expected contractions to be expanded, got: {}",
        result
    );
}

#[test]
fn itn_of_empty_text_runs_no_transducer() {
    let config = NormalizerConfig::new().with_operator(Operator::Itn);
    let normalizer = Normalizer::new(FST_DIR, config);
    assert_eq!(drive(normalizer.normalize("   "), no_transducer).unwrap(), "");
}

#[test]
fn free_normalize_uses_the_defaults() {
    let result = drive(wetext_rs::normalize("  hello  "), no_transducer).unwrap();
    assert_eq!(result, "hello");
}

#[test]
fn normalizer_keeps_its_directory_and_configuration() {
    let config = NormalizerConfig::new().with_operator(Operator::Itn);
    let normalizer = Normalizer::new("some/dir", config);
    assert_eq!(normalizer.fst_dir(), "some/dir");
    assert_eq!(normalizer.config(), config);
    assert_eq!(Normalizer::with_defaults("d").config(), NormalizerConfig::default());
}

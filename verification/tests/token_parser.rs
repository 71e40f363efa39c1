use wetext_rs::{Language, Operator, TokenParser, WeTextError};

fn reorder(lang: Language, operator: Operator, text: &str) -> Result<String, WeTextError> {
    TokenParser::new(lang, operator).reorder(text)
}

#[test]
fn tn_fraction_is_read_denominator_first() {
    let out = reorder(
        Language::Zh,
        Operator::Tn,
        "fraction { numerator: \"3\" denominator: \"4\" }",
    )
    .unwrap();
    assert_eq!(out, "fraction { denominator: \"4\" numerator: \"3\" }");
}

#[test]
fn tn_time_puts_noon_first() {
    let out = reorder(
        Language::Zh,
        Operator::Tn,
        "time { hour: \"3\" minute: \"30\" noon: \"下午\" }",
    )
    .unwrap();
    assert_eq!(out, "time { noon: \"下午\" hour: \"3\" minute: \"30\" }");
}

#[test]
fn itn_money_puts_currency_first_and_drops_unknown_fields() {
    let out = reorder(
        Language::Zh,
        Operator::Itn,
        "money { value: \"100\" extra: \"x\" currency: \"元\" }",
    )
    .unwrap();
    assert_eq!(out, "money { currency: \"元\" value: \"100\" }");
}

#[test]
fn tokens_without_an_order_keep_theirs() {
    let out = reorder(
        Language::Zh,
        Operator::Tn,
        "  char { value: \"你\" }  cardinal { b: \"2\" a: \"1\" }  ",
    )
    .unwrap();
    assert_eq!(out, "char { value: \"你\" } cardinal { b: \"2\" a: \"1\" }");
}

#[test]
fn english_date_with_preserve_order_keeps_its_order() {
    let kept = reorder(
        Language::En,
        Operator::Tn,
        "date { year: \"2024\" day: \"1\" preserve_order: \"true\" }",
    )
    .unwrap();
    assert_eq!(kept, "date { year: \"2024\" day: \"1\" preserve_order: \"true\" }");
    let reordered = reorder(Language::En, Operator::Tn, "date { year: \"2024\" day: \"1\" }").unwrap();
    assert_eq!(reordered, "date { day: \"1\" year: \"2024\" }");
}

#[test]
fn japanese_tn_uses_the_shared_tn_orders() {
    let out = reorder(
        Language::Ja,
        Operator::Tn,
        "date { day: \"15\" month: \"1\" year: \"2024\" }",
    )
    .unwrap();
    assert_eq!(out, "date { year: \"2024\" month: \"1\" day: \"15\" }");
}

#[test]
fn a_repeated_key_keeps_its_last_value() {
    let out = reorder(Language::Zh, Operator::Tn, "w { a: \"1\" a: \"2\" }").unwrap();
    assert_eq!(out, "w { a: \"2\" a: \"2\" }");
}

#[test]
fn escaped_quotes_stay_in_values() {
    let out = reorder(Language::Zh, Operator::Tn, "w { v: \"a\\\"b\" }").unwrap();
    assert_eq!(out, "w { v: \"a\\\"b\" }");
}

#[test]
fn empty_token_text_gives_empty_text() {
    assert_eq!(reorder(Language::Zh, Operator::Tn, "").unwrap(), "");
    assert_eq!(reorder(Language::Zh, Operator::Tn, "   ").unwrap(), "");
}

#[test]
fn unclosed_value_is_a_parse_error() {
    let err = reorder(Language::Zh, Operator::Tn, "w { v: \"abc }").unwrap_err();
    assert_eq!(err, WeTextError::ParseError("malformed token text".to_string()));
}

#[test]
fn tab_before_a_name_is_a_parse_error() {
    let err = reorder(Language::Zh, Operator::Tn, "\tw { v: \"1\" }").unwrap_err();
    assert!(matches!(err, WeTextError::ParseError(_)));
}

#[test]
fn reordering_twice_is_reordering_once() {
    let inputs = [
        "fraction { numerator: \"3\" denominator: \"4\" } time { minute: \"1\" hour: \"2\" }",
        " { k: \"v\" } money { currency: \"$\" value: \"1\" }",
        "w { a: \"1\" a: \"2\" b: \"x\\\\\" }",
    ];
    for input in inputs.iter() {
        for (lang, op) in [
            (Language::Zh, Operator::Tn),
            (Language::Zh, Operator::Itn),
            (Language::En, Operator::Tn),
        ] {
            let once = reorder(lang, op, input).unwrap();
            let twice = reorder(lang, op, &once).unwrap();
            assert_eq!(once, twice);
        }
    }
}

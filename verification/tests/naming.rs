use log_args_runtime::naming::{
    get_formatted_function_name, to_ascii_upper, to_camel_case, to_kebab_case, to_pascal_case,
    to_screaming_snake_case, NameStyles,
};

fn only(style: &str) -> NameStyles {
    let mut s = NameStyles::none();
    match style {
        "snake" => s.snake = true,
        "camel" => s.camel = true,
        "pascal" => s.pascal = true,
        "screaming" => s.screaming = true,
        "kebab" => s.kebab = true,
        _ => {}
    }
    s
}

#[test]
fn camel_case_joins_words() {
    assert_eq!(to_camel_case("process_payment"), "processPayment");
    assert_eq!(to_camel_case("a_b_c"), "aBC");
    assert_eq!(to_camel_case("single"), "single");
    assert_eq!(to_camel_case(""), "");
}

#[test]
fn camel_case_handles_stray_underscores() {
    assert_eq!(to_camel_case("_leading"), "Leading");
    assert_eq!(to_camel_case("trailing_"), "trailing");
    assert_eq!(to_camel_case("double__underscore"), "doubleUnderscore");
    assert_eq!(to_camel_case("___"), "");
}

#[test]
fn pascal_case_capitalizes_every_word() {
    assert_eq!(to_pascal_case("process_payment"), "ProcessPayment");
    assert_eq!(to_pascal_case("a_b_c"), "ABC");
    assert_eq!(to_pascal_case("single"), "Single");
    assert_eq!(to_pascal_case(""), "");
    assert_eq!(to_pascal_case("_x"), "X");
}

#[test]
fn only_ascii_letters_change_case() {
    assert_eq!(to_pascal_case("étape_1_zone"), "étape1Zone");
    assert_eq!(to_camel_case("get_2fa_émetteur"), "get2faémetteur");
    assert_eq!(to_pascal_case("already_Upper"), "AlreadyUpper");
    assert_eq!(to_screaming_snake_case("naïve_ß"), "NAïVE_ß");
}

#[test]
fn screaming_snake_case_uppercases() {
    assert_eq!(to_screaming_snake_case("process_payment"), "PROCESS_PAYMENT");
    assert_eq!(to_screaming_snake_case("with_2_digits"), "WITH_2_DIGITS");
    assert_eq!(to_screaming_snake_case(""), "");
}

#[test]
fn kebab_case_replaces_underscores() {
    assert_eq!(to_kebab_case("process_payment"), "process-payment");
    assert_eq!(to_kebab_case("__a__"), "--a--");
    assert_eq!(to_kebab_case("plain"), "plain");
    assert_eq!(to_kebab_case(""), "");
}

#[test]
fn ascii_upper_maps_only_lower_case_letters() {
    assert_eq!(to_ascii_upper('a'), 'A');
    assert_eq!(to_ascii_upper('z'), 'Z');
    assert_eq!(to_ascii_upper('m'), 'M');
    assert_eq!(to_ascii_upper('A'), 'A');
    assert_eq!(to_ascii_upper('`'), '`');
    assert_eq!(to_ascii_upper('{'), '{');
    assert_eq!(to_ascii_upper('5'), '5');
    assert_eq!(to_ascii_upper('é'), 'é');
    for c in ['a', 'q', 'z', 'Q', '_', '1', 'ß', '日'] {
        assert_eq!(to_ascii_upper(c), c.to_ascii_uppercase());
    }
}

#[test]
fn casing_agrees_with_the_standard_library() {
    for name in ["process_payment", "a", "", "x_y_z", "MiXed_Case", "ünï_cödé"] {
        assert_eq!(to_screaming_snake_case(name), name.to_ascii_uppercase());
        assert_eq!(to_kebab_case(name), name.replace('_', "-"));
    }
}

#[test]
fn formatted_name_follows_the_style() {
    assert_eq!(get_formatted_function_name("process_payment", only("snake")), "process_payment");
    assert_eq!(get_formatted_function_name("process_payment", only("camel")), "processPayment");
    assert_eq!(get_formatted_function_name("process_payment", only("pascal")), "ProcessPayment");
    assert_eq!(
        get_formatted_function_name("process_payment", only("screaming")),
        "PROCESS_PAYMENT"
    );
    assert_eq!(get_formatted_function_name("process_payment", only("kebab")), "process-payment");
    assert_eq!(
        get_formatted_function_name("process_payment", NameStyles::none()),
        "process_payment"
    );
}

#[test]
fn formatted_name_picks_by_priority() {
    let all = NameStyles { snake: true, camel: true, pascal: true, screaming: true, kebab: true };
    assert_eq!(get_formatted_function_name("a_b", all), "aB");
    let no_camel = NameStyles { camel: false, ..all };
    assert_eq!(get_formatted_function_name("a_b", no_camel), "AB");
    let no_pascal = NameStyles { pascal: false, ..no_camel };
    assert_eq!(get_formatted_function_name("a_b", no_pascal), "A_B");
    let no_screaming = NameStyles { screaming: false, ..no_pascal };
    assert_eq!(get_formatted_function_name("a_b", no_screaming), "a-b");
    let only_snake = NameStyles { kebab: false, ..no_screaming };
    assert_eq!(get_formatted_function_name("a_b", only_snake), "a_b");
}

#[test]
fn any_tells_whether_a_style_is_on() {
    assert!(!NameStyles::none().any());
    for style in ["snake", "camel", "pascal", "screaming", "kebab"] {
        assert!(only(style).any());
    }
}

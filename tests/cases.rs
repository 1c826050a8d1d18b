use casespaetzle::{
    capitalize, decapitalize, is_strict_camel_case, is_strict_case, is_strict_flat_case,
    is_strict_kebab_case, is_strict_pascal_case, is_strict_snake_case, join_styled, snake_to_pascal,
    split, to_camel_case, to_case, to_constant_case, to_flat_case, to_kebab_case, to_pascal_case,
    to_snake_case, CaseStyle, InvalidCharacter, SplitCase,
};

fn words(ws: &[&str]) -> Vec<String> {
    ws.iter().map(|w| w.to_string()).collect()
}

#[test]
fn case_convert() {
    assert_eq!(snake_to_pascal("_hello"), "_Hello".to_owned());
    assert_eq!(snake_to_pascal("hello_world"), "HelloWorld".to_owned());
    assert_eq!(snake_to_pascal("___abc__def"), "___Abc_Def".to_owned());
}

#[test]
fn split_case() {
    assert_eq!(
        "HelloWorld".to_split_case(),
        Ok(vec!["Hello".to_string(), "World".to_string()])
    );
    assert_eq!(
        "helloWorld".to_split_case(),
        Ok(vec!["hello".to_string(), "World".to_string()])
    );
    assert_eq!(
        "__helloWorld".to_split_case(),
        Ok(vec!["hello".to_string(), "World".to_string()])
    );
    assert_eq!(
        "AbcABC".to_split_case(),
        Ok(vec!["Abc".to_string(), "ABC".to_string()])
    );
    assert_eq!(
        "ABCAbc".to_split_case(),
        Ok(vec!["ABC".to_string(), "Abc".to_string()])
    );
}

#[test]
fn camel_case() {
    assert_eq!(to_camel_case("HelloWorld"), Ok("helloWorld".to_string()));
    assert_eq!(to_camel_case("HTTPRequest"), Ok("httpRequest".to_string()));
}

#[test]
fn constant_case() {
    assert_eq!(to_constant_case("HelloWorld"), Ok("HELLO_WORLD".to_string()));
}

#[test]
fn flat_case() {
    assert_eq!(to_flat_case("HelloWorld"), Ok("helloworld".to_string()));
    assert_eq!(is_strict_flat_case("flatcase"), Ok(true));
    assert_eq!(is_strict_flat_case("PascalCase"), Ok(false));
}

#[test]
fn kebab_case() {
    assert_eq!(to_kebab_case("HelloWorld"), Ok("hello-world".to_string()));
}

#[test]
fn pascal_case() {
    assert_eq!(to_pascal_case("HelloWorld"), Ok("HelloWorld".to_string()));
    assert_eq!(to_pascal_case("HTTPRequest"), Ok("HttpRequest".to_string()));
    assert_eq!(to_pascal_case("HTTP-Request"), Ok("HttpRequest".to_string()));
    assert_eq!(is_strict_pascal_case("PascalCase"), Ok(true));
}

#[test]
fn snake_case() {
    assert_eq!(to_snake_case("HelloWorld"), Ok("hello_world".to_string()));
}

#[test]
fn split_acronym_run() {
    assert_eq!(split("HTTPRequest"), Ok(words(&["HTTP", "Request"])));
    assert_eq!(split("ECMAScript"), Ok(words(&["ECMA", "Script"])));
    assert_eq!(
        split("camelsLoveOCaml"),
        Ok(words(&["camels", "Love", "O", "Caml"]))
    );
}

#[test]
fn split_separators() {
    assert_eq!(split("a-b_c~d,e.f g"), Ok(words(&["a", "b", "c", "d", "e", "f", "g"])));
    assert_eq!(split("__hello--World__"), Ok(words(&["hello", "World"])));
    assert_eq!(split(""), Ok(words(&[])));
    assert_eq!(split("-_ "), Ok(words(&[])));
    assert_eq!(split("aB"), Ok(words(&["a", "B"])));
}

#[test]
fn split_on_owned_string() {
    assert_eq!(
        String::from("Dashed-SnakeCase").to_split_case(),
        Ok(words(&["Dashed", "Snake", "Case"]))
    );
}

#[test]
fn split_rejects_digit() {
    assert_eq!(
        split("abc123"),
        Err(InvalidCharacter { previous: 'c', found: '1', next: '2' })
    );
}

#[test]
fn invalid_character_at_segment_edges() {
    assert_eq!(
        split("ab-1"),
        Err(InvalidCharacter { previous: '?', found: '1', next: '?' })
    );
    assert_eq!(
        split("x!_y"),
        Err(InvalidCharacter { previous: 'x', found: '!', next: '?' })
    );
    assert_eq!(
        split("#"),
        Err(InvalidCharacter { previous: '?', found: '#', next: '?' })
    );
}

#[test]
fn conversions_report_invalid_character() {
    let e = InvalidCharacter { previous: 'c', found: '1', next: '2' };
    assert_eq!(to_snake_case("abc123"), Err(e));
    assert_eq!(to_case("abc123", CaseStyle::Pascal), Err(e));
    assert_eq!(is_strict_flat_case("abc123"), Err(e));
    assert_eq!(is_strict_case("abc123", CaseStyle::Camel), Err(e));
}

#[test]
fn separator_normalization() {
    assert_eq!(to_kebab_case("HelloWorld"), Ok("hello-world".to_string()));
    assert_eq!(to_snake_case("HelloWorld"), Ok("hello_world".to_string()));
    assert_eq!(to_constant_case("HelloWorld"), Ok("HELLO_WORLD".to_string()));
    assert_eq!(to_kebab_case("hello world.again"), Ok("hello-world-again".to_string()));
    assert_eq!(to_constant_case("camel~Case"), Ok("CAMEL_CASE".to_string()));
}

#[test]
fn camel_and_pascal_from_separated_words() {
    assert_eq!(to_camel_case("HTTP-Request"), Ok("httpRequest".to_string()));
    assert_eq!(to_camel_case("x-y-z"), Ok("xYZ".to_string()));
    assert_eq!(to_pascal_case("x-y-z"), Ok("XYZ".to_string()));
    assert_eq!(to_camel_case(""), Ok("".to_string()));
    assert_eq!(to_pascal_case("__"), Ok("".to_string()));
}

#[test]
fn strict_flag_boundaries() {
    assert_eq!(is_strict_flat_case("flatcase"), Ok(true));
    assert_eq!(is_strict_flat_case("PascalCase"), Ok(false));
    assert_eq!(is_strict_pascal_case("PascalCase"), Ok(true));
    assert_eq!(is_strict_camel_case("helloWorld"), Ok(true));
    assert_eq!(is_strict_pascal_case("HttpRequest"), Ok(true));
    assert_eq!(is_strict_pascal_case("HTTPRequest"), Ok(false));
}

#[test]
fn strictness_ignores_separators() {
    // Strictness compares the words joined without a separator, so a
    // separator in the input is never seen.
    assert_eq!(is_strict_flat_case("hello world"), Ok(true));
    assert_eq!(is_strict_snake_case("hello_world"), Ok(false));
    assert_eq!(is_strict_kebab_case("hello"), Ok(true));
}

#[test]
fn strict_implies_conversion_equals_joined_words() {
    for s in ["flatcase", "PascalCase", "helloWorld", "a-b", "HTTPRequest"] {
        for style in [
            CaseStyle::Flat,
            CaseStyle::Kebab,
            CaseStyle::Snake,
            CaseStyle::Pascal,
            CaseStyle::Camel,
            CaseStyle::Constant,
        ] {
            if is_strict_case(s, style) == Ok(true) {
                let joined: String = split(s).unwrap().concat();
                assert_eq!(to_case(s, style), Ok(joined));
            }
        }
    }
}

#[test]
fn transform_then_split_keeps_letters() {
    for s in ["HelloWorld", "HTTP-Request", "x-y-z", "camelsLoveOCaml", "__a_B"] {
        let original: String = split(s).unwrap().concat().to_lowercase();
        for style in [
            CaseStyle::Flat,
            CaseStyle::Kebab,
            CaseStyle::Snake,
            CaseStyle::Pascal,
            CaseStyle::Camel,
            CaseStyle::Constant,
        ] {
            let converted = to_case(s, style).unwrap();
            let again: String = split(&converted).unwrap().concat().to_lowercase();
            assert_eq!(again, original);
        }
    }
}

#[test]
fn capitalize_first_letter() {
    assert_eq!(capitalize("hello".to_string()), "Hello");
    assert_eq!(capitalize("hELLO".to_string()), "HELLO");
    assert_eq!(capitalize("x".to_string()), "X");
    assert_eq!(decapitalize("Hello".to_string()), "hello");
    assert_eq!(decapitalize("HELLO".to_string()), "hELLO");
}

#[test]
fn join_styled_words() {
    let ws = words(&["HTTP", "Request"]);
    assert_eq!(join_styled(&ws, CaseStyle::Camel), "httpRequest");
    assert_eq!(join_styled(&ws, CaseStyle::Kebab), "http-request");
    assert_eq!(join_styled(&ws, CaseStyle::Constant), "HTTP_REQUEST");
    assert_eq!(join_styled(&words(&[]), CaseStyle::Snake), "");
}

#[test]
fn snake_to_pascal_edges() {
    assert_eq!(snake_to_pascal(""), "");
    assert_eq!(snake_to_pascal("a_"), "A_");
    assert_eq!(snake_to_pascal("flat_case"), "FlatCase");
    assert_eq!(snake_to_pascal("a__b_c"), "A_BC");
}

#[test]
fn separated_styles_keep_words() {
    for s in ["HelloWorld", "HTTP-Request", "x-y-z", "camelsLoveOCaml", "__a_B"] {
        let ws = split(s).unwrap();
        let lower: Vec<String> = ws.iter().map(|w| w.to_lowercase()).collect();
        let upper: Vec<String> = ws.iter().map(|w| w.to_uppercase()).collect();
        assert_eq!(split(&to_kebab_case(s).unwrap()), Ok(lower.clone()));
        assert_eq!(split(&to_snake_case(s).unwrap()), Ok(lower));
        assert_eq!(split(&to_constant_case(s).unwrap()), Ok(upper));
    }
}

#[test]
fn flat_and_camel_may_merge_words() {
    assert_eq!(split(&to_flat_case("HelloWorld").unwrap()), Ok(words(&["helloworld"])));
    assert_eq!(split(&to_camel_case("a-b-c").unwrap()), Ok(words(&["a", "BC"])));
}

#[test]
fn strict_checks_for_every_style() {
    assert_eq!(is_strict_camel_case("HelloWorld"), Ok(false));
    assert_eq!(is_strict_snake_case("hello"), Ok(true));
    assert_eq!(is_strict_kebab_case("Hello"), Ok(false));
    assert_eq!(casespaetzle::is_strict_constant_case("HELLO"), Ok(true));
    assert_eq!(casespaetzle::is_strict_constant_case("Hello"), Ok(false));
}

use cbindgen::rename::IdentifierType;
use cbindgen::rename::RenameRule;

#[test]
fn pascal_from_snake_basic() {
    let r = RenameRule::PascalCase.apply_to_snake_case("foo_bar_baz", IdentifierType::StructMember);
    assert_eq!(r, "FooBarBaz");
}

#[test]
fn camel_from_snake_basic() {
    let r = RenameRule::CamelCase.apply_to_snake_case("foo_bar_baz", IdentifierType::StructMember);
    assert_eq!(r, "fooBarBaz");
}

#[test]
fn camel_from_snake_lowercases_the_leading_character() {
    let r = RenameRule::CamelCase.apply_to_snake_case("Foo_bar", IdentifierType::StructMember);
    assert_eq!(r, "fooBar");
}

#[test]
fn snake_from_pascal_basic() {
    let r = RenameRule::SnakeCase.apply_to_pascal_case("FooBarBaz", IdentifierType::EnumVariant);
    assert_eq!(r, "foo_bar_baz");
}

#[test]
fn screaming_snake_from_pascal() {
    let r =
        RenameRule::ScreamingSnakeCase.apply_to_pascal_case("FooBar", IdentifierType::EnumVariant);
    assert_eq!(r, "FOO_BAR");
}

#[test]
fn gecko_case_prefixes_by_role() {
    let m = RenameRule::GeckoCase.apply_to_snake_case("foo_bar", IdentifierType::StructMember);
    assert_eq!(m, "mFooBar");
    let a = RenameRule::GeckoCase.apply_to_snake_case("foo_bar", IdentifierType::FunctionArg);
    assert_eq!(a, "aFooBar");
    let v = RenameRule::GeckoCase.apply_to_pascal_case("FooBar", IdentifierType::EnumVariant);
    assert_eq!(v, "FooBar");
}

#[test]
fn gecko_case_strips_one_leading_underscore() {
    let m = RenameRule::GeckoCase.apply_to_snake_case("_foo", IdentifierType::StructMember);
    assert_eq!(m, "mFoo");
}

#[test]
fn upper_and_lower_rules() {
    assert_eq!(
        RenameRule::UpperCase.apply_to_snake_case("foo_bar", IdentifierType::FunctionArg),
        "FOO_BAR"
    );
    assert_eq!(
        RenameRule::LowerCase.apply_to_pascal_case("FooBar", IdentifierType::EnumVariant),
        "foobar"
    );
}

#[test]
fn empty_input_stays_empty() {
    assert_eq!(
        RenameRule::GeckoCase.apply_to_snake_case("", IdentifierType::StructMember),
        ""
    );
    assert_eq!(
        RenameRule::SnakeCase.apply_to_pascal_case("", IdentifierType::EnumVariant),
        ""
    );
}

#[test]
fn rename_purity_repeated_application() {
    // The same rule on the same input always gives the same output,
    // and converting to PascalCase is idempotent.
    let once = RenameRule::PascalCase.apply_to_snake_case("foo_bar", IdentifierType::StructMember);
    let again = RenameRule::PascalCase.apply_to_snake_case("foo_bar", IdentifierType::StructMember);
    assert_eq!(once, again);
    let twice = RenameRule::PascalCase.apply_to_snake_case(&once, IdentifierType::StructMember);
    assert_eq!(twice, once);
}

#[test]
fn rename_round_trip_snake() {
    // SnakeCase applied to the PascalCase result of a snake identifier
    // yields the original.
    let snake = "frob_the_widget";
    let pascal = RenameRule::PascalCase.apply_to_snake_case(snake, IdentifierType::StructMember);
    let back = RenameRule::SnakeCase.apply_to_pascal_case(&pascal, IdentifierType::EnumVariant);
    assert_eq!(back, snake);
}

#[test]
fn rename_round_trip_pascal() {
    // PascalCase applied to the snake result of a PascalCase
    // identifier yields the original, up to the leading character.
    let pascal = "FrobTheWidget";
    let snake = RenameRule::SnakeCase.apply_to_pascal_case(pascal, IdentifierType::EnumVariant);
    let back = RenameRule::PascalCase.apply_to_snake_case(&snake, IdentifierType::StructMember);
    assert_eq!(back, pascal);
}

#[test]
fn rule_aliases_parse() {
    assert!(matches!(RenameRule::from_str("none"), Ok(RenameRule::Keep)));
    assert!(matches!(RenameRule::from_str("None"), Ok(RenameRule::Keep)));
    assert!(matches!(
        RenameRule::from_str("mGeckoCase"),
        Ok(RenameRule::GeckoCase)
    ));
    assert!(matches!(
        RenameRule::from_str("gecko_case"),
        Ok(RenameRule::GeckoCase)
    ));
    assert!(matches!(
        RenameRule::from_str("SCREAMING_SNAKE_CASE"),
        Ok(RenameRule::ScreamingSnakeCase)
    ));
    assert!(matches!(
        RenameRule::from_str("camelCase"),
        Ok(RenameRule::CamelCase)
    ));
}

#[test]
fn unknown_rule_is_a_diagnostic() {
    let e = RenameRule::from_str("sarcastic_case");
    match e {
        Err(msg) => assert_eq!(msg, "unrecognized RenameRule: 'sarcastic_case'"),
        Ok(_) => panic!("an unknown rule name must not parse"),
    }
}

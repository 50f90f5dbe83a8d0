use write_with_emoji::config::{join, same_text, validate_emoji, ConfigError};
use write_with_emoji::Config;

fn tokens(list: &[&str]) -> Vec<String> {
    list.iter().map(|t| t.to_string()).collect()
}

fn error_of(list: &[&str]) -> ConfigError {
    match Config::new(tokens(list)) {
        Ok(_) => panic!("accepted {:?}", list),
        Err(e) => e,
    }
}

#[test]
fn reads_symbols_and_text() {
    let c = Config::new(tokens(&["prog", "-sp", ":sp:", "-st", ":st:", "Hello", "World"])).unwrap();
    assert_eq!(c.space_emoji(), ":sp:");
    assert_eq!(c.stroke_emoji(), ":st:");
    assert_eq!(c.input(), "Hello World");
}

#[test]
fn flags_may_stand_anywhere() {
    let c = Config::new(tokens(&["prog", "Hello", "-st", ":st:", "big", "-sp", ":sp:", "World"]))
        .unwrap();
    assert_eq!(c.space_emoji(), ":sp:");
    assert_eq!(c.stroke_emoji(), ":st:");
    assert_eq!(c.input(), "Hello big World");
}

#[test]
fn program_name_is_passed_over() {
    assert_eq!(error_of(&["-sp", ":sp:", "-st", ":st:", "x"]), ConfigError::NotEnoughArguments);
    let c = Config::new(tokens(&["-sp", "-sp", ":sp:", "-st", ":st:", "x"])).unwrap();
    assert_eq!(c.input(), "x");
}

#[test]
fn later_flag_replaces_earlier() {
    let c = Config::new(tokens(&["prog", "-sp", ":a:", "-st", ":b:", "-sp", ":c:", "x"])).unwrap();
    assert_eq!(c.space_emoji(), ":c:");
    assert_eq!(c.stroke_emoji(), ":b:");
}

#[test]
fn unknown_tokens_are_text() {
    let c = Config::new(tokens(&["prog", "-sp", ":a:", "-st", ":b:", "-x", "--help"])).unwrap();
    assert_eq!(c.input(), "-x --help");
}

#[test]
fn missing_stroke_flag() {
    assert_eq!(error_of(&["prog", "-sp", ":x:", "hello"]), ConfigError::NotEnoughArguments);
}

#[test]
fn missing_space_flag() {
    assert_eq!(error_of(&["prog", "-st", ":x:", "hello"]), ConfigError::NotEnoughArguments);
}

#[test]
fn missing_text() {
    assert_eq!(error_of(&["prog", "-sp", ":x:", "-st", ":y:"]), ConfigError::NotEnoughArguments);
    assert_eq!(error_of(&["prog"]), ConfigError::NotEnoughArguments);
    assert_eq!(error_of(&[]), ConfigError::NotEnoughArguments);
}

#[test]
fn empty_text_is_rejected() {
    assert_eq!(
        error_of(&["prog", "-sp", ":x:", "-st", ":y:", ""]),
        ConfigError::NotEnoughArguments
    );
    let c = Config::new(tokens(&["prog", "-sp", ":x:", "-st", ":y:", "", ""])).unwrap();
    assert_eq!(c.input(), " ");
}

#[test]
fn symbol_without_leading_colon() {
    assert_eq!(error_of(&["prog", "-sp", "x:", "-st", ":y:", "hi"]), ConfigError::MalformedSymbol);
}

#[test]
fn symbol_without_trailing_colon() {
    assert_eq!(error_of(&["prog", "-sp", ":x", "-st", ":y:", "hi"]), ConfigError::MalformedSymbol);
}

#[test]
fn stroke_symbol_is_checked_too() {
    assert_eq!(error_of(&["prog", "-sp", ":x:", "-st", "y", "hi"]), ConfigError::MalformedSymbol);
    assert_eq!(error_of(&["prog", "-st", "y:", "-sp", ":x:", "hi"]), ConfigError::MalformedSymbol);
}

#[test]
fn empty_symbol_is_malformed() {
    assert_eq!(error_of(&["prog", "-sp", "", "-st", ":y:", "hi"]), ConfigError::MalformedSymbol);
}

#[test]
fn flag_takes_the_next_token_whatever_it_is() {
    assert_eq!(error_of(&["prog", "-sp", "-st", ":y:", "hi"]), ConfigError::MalformedSymbol);
}

#[test]
fn flag_at_the_end_has_no_symbol() {
    assert_eq!(error_of(&["prog", "hi", "-st", ":y:", "-sp"]), ConfigError::SymbolNotProvided);
    assert_eq!(error_of(&["prog", "-st"]), ConfigError::SymbolNotProvided);
}

#[test]
fn first_fault_decides() {
    assert_eq!(error_of(&["prog", "-sp", "bad", "-st"]), ConfigError::MalformedSymbol);
    assert_eq!(error_of(&["prog", "-sp", ":ok:", "-st"]), ConfigError::SymbolNotProvided);
}

#[test]
fn single_colon_is_a_symbol() {
    let c = Config::new(tokens(&["prog", "-sp", ":", "-st", ":", "hi"])).unwrap();
    assert_eq!(c.space_emoji(), ":");
}

#[test]
fn validate_emoji_verdicts() {
    assert_eq!(validate_emoji(&None), Err(ConfigError::SymbolNotProvided));
    assert_eq!(validate_emoji(&Some(":smile:".to_string())), Ok(()));
    assert_eq!(validate_emoji(&Some(":".to_string())), Ok(()));
    assert_eq!(validate_emoji(&Some("::".to_string())), Ok(()));
    assert_eq!(validate_emoji(&Some("".to_string())), Err(ConfigError::MalformedSymbol));
    assert_eq!(validate_emoji(&Some("x:".to_string())), Err(ConfigError::MalformedSymbol));
    assert_eq!(validate_emoji(&Some(":x".to_string())), Err(ConfigError::MalformedSymbol));
    assert_eq!(validate_emoji(&Some("smile".to_string())), Err(ConfigError::MalformedSymbol));
    assert_eq!(validate_emoji(&Some(":\u{e9}".to_string())), Err(ConfigError::MalformedSymbol));
    assert_eq!(validate_emoji(&Some(":\u{e9}:".to_string())), Ok(()));
}

#[test]
fn join_puts_one_space_between_words() {
    assert_eq!(join(&tokens(&[])), "");
    assert_eq!(join(&tokens(&["a"])), "a");
    assert_eq!(join(&tokens(&["a", "b", "c"])), "a b c");
    assert_eq!(join(&tokens(&["", "b", ""])), " b ");
    let words = tokens(&["x y", "", "z"]);
    assert_eq!(join(&words), words.join(" "));
}

#[test]
fn same_text_compares_characters() {
    assert!(same_text(&"-sp".to_string(), "-sp"));
    assert!(!same_text(&"-sp".to_string(), "-st"));
    assert!(!same_text(&"-sp ".to_string(), "-sp"));
}

#[test]
fn config_error_messages() {
    assert_eq!(ConfigError::NotEnoughArguments.message(), "Not enough arguments!");
    assert_eq!(
        ConfigError::MalformedSymbol.message(),
        "Emoji should start with ':' and end with ':'!"
    );
    assert_eq!(ConfigError::SymbolNotProvided.message(), "Emoji was not provided!");
}

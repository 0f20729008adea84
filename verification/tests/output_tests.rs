use cviz::output::{DetailLevel, Direction, OutputFormat};

#[test]
fn test_output_format_parse() {
    assert!(matches!(
        "ascii".parse::<OutputFormat>().unwrap(),
        OutputFormat::Ascii
    ));
    assert!(matches!(
        "mermaid".parse::<OutputFormat>().unwrap(),
        OutputFormat::Mermaid
    ));
    assert!("invalid".parse::<OutputFormat>().is_err());
}

#[test]
fn test_direction_parse() {
    assert!(matches!(
        "lr".parse::<Direction>().unwrap(),
        Direction::LeftToRight
    ));
    assert!(matches!(
        "td".parse::<Direction>().unwrap(),
        Direction::TopDown
    ));
}

#[test]
fn test_detail_level_parse() {
    assert!(matches!(
        "handler-chain".parse::<DetailLevel>().unwrap(),
        DetailLevel::HandlerChain
    ));
    assert!(matches!(
        "all-interfaces".parse::<DetailLevel>().unwrap(),
        DetailLevel::AllInterfaces
    ));
    assert!(matches!(
        "full".parse::<DetailLevel>().unwrap(),
        DetailLevel::Full
    ));
}

#[test]
fn test_parse_words_ignore_ascii_case() {
    assert!(matches!(
        "ASCII".parse::<OutputFormat>().unwrap(),
        OutputFormat::Ascii
    ));
    assert!(matches!(
        "Left-To-Right".parse::<Direction>().unwrap(),
        Direction::LeftToRight
    ));
    assert!(matches!(
        "Handler".parse::<DetailLevel>().unwrap(),
        DetailLevel::HandlerChain
    ));
    assert!("left to right".parse::<Direction>().is_err());
}

#[test]
fn test_parse_error_messages() {
    assert_eq!(
        "bogus".parse::<OutputFormat>().unwrap_err(),
        "Invalid output format: bogus. Valid values: ascii, mermaid"
    );
    assert_eq!(
        "bogus".parse::<Direction>().unwrap_err(),
        "Invalid direction: bogus"
    );
    assert_eq!(
        "bogus".parse::<DetailLevel>().unwrap_err(),
        "Invalid detail level: bogus"
    );
}

#[test]
fn test_direction_to_mermaid() {
    assert_eq!(Direction::LeftToRight.to_mermaid(), "LR");
    assert_eq!(Direction::TopDown.to_mermaid(), "TD");
}

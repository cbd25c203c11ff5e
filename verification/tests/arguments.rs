use marciemoo::args::Argument;
use marciemoo::args::Arguments;
use marciemoo::args::ArgumentKind;
use marciemoo::args::CommandError;
use marciemoo::value::Value;

#[test]
fn lex_mixed_tokens() {
    let args = Arguments::new("12 \"hi there\" true false foo_bar").unwrap();
    assert_eq!(args.get(0).unwrap(), Argument::Integer(12));
    assert_eq!(args.get(1).unwrap(), Argument::String("hi there".to_string()));
    assert_eq!(args.get(2).unwrap(), Argument::Bool(true));
    assert_eq!(args.get(3).unwrap(), Argument::Bool(false));
    assert_eq!(args.get(4).unwrap(), Argument::Ident("foo_bar".to_string()));
}

#[test]
fn lex_longest_match_without_separators() {
    let args = Arguments::new("123abc").unwrap();
    assert_eq!(args.get(0).unwrap(), Argument::Integer(123));
    assert_eq!(args.get(1).unwrap(), Argument::Ident("abc".to_string()));
}

#[test]
fn lex_keyword_prefix_is_an_identifier() {
    let args = Arguments::new("truex falsey").unwrap();
    assert_eq!(args.get(0).unwrap(), Argument::Ident("truex".to_string()));
    assert_eq!(args.get(1).unwrap(), Argument::Ident("falsey".to_string()));
}

#[test]
fn lex_empty_tail() {
    let args = Arguments::new("").unwrap();
    assert!(matches!(args.get(0), Err(CommandError::MissingArgument { index: 0 })));
}

#[test]
fn lex_unterminated_string_fails() {
    let e = Arguments::new("\"oops").unwrap_err();
    match e {
        CommandError::InvalidArgument { index, expected } => {
            assert_eq!(index, 0);
            assert_eq!(expected, "argument".to_string());
        },
        _ => panic!("wrong error"),
    }
}

#[test]
fn lex_unrecognized_character_fails_with_token_index() {
    let e = Arguments::new("12 !").unwrap_err();
    match e {
        CommandError::InvalidArgument { index, expected } => {
            assert_eq!(index, 1);
            assert_eq!(expected, "argument".to_string());
        },
        _ => panic!("wrong error"),
    }
}

#[test]
fn lex_oversized_integer_fails() {
    let e = Arguments::new("99999999999999999999").unwrap_err();
    assert!(matches!(e, CommandError::InvalidArgument { index: 0, .. }));
}

#[test]
fn get_value_accepts_three_kinds() {
    let args = Arguments::new("7 \"s\" true name").unwrap();
    assert_eq!(args.get_value(0).unwrap(), Value::Integer(7));
    assert_eq!(args.get_value(1).unwrap(), Value::String("s".to_string()));
    assert_eq!(args.get_value(2).unwrap(), Value::Bool(true));
    match args.get_value(3).unwrap_err() {
        CommandError::InvalidArgument { index, expected } => {
            assert_eq!(index, 3);
            assert_eq!(expected, "value".to_string());
        },
        _ => panic!("wrong error"),
    }
}

#[test]
fn typed_getters_check_their_kind() {
    let args = Arguments::new("7 name \"s\"").unwrap();
    assert_eq!(args.get_integer(0).unwrap(), 7);
    assert_eq!(args.get_id(0).unwrap(), 7usize);
    assert_eq!(args.get_ident(1).unwrap(), "name".to_string());
    assert_eq!(args.get_string(2).unwrap(), "s".to_string());
    assert!(matches!(
        args.get_integer(1),
        Err(CommandError::InvalidArgument { index: 1, .. })
    ));
    assert!(matches!(
        args.get_ident(0),
        Err(CommandError::InvalidArgument { index: 0, .. })
    ));
    assert!(matches!(
        args.get_string(0),
        Err(CommandError::InvalidArgument { index: 0, .. })
    ));
    assert!(matches!(args.get(9), Err(CommandError::MissingArgument { index: 9 })));
}

#[test]
fn token_kinds_follow_the_shapes() {
    let args = Arguments::new("1 \"s\" w true false").unwrap();
    assert_eq!(args.get(0).unwrap().token_kind(), ArgumentKind::Integer);
    assert_eq!(args.get(1).unwrap().token_kind(), ArgumentKind::String);
    assert_eq!(args.get(2).unwrap().token_kind(), ArgumentKind::Ident);
    assert_eq!(args.get(3).unwrap().token_kind(), ArgumentKind::True);
    assert_eq!(args.get(4).unwrap().token_kind(), ArgumentKind::False);
}

#[test]
fn error_messages_read_as_reported() {
    let missing = CommandError::MissingArgument { index: 2 };
    assert_eq!(missing.to_message(), "missing argument at index 2".to_string());
    let invalid = CommandError::InvalidArgument { index: 0, expected: "integer".to_string() };
    assert_eq!(
        invalid.to_message(),
        "invalid argument at index 0 (expected integer)".to_string()
    );
}

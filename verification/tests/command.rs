use simple_kv_store::command::{
    is_space_char, parse_input, parse_number, split_words, Command, ParseError,
};

fn key_of(command: Command) -> String {
    match command {
        Command::Get { key }
        | Command::Delete { key }
        | Command::GetTtl { key }
        | Command::Ttl { key } => key,
        other => panic!("no key in {:?}", other),
    }
}

#[test]
fn parses_the_commands_with_one_key() {
    assert!(matches!(parse_input("get a"), Ok(Command::Get { .. })));
    assert!(matches!(parse_input("delete a"), Ok(Command::Delete { .. })));
    assert!(matches!(parse_input("getttl a"), Ok(Command::GetTtl { .. })));
    assert!(matches!(parse_input("ttl a"), Ok(Command::Ttl { .. })));
    assert_eq!(key_of(parse_input("  get   some-key \n").unwrap()), "some-key");
    assert_eq!(key_of(parse_input("delete\tk\r\n").unwrap()), "k");
    assert_eq!(key_of(parse_input("ttl \u{3000}k\u{a0}").unwrap()), "k");
}

#[test]
fn parses_set_with_and_without_ttl() {
    match parse_input("set k v") {
        Ok(Command::Put { key, value, ttl }) => {
            assert_eq!(key, "k");
            assert_eq!(value, "v");
            assert_eq!(ttl, None);
        }
        other => panic!("{:?}", other),
    }
    match parse_input(" set  name  Ada  --ttl  60 \n") {
        Ok(Command::Put { key, value, ttl }) => {
            assert_eq!(key, "name");
            assert_eq!(value, "Ada");
            assert_eq!(ttl, Some(60));
        }
        other => panic!("{:?}", other),
    }
    assert!(matches!(parse_input("set k v --ttl 5 more words"), Ok(Command::Put { ttl: Some(5), .. })));
    assert!(matches!(parse_input("set k v --ttl"), Ok(Command::Put { ttl: None, .. })));
    assert!(matches!(parse_input("set k v --ttl x"), Ok(Command::Put { ttl: None, .. })));
    assert!(matches!(parse_input("set k v --ttl -5"), Ok(Command::Put { ttl: None, .. })));
    assert!(matches!(parse_input("set k v -t 5"), Ok(Command::Put { ttl: None, .. })));
    assert!(matches!(parse_input("set k v w x y"), Ok(Command::Put { ttl: None, .. })));
    assert!(matches!(parse_input("set k v --ttl +7"), Ok(Command::Put { ttl: Some(7), .. })));
}

#[test]
fn parses_the_commands_without_arguments() {
    assert!(matches!(parse_input("list"), Ok(Command::List)));
    assert!(matches!(parse_input("exit"), Ok(Command::Exit)));
    assert!(matches!(parse_input("quit"), Ok(Command::Exit)));
    assert!(matches!(parse_input("exit now please"), Ok(Command::Exit)));
    assert!(matches!(parse_input("help"), Ok(Command::Help)));
    assert!(matches!(parse_input("help set"), Ok(Command::Help)));
}

#[test]
fn rejects_what_is_no_command() {
    assert_eq!(parse_input("").err(), Some(ParseError::Empty));
    assert_eq!(parse_input("  \t \n").err(), Some(ParseError::Empty));
    assert_eq!(parse_input("set").err(), Some(ParseError::SetUsage));
    assert_eq!(parse_input("set k").err(), Some(ParseError::SetUsage));
    assert_eq!(parse_input("get").err(), Some(ParseError::Unknown));
    assert_eq!(parse_input("get a b").err(), Some(ParseError::Unknown));
    assert_eq!(parse_input("delete").err(), Some(ParseError::Unknown));
    assert_eq!(parse_input("list all").err(), Some(ParseError::Unknown));
    assert_eq!(parse_input("ttl").err(), Some(ParseError::Unknown));
    assert_eq!(parse_input("getttl a b").err(), Some(ParseError::Unknown));
    assert_eq!(parse_input("GET a").err(), Some(ParseError::Unknown));
    assert_eq!(parse_input("frobnicate").err(), Some(ParseError::Unknown));
}

#[test]
fn messages_of_the_errors() {
    assert_eq!(ParseError::Empty.message(), None);
    assert_eq!(ParseError::SetUsage.message(), Some("Usage: set <key> <value> [--ttl <seconds>]"));
    assert_eq!(
        ParseError::Unknown.message(),
        Some("Unknown command. Type 'help' for available commands.")
    );
}

#[test]
fn numbers_are_read_as_std_reads_them() {
    assert_eq!(parse_number("0"), Some(0));
    assert_eq!(parse_number("42"), Some(42));
    assert_eq!(parse_number("+5"), Some(5));
    assert_eq!(parse_number("007"), Some(7));
    assert_eq!(parse_number("18446744073709551615"), Some(u64::MAX));
    assert_eq!(parse_number("18446744073709551616"), None);
    assert_eq!(parse_number("99999999999999999999999"), None);
    assert_eq!(parse_number(""), None);
    assert_eq!(parse_number("+"), None);
    assert_eq!(parse_number("++1"), None);
    assert_eq!(parse_number("-1"), None);
    assert_eq!(parse_number("1_0"), None);
    assert_eq!(parse_number("12a"), None);
    assert_eq!(parse_number("\u{ff15}"), None);
    for word in ["0", "+0", "1", "+", "", "-0", "123456789", "18446744073709551615", "184467440737095516150", "1e3", " 1", "1 ", "0x10", "\u{0661}"] {
        assert_eq!(parse_number(word), word.parse::<u64>().ok(), "{:?}", word);
    }
}

#[test]
fn words_are_split_as_std_splits_them() {
    assert_eq!(split_words("a b"), vec!["a", "b"]);
    assert_eq!(split_words("  a   b  "), vec!["a", "b"]);
    assert_eq!(split_words(""), Vec::<String>::new());
    assert_eq!(split_words(" \n\t"), Vec::<String>::new());
    assert_eq!(split_words("single"), vec!["single"]);
    for line in [
        "",
        " ",
        "a",
        " a",
        "a ",
        "set k v --ttl 5\n",
        "\u{2003}wide\u{2003}space\u{3000}and\u{a0}nbsp\u{85}nel",
        "z\u{200b}w j",
        "\u{1F600} emoji \u{e9}t\u{e9}",
        "tab\there\rthere\x0bv\x0cf",
        "\u{1680}\u{2028}x\u{2029}\u{202f}y\u{205f}",
    ] {
        let expected: Vec<String> = line.split_whitespace().map(|word| word.to_string()).collect();
        assert_eq!(split_words(line), expected, "{:?}", line);
    }
}

#[test]
fn white_space_is_what_std_calls_white_space() {
    for code in 0..=0x10FFFFu32 {
        if let Some(c) = char::from_u32(code) {
            assert_eq!(is_space_char(c), c.is_whitespace(), "U+{:04X}", code);
        }
    }
}

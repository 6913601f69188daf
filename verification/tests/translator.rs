use matthiashihic::errors::ParseError;
use matthiashihic::escape::escape_rust_string;
use matthiashihic::parser::parse_matthiashihic;
use matthiashihic::placeholder::process_placeholders;

#[test]
fn header_and_terminator_only_parse_to_nothing() {
    let (code, args) = parse_matthiashihic("hihi!\neat that java!").unwrap();
    assert_eq!(code, "");
    assert_eq!(args, Vec::<usize>::new());
}

#[test]
fn single_statement_scenario() {
    let src = "hihi!\n\"say hello\"\neat that java!\n";
    let (code, args) = parse_matthiashihic(src).unwrap();
    assert_eq!(code, "say hello");
    assert_eq!(args, Vec::<usize>::new());
}

#[test]
fn two_statement_scenario_with_placeholders() {
    let src = "hihi!\n\"add €1 and €2\"\n\"then double it\"\neat that java!\n";
    let (code, args) = parse_matthiashihic(src).unwrap();
    assert_eq!(code, "add {ARG_1} and {ARG_2}\nthen double it");
    assert_eq!(args, vec![1, 2]);
}

#[test]
fn escaped_quote_decodes() {
    let src = "hihi!\n\"a\\\"b\"\neat that java!";
    let (code, _) = parse_matthiashihic(src).unwrap();
    assert_eq!(code, "a\"b");
}

#[test]
fn escaped_newline_decodes() {
    let src = "hihi!\n\"x\\ny\"\neat that java!";
    let (code, _) = parse_matthiashihic(src).unwrap();
    assert_eq!(code, "x\ny");
}

#[test]
fn unknown_escape_keeps_character() {
    let src = "hihi!\n\"a\\qb\\tc\"\neat that java!";
    let (code, _) = parse_matthiashihic(src).unwrap();
    assert_eq!(code, "aqb\tc");
}

#[test]
fn blank_lines_and_trailing_text_are_ignored() {
    let src = "\n\n  hihi!  \n\n\"one\"\n\n  eat that java!  \nthis is a comment\n\"not parsed\n";
    let (code, args) = parse_matthiashihic(src).unwrap();
    assert_eq!(code, "one");
    assert_eq!(args, Vec::<usize>::new());
}

#[test]
fn carriage_returns_are_stripped() {
    let src = "hihi!\r\n\"x\"\r\neat that java!\r\n";
    let (code, _) = parse_matthiashihic(src).unwrap();
    assert_eq!(code, "x");
}

#[test]
fn empty_source_is_missing_header() {
    assert_eq!(
        parse_matthiashihic("").unwrap_err(),
        ParseError::MissingHeader { source_empty: true }
    );
    assert_eq!(
        parse_matthiashihic("  \n\t\n").unwrap_err(),
        ParseError::MissingHeader { source_empty: true }
    );
}

#[test]
fn wrong_first_line_is_missing_header() {
    assert_eq!(
        parse_matthiashihic("hello!\neat that java!").unwrap_err(),
        ParseError::MissingHeader { source_empty: false }
    );
}

#[test]
fn missing_terminator_fails() {
    let src = "hihi!\n\"one\"\n\"two\"\n";
    assert_eq!(
        parse_matthiashihic(src).unwrap_err(),
        ParseError::MissingTerminator
    );
    assert_eq!(
        parse_matthiashihic("hihi!").unwrap_err(),
        ParseError::MissingTerminator
    );
}

#[test]
fn unquoted_statement_is_rejected_with_line_number() {
    let src = "hihi!\nsay hello\neat that java!";
    assert_eq!(
        parse_matthiashihic(src).unwrap_err(),
        ParseError::ExpectedStringStatement {
            line: 2,
            content: String::from("say hello"),
        }
    );
}

#[test]
fn unterminated_string_is_rejected() {
    let src = "hihi!\n\"no closing quote\neat that java!";
    assert_eq!(
        parse_matthiashihic(src).unwrap_err(),
        ParseError::UnterminatedString {
            line: 2,
            content: String::from("\"no closing quote"),
        }
    );
}

#[test]
fn trailing_characters_are_rejected() {
    let src = "hihi!\n\"ok\" junk\neat that java!";
    assert_eq!(
        parse_matthiashihic(src).unwrap_err(),
        ParseError::TrailingCharacters {
            line: 2,
            trailing: String::from(" junk"),
        }
    );
}

#[test]
fn zero_index_fails_regardless_of_surrounding_text() {
    let src = "hihi!\n\"left €0 right\"\neat that java!";
    assert_eq!(
        parse_matthiashihic(src).unwrap_err(),
        ParseError::ZeroArgumentIndex
    );
    let bare = "hihi!\n\"€0\"\neat that java!";
    assert_eq!(
        parse_matthiashihic(bare).unwrap_err(),
        ParseError::ZeroArgumentIndex
    );
}

#[test]
fn oversized_index_fails() {
    let src = "hihi!\n\"€99999999999999999999999999\"\neat that java!";
    assert_eq!(
        parse_matthiashihic(src).unwrap_err(),
        ParseError::InvalidArgumentIndex {
            digits: String::from("99999999999999999999999999"),
        }
    );
}

#[test]
fn resolver_rewrites_and_collects() {
    let mut args: Vec<usize> = Vec::new();
    let text = process_placeholders("€1 and €€1", &mut args).unwrap();
    assert_eq!(text, "{ARG_1} and €1");
    assert_eq!(args, vec![1]);
}

#[test]
fn resolver_is_idempotent_on_the_same_text() {
    let mut args: Vec<usize> = Vec::new();
    let first = process_placeholders("use €2, €10 and €2", &mut args).unwrap();
    let after_first = args.clone();
    let second = process_placeholders("use €2, €10 and €2", &mut args).unwrap();
    assert_eq!(first, second);
    assert_eq!(args, after_first);
    assert_eq!(args, vec![2, 10]);
}

#[test]
fn lone_marker_is_kept_literally() {
    let mut args: Vec<usize> = Vec::new();
    assert_eq!(process_placeholders("a€b", &mut args).unwrap(), "a€b");
    assert_eq!(process_placeholders("end€", &mut args).unwrap(), "end€");
    assert!(args.is_empty());
}

#[test]
fn multi_digit_index_uses_maximal_run() {
    let mut args: Vec<usize> = Vec::new();
    let text = process_placeholders("€12x", &mut args).unwrap();
    assert_eq!(text, "{ARG_12}x");
    assert_eq!(args, vec![12]);
}

#[test]
fn zero_prefixed_run_is_its_numeric_value() {
    let mut args: Vec<usize> = Vec::new();
    let text = process_placeholders("€01", &mut args).unwrap();
    assert_eq!(text, "{ARG_1}");
    assert_eq!(args, vec![1]);
}

#[test]
fn resolver_zero_index_error() {
    let mut args: Vec<usize> = Vec::new();
    assert_eq!(
        process_placeholders("€0", &mut args).unwrap_err(),
        ParseError::ZeroArgumentIndex
    );
    assert!(args.is_empty());
}

#[test]
fn indices_are_sorted_and_deduplicated() {
    let src = "hihi!\n\"€3 then €1\"\n\"€2 then €3\"\neat that java!";
    let (_, args) = parse_matthiashihic(src).unwrap();
    assert_eq!(args, vec![1, 2, 3]);
}

#[test]
fn escape_rust_string_escapes_every_special() {
    assert_eq!(
        escape_rust_string("a\\b\"c\nd\re\tf"),
        "a\\\\b\\\"c\\nd\\re\\tf"
    );
    assert_eq!(escape_rust_string("plain"), "plain");
    assert_eq!(escape_rust_string(""), "");
}

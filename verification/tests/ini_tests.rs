use indexmap::IndexMap;
use ini_parser::{IniError, Parser};

fn content(name: &str) -> String {
    let text = match name {
        "valid" => "[owner]\nname=John\norganization = threefold\n\n[database]\nserver = 192.0.2.62\nport = 143\npassword = 123456\nprotected = true\nversion = 12.6",
        "valid_comment" => ";comment",
        "valid_empty" => "",
        "invalid" => "[owner]\n--",
        "invalid_section" => "[[owner]",
        "invalid_unclosed_section" => "[owner\nkey=val\n",
        "invalid_unopened_section" => "owner]\nkey=val\n",
        "invalid_no_equal" => "[owner]\nkey_value",
        "invalid_no_value" => "[owner]\nkey_value=",
        "invalid_no_key" => "[owner]\n=nkey_value",
        "invalid_more_than_one_equal" => "[owner]\nkey==val",
        "invalid_no_sections" => "",
        "invalid_no_options" => "[owner]",
        _ => unreachable!(),
    };
    String::from(text)
}

fn get_float(parser: &mut Parser, section_key: &str, option_key: &str) -> Result<f64, String> {
    let option = parser
        .get_option(section_key, option_key)
        .map_err(|e| e.message())?;
    option
        .parse::<f64>()
        .map_err(|_| format!("option {} is not supported as a float", option))
}

#[test]
fn valid_test() {
    let mut parser: Parser = Parser::new();
    let content = content("valid");
    assert!(!parser.from_string(content).is_err());
}

#[test]
fn valid_comment_test() {
    let mut parser: Parser = Parser::new();
    let content = content("valid_comment");
    assert!(!parser.from_string(content).is_err());
}

#[test]
fn valid_empty_test() {
    let mut parser: Parser = Parser::new();
    let content = content("valid_empty");
    assert!(!parser.from_string(content).is_err());
}

#[test]
fn values_test() {
    let mut parser: Parser = Parser::new();

    let content = content("valid");
    assert!(!parser.from_string(content).is_err());

    let option = parser.get_option("owner", "name").unwrap();
    assert_eq!(option, "John");

    let option = parser.get_option("owner", "organization").unwrap();
    assert_eq!(option, "threefold");

    let option = parser.get_option("database", "server").unwrap();
    assert_eq!(option, "192.0.2.62");

    let option = parser.get_option("database", "port").unwrap();
    assert_eq!(option, "143");

    let option = parser.get_option("database", "password").unwrap();
    assert_eq!(option, "123456");

    let option = parser.get_option("database", "protected").unwrap();
    assert_eq!(option, "true");

    let option = parser.get_option("database", "version").unwrap();
    assert_eq!(option, "12.6");

    let option = parser.get_bool("database", "protected").unwrap();
    assert!(option);

    let option = parser.get_int("database", "port").unwrap();
    assert_eq!(option, 143);

    let option = get_float(&mut parser, "database", "port").unwrap();
    assert_eq!(option, 143.0);

    let option = parser.get_int("database", "password").unwrap();
    assert_eq!(option, 123456);

    let option = get_float(&mut parser, "database", "version").unwrap();
    assert_eq!(option, 12.6);
}

#[test]
fn parsed_sections_test() {
    let mut parser: Parser = Parser::new();

    let content = content("valid");
    assert!(!parser.from_string(content).is_err());

    let got = parser.get_sections();
    let want = ["owner", "database"];
    assert_eq!(got, want);
}

#[test]
fn parsed_section_test() {
    let mut parser: Parser = Parser::new();

    let content = content("valid");
    assert!(!parser.from_string(content).is_err());

    let got = parser.get_section("owner").unwrap();
    let mut want = IndexMap::new();
    want.insert(String::from("name"), String::from("John"));
    want.insert(String::from("organization"), String::from("threefold"));
    assert_eq!(got, want);
}

#[test]
fn parsed_options_test() {
    let mut parser: Parser = Parser::new();

    let content = content("valid");
    assert!(!parser.from_string(content).is_err());

    let got = parser.get_options("owner").unwrap();
    let want = ["name", "organization"];
    assert_eq!(got, want);
}

#[test]
fn set_option_test() {
    let mut parser: Parser = Parser::new();

    let content = content("valid");
    assert!(!parser.from_string(content).is_err());

    assert!(!parser.set_option("owner", "name", "Rawda").is_err());

    let option = parser.get_option("owner", "name").unwrap();
    assert_eq!(option, "Rawda");
}

#[test]
fn parsed_map_test() {
    let mut parser: Parser = Parser::new();

    let content: String = content("valid");

    assert!(!parser.from_string(content).is_err());
    let parsed = parser.parsed_map();

    let test_parsed_str = parser.string();
    assert!(!parser.from_string(test_parsed_str).is_err());
    let test_parsed_dict = parser.parsed_map();

    assert_eq!(test_parsed_dict, parsed);
}

#[test]
fn set_option_no_option_test() {
    let mut parser: Parser = Parser::new();

    let content: String = content("valid");
    assert!(!parser.from_string(content).is_err());

    assert!(!parser.set_option("owner", "age", "30").is_err());

    let option = parser.get_option("owner", "age").unwrap();
    assert_eq!(option, "30");
}

#[test]
fn no_sections_test() {
    let mut parser: Parser = Parser::new();

    let content: String = content("invalid_no_sections");
    assert!(!parser.from_string(content).is_err());

    let got = parser.get_sections();
    assert_eq!(got.len(), 0);
}

#[test]
fn no_options_test() {
    let mut parser: Parser = Parser::new();

    let content: String = content("invalid_no_options");
    assert!(!parser.from_string(content).is_err());

    let got = parser.get_options("owner").unwrap();
    assert_eq!(got.len(), 0);
}

#[test]
fn invalid_test() {
    let mut parser: Parser = Parser::new();

    let content: String = content("invalid");
    assert!(parser.from_string(content).is_err());
}

#[test]
fn invalid_section_test() {
    let mut parser: Parser = Parser::new();

    let content: String = content("invalid_section");
    assert!(parser.from_string(content).is_err());
}

#[test]
fn invalid_unclosed_section_test() {
    let mut parser: Parser = Parser::new();

    let content: String = content("invalid_unclosed_section");
    assert!(parser.from_string(content).is_err());
}

#[test]
fn invalid_unopened_section_test() {
    let mut parser: Parser = Parser::new();

    let content: String = content("invalid_unopened_section");
    assert!(parser.from_string(content).is_err());
}

#[test]
fn invalid_no_equal_test() {
    let mut parser: Parser = Parser::new();

    let content: String = content("invalid_no_equal");
    assert!(parser.from_string(content).is_err());
}

#[test]
fn invalid_no_value_test() {
    let mut parser: Parser = Parser::new();

    let content: String = content("invalid_no_value");
    assert!(parser.from_string(content).is_err());
}

#[test]
fn invalid_no_key_test() {
    let mut parser: Parser = Parser::new();

    let content: String = content("invalid_no_key");
    assert!(parser.from_string(content).is_err());
}

#[test]
fn invalid_more_than_one_equal_test() {
    let mut parser: Parser = Parser::new();

    let content: String = content("invalid_more_than_one_equal");
    assert!(parser.from_string(content).is_err());
}

#[test]
fn wrong_section_test() {
    let mut parser: Parser = Parser::new();

    let content: String = content("valid");
    assert!(!parser.from_string(content).is_err());

    assert!(parser.get_section("owners").is_err());
}

#[test]
fn wrong_option_test() {
    let mut parser: Parser = Parser::new();

    let content: String = content("valid");
    assert!(!parser.from_string(content).is_err());

    assert!(parser.get_option("owner", "server").is_err());
}

#[test]
fn wrong_bool_test() {
    let mut parser: Parser = Parser::new();

    let content: String = content("valid");
    assert!(!parser.from_string(content).is_err());

    assert!(parser.get_bool("owner", "server").is_err());
}

#[test]
fn wrong_int_test() {
    let mut parser: Parser = Parser::new();

    let content: String = content("valid");
    assert!(!parser.from_string(content).is_err());

    assert!(parser.get_int("owner", "server").is_err());
}

#[test]
fn wrong_float_test() {
    let mut parser: Parser = Parser::new();

    let content: String = content("valid");
    assert!(!parser.from_string(content).is_err());

    assert!(get_float(&mut parser, "owner", "server").is_err());
}

#[test]
fn error_type_is_comparable() {
    assert_eq!(IniError::InvalidContent, IniError::InvalidContent);
    assert_ne!(IniError::InvalidContent, IniError::InvalidSection);
}

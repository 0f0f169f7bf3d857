use ini_parser::error::IniError;
use ini_parser::ini::{to_bool, to_int, Parser};
use ini_parser::render::{is_whitespace, trimmed};
use ini_parser::chars::count_char;
use ini_parser::scan::{classify_line, Line};
use ini_parser::text::{parse_u64, to_chars};

const SAMPLE: &str = "[owner]\nname=John\norganization = threefold\n\n[database]\nserver = 192.0.2.62\nport = 143\nprotected = true\nversion = 12.6";

fn read(text: &str) -> Parser {
    let mut parser = Parser::new();
    assert_eq!(parser.from_string(String::from(text)), Ok(()));
    parser
}

fn read_error(text: &str) -> IniError {
    let mut parser = Parser::new();
    let error = parser.from_string(String::from(text)).unwrap_err();
    assert_eq!(parser.get_sections().len(), 0);
    error
}

fn chars(text: &str) -> Vec<char> {
    text.chars().collect()
}

#[test]
fn round_trip_gives_the_same_document() {
    let mut parser = read(SAMPLE);
    let before = parser.parsed_map();
    let text = parser.string();
    let mut again = Parser::new();
    assert_eq!(again.from_string(text), Ok(()));
    assert_eq!(again.parsed_map(), before);
    assert_eq!(again.get_sections(), parser.get_sections());
    assert_eq!(
        again.get_options("database").unwrap(),
        parser.get_options("database").unwrap()
    );
}

#[test]
fn writing_twice_gives_the_same_text() {
    let mut parser = read(SAMPLE);
    let first = parser.string();
    let mut again = read(&first);
    assert_eq!(again.string(), first);
}

#[test]
fn canonical_text_is_exact() {
    let mut parser = read(SAMPLE);
    assert_eq!(
        parser.string(),
        "[owner]\nname = John\norganization = threefold\n\n[database]\nserver = 192.0.2.62\nport = 143\nprotected = true\nversion = 12.6"
    );
}

#[test]
fn canonical_text_of_nothing_is_empty() {
    let mut parser = Parser::new();
    assert_eq!(parser.string(), "");
}

#[test]
fn canonical_text_of_sections_without_options() {
    let mut parser = read("[a]\n[b]");
    assert_eq!(parser.string(), "[a]\n\n[b]");
}

#[test]
fn white_space_at_the_end_of_the_last_value_is_not_written() {
    let mut parser = read("[s]\na=b\t");
    assert_eq!(parser.get_option("s", "a").unwrap(), "b\t");
    let text = parser.string();
    assert_eq!(text, "[s]\na = b");
    let mut again = read(&text);
    assert_eq!(again.get_option("s", "a").unwrap(), "b");
    assert_eq!(again.string(), text);
}

#[test]
fn a_last_value_of_white_space_alone_cannot_be_read_back() {
    let mut parser = read("[s]\na=\t");
    let text = parser.string();
    assert_eq!(text, "[s]\na =");
    assert_eq!(read_error(&text), IniError::InvalidContent);
}

#[test]
fn sections_come_in_order_of_first_mention() {
    let mut parser = read("[b]\nx=1\n[a]\ny=2\n[b]\nz=3\n[c]");
    assert_eq!(parser.get_sections(), ["b", "a", "c"]);
    assert_eq!(parser.get_options("b").unwrap(), ["x", "z"]);
    assert_eq!(parser.get_options("a").unwrap(), ["y"]);
    assert_eq!(parser.get_options("c").unwrap().len(), 0);
}

#[test]
fn options_come_in_order_of_first_mention() {
    let mut parser = read("[s]\nb=1\na=2\nb=3\nc=4");
    assert_eq!(parser.get_options("s").unwrap(), ["b", "a", "c"]);
    assert_eq!(parser.get_option("s", "b").unwrap(), "3");
    assert_eq!(parser.string(), "[s]\nb = 3\na = 2\nc = 4");
}

#[test]
fn set_option_keeps_a_key_in_place_and_appends_a_new_one() {
    let mut parser = read("[s]\nb=1\na=2\n[t]\nk=v");
    assert_eq!(parser.set_option("s", "b", "9"), Ok(()));
    assert_eq!(parser.set_option("s", "z", "8"), Ok(()));
    assert_eq!(parser.get_sections(), ["s", "t"]);
    assert_eq!(parser.get_options("s").unwrap(), ["b", "a", "z"]);
    assert_eq!(parser.get_option("s", "b").unwrap(), "9");
    assert_eq!(parser.get_option("s", "a").unwrap(), "2");
    assert_eq!(parser.get_option("s", "z").unwrap(), "8");
    assert_eq!(parser.get_option("t", "k").unwrap(), "v");
}

#[test]
fn set_option_needs_its_section() {
    let mut parser = read(SAMPLE);
    let before = parser.parsed_map();
    assert_eq!(
        parser.set_option("owners", "name", "x"),
        Err(IniError::SectionNotFound {
            section: String::from("owners")
        })
    );
    assert_eq!(parser.parsed_map(), before);
    assert_eq!(parser.get_sections(), ["owner", "database"]);
}

#[test]
fn empty_text_has_no_sections() {
    let mut parser = read("");
    assert_eq!(parser.get_sections().len(), 0);
    assert_eq!(parser.parsed_map().len(), 0);
}

#[test]
fn a_header_alone_is_an_empty_section() {
    let mut parser = read("[owner]");
    assert_eq!(parser.get_sections(), ["owner"]);
    assert_eq!(parser.get_options("owner").unwrap().len(), 0);
    assert_eq!(parser.get_section("owner").unwrap().len(), 0);
}

#[test]
fn values_are_read_as_given() {
    let mut parser = read(SAMPLE);
    assert_eq!(parser.get_option("owner", "name").unwrap(), "John");
    assert_eq!(parser.get_option("database", "port").unwrap(), "143");
    assert_eq!(parser.get_int("database", "port"), Ok(143));
    assert_eq!(parser.get_bool("database", "protected"), Ok(true));
}

#[test]
fn malformed_text_is_refused() {
    assert_eq!(read_error("[[owner]"), IniError::InvalidSection);
    assert_eq!(read_error("[owner]\nkey_value"), IniError::InvalidContent);
    assert_eq!(read_error("[owner]\nkey==val"), IniError::InvalidContent);
    assert_eq!(read_error("[owner]\n--"), IniError::InvalidContent);
    assert_eq!(read_error("[owner]]"), IniError::InvalidSection);
    assert_eq!(read_error("[a[b]"), IniError::InvalidSection);
    assert_eq!(read_error("[a]b"), IniError::InvalidContent);
    assert_eq!(read_error("["), IniError::InvalidContent);
    assert_eq!(read_error("]"), IniError::InvalidContent);
    assert_eq!(read_error("key=val"), IniError::InvalidContent);
    assert_eq!(read_error("[s]\n=val"), IniError::InvalidContent);
    assert_eq!(read_error("[s]\nkey="), IniError::InvalidContent);
    assert_eq!(read_error("[s]\n key=val"), IniError::InvalidContent);
    assert_eq!(read_error("[s]\nkey=val "), IniError::InvalidContent);
}

#[test]
fn the_first_bad_line_decides() {
    assert_eq!(read_error("[s]\nbad\n[[t]"), IniError::InvalidContent);
    assert_eq!(read_error("[s]\n[[t]\nbad"), IniError::InvalidSection);
}

#[test]
fn a_line_of_white_space_is_not_blank() {
    assert_eq!(read_error("[s]\n   \nk=v"), IniError::InvalidContent);
    assert_eq!(read_error(" "), IniError::InvalidContent);
    assert_eq!(read_error("\t"), IniError::InvalidContent);
}

#[test]
fn line_ends_of_either_kind_are_taken_off() {
    let mut parser = read("[s]\r\nk=v\r\n\r\n[t]\r\n");
    assert_eq!(parser.get_sections(), ["s", "t"]);
    assert_eq!(parser.get_option("s", "k").unwrap(), "v");
    let mut bare = read("[s]\n\r\nk=v\r");
    assert_eq!(bare.get_option("s", "k").unwrap(), "v");
    let mut inside = read("[s]\na\rb=c\rd");
    assert_eq!(inside.get_option("s", "ab").unwrap(), "cd");
}

#[test]
fn blank_lines_and_a_last_line_feed_change_nothing() {
    let mut parser = read("\n\n[s]\n\nk=v\n\n\n");
    assert_eq!(parser.get_sections(), ["s"]);
    assert_eq!(parser.get_options("s").unwrap(), ["k"]);
}

#[test]
fn comments_are_passed_over() {
    let mut parser = read(";first\n[s]\n;second\nk=v\n;");
    assert_eq!(parser.get_sections(), ["s"]);
    assert_eq!(parser.get_options("s").unwrap(), ["k"]);
    let mut before = read(";a=b");
    assert_eq!(before.get_sections().len(), 0);
}

#[test]
fn an_option_is_looked_for_before_a_comment() {
    let mut parser = read("[s]\n;a=b");
    assert_eq!(parser.get_options("s").unwrap(), [";a"]);
    assert_eq!(parser.get_option("s", ";a").unwrap(), "b");
}

#[test]
fn the_separator_takes_both_spaces_or_none() {
    let mut parser = read("[s]\na = b\nc=d\ne =f\ng= h\ni  =  j");
    assert_eq!(
        parser.get_options("s").unwrap(),
        ["a", "c", "e ", "g", "i "]
    );
    assert_eq!(parser.get_option("s", "a").unwrap(), "b");
    assert_eq!(parser.get_option("s", "c").unwrap(), "d");
    assert_eq!(parser.get_option("s", "e ").unwrap(), "f");
    assert_eq!(parser.get_option("s", "g").unwrap(), " h");
    assert_eq!(parser.get_option("s", "i ").unwrap(), " j");
    let text = parser.string();
    assert_eq!(text, "[s]\na = b\nc = d\ne  = f\ng =  h\ni  =  j");
    let mut again = read(&text);
    assert_eq!(again.parsed_map(), parser.parsed_map());
}

#[test]
fn headers_carry_any_name_without_brackets() {
    let mut parser = read("[]\n[a=b]\n[ x y ]\n[;c]");
    assert_eq!(parser.get_sections(), ["", "a=b", " x y ", ";c"]);
    assert_eq!(parser.string(), "[]\n\n[a=b]\n\n[ x y ]\n\n[;c]");
}

#[test]
fn text_beyond_ascii_is_read() {
    let mut parser = read("[é]\nclé=valeur ü\nü = ñ");
    assert_eq!(parser.get_sections(), ["é"]);
    assert_eq!(parser.get_option("é", "clé").unwrap(), "valeur ü");
    assert_eq!(parser.get_option("é", "ü").unwrap(), "ñ");
    assert_eq!(parser.string(), "[é]\nclé = valeur ü\nü = ñ");
    assert_eq!(read_error("[é"), IniError::InvalidContent);
    assert_eq!(read_error("[s]\né"), IniError::InvalidContent);
}

#[test]
fn a_failed_read_leaves_no_document() {
    let mut parser = read(SAMPLE);
    assert_eq!(
        parser.from_string(String::from("[s]\nk=v\nbad")),
        Err(IniError::InvalidContent)
    );
    assert_eq!(parser.get_sections().len(), 0);
    assert_eq!(parser.string(), "");
}

#[test]
fn a_read_replaces_the_document() {
    let mut parser = read(SAMPLE);
    assert_eq!(parser.from_string(String::from("[s]\nk=v")), Ok(()));
    assert_eq!(parser.get_sections(), ["s"]);
}

#[test]
fn lookups_name_what_is_missing() {
    let mut parser = read(SAMPLE);
    assert_eq!(
        parser.get_section("owners"),
        Err(IniError::SectionNotFound {
            section: String::from("owners")
        })
    );
    assert_eq!(
        parser.get_options("owners"),
        Err(IniError::SectionNotFound {
            section: String::from("owners")
        })
    );
    assert_eq!(
        parser.get_option("owners", "name"),
        Err(IniError::SectionNotFound {
            section: String::from("owners")
        })
    );
    assert_eq!(
        parser.get_option("owner", "server"),
        Err(IniError::OptionNotFound {
            section: String::from("owner"),
            option: String::from("server")
        })
    );
    assert_eq!(
        parser.get_bool("owner", "server"),
        Err(IniError::OptionNotFound {
            section: String::from("owner"),
            option: String::from("server")
        })
    );
    assert_eq!(
        parser.get_int("nowhere", "port"),
        Err(IniError::SectionNotFound {
            section: String::from("nowhere")
        })
    );
}

#[test]
fn names_are_case_sensitive() {
    let mut parser = read("[S]\nk=1\nK=2\n[s]");
    assert_eq!(parser.get_sections(), ["S", "s"]);
    assert_eq!(parser.get_options("S").unwrap(), ["k", "K"]);
    assert_eq!(parser.get_options("s").unwrap().len(), 0);
}

#[test]
fn booleans_are_eight_words() {
    for word in ["true", "True", "yes", "1"] {
        assert_eq!(to_bool(String::from(word)), Ok(true));
    }
    for word in ["false", "False", "no", "0"] {
        assert_eq!(to_bool(String::from(word)), Ok(false));
    }
    for word in ["TRUE", "maybe", "", " true", "true ", "Yes", "No", "10", "on", "off"] {
        assert_eq!(
            to_bool(String::from(word)),
            Err(IniError::NotBool {
                value: String::from(word)
            })
        );
    }
}

#[test]
fn a_value_that_is_no_boolean_is_an_error() {
    let mut parser = read("[s]\nflag=maybe\nname=John");
    assert_eq!(
        parser.get_bool("s", "flag"),
        Err(IniError::NotBool {
            value: String::from("maybe")
        })
    );
    assert_eq!(
        parser.get_bool("s", "name"),
        Err(IniError::NotBool {
            value: String::from("John")
        })
    );
}

#[test]
fn numbers_are_read_as_the_standard_library_reads_them() {
    let samples = [
        "0",
        "7",
        "143",
        "123456",
        "+5",
        "007",
        "18446744073709551615",
        "18446744073709551616",
        "99999999999999999999999",
        "+18446744073709551615",
        "",
        "+",
        "-",
        "-1",
        "-0",
        "++1",
        "1 ",
        " 1",
        "12a",
        "1_000",
        "1.5",
        "0x10",
        "١٢٣",
        "１２",
    ];
    for text in samples {
        assert_eq!(parse_u64(text), text.parse::<u64>().ok(), "{}", text);
    }
    assert_eq!(parse_u64("143"), Some(143));
    assert_eq!(parse_u64("18446744073709551615"), Some(u64::MAX));
    assert_eq!(parse_u64("18446744073709551616"), None);
    assert_eq!(parse_u64("-1"), None);
}

#[test]
fn a_value_that_is_no_number_is_an_error() {
    assert_eq!(to_int(String::from("42")), Ok(42));
    assert_eq!(
        to_int(String::from("-42")),
        Err(IniError::NotInt {
            value: String::from("-42")
        })
    );
    let mut parser = read("[s]\nn=12.6");
    assert_eq!(
        parser.get_int("s", "n"),
        Err(IniError::NotInt {
            value: String::from("12.6")
        })
    );
}

#[test]
fn errors_are_worded() {
    assert_eq!(
        IniError::InvalidSection.message(),
        "invalid section! please make sure that you have one '[' and one ']'"
    );
    assert_eq!(IniError::InvalidContent.message(), "invalid ini content");
    assert_eq!(
        IniError::SectionNotFound {
            section: String::from("owners")
        }
        .message(),
        "section owners does not exist"
    );
    assert_eq!(
        IniError::OptionNotFound {
            section: String::from("owner"),
            option: String::from("server")
        }
        .message(),
        "option server does not exist in section owner"
    );
    assert_eq!(
        IniError::NotBool {
            value: String::from("maybe")
        }
        .message(),
        "option maybe is not supported as a boolean"
    );
    assert_eq!(
        IniError::NotInt {
            value: String::from("x")
        }
        .message(),
        "option x is not supported as an integer"
    );
}

#[test]
fn white_space_is_what_the_standard_library_calls_so() {
    let mut code: u32 = 0;
    while code <= 0x10ffff {
        if let Some(c) = char::from_u32(code) {
            assert_eq!(is_whitespace(c), c.is_whitespace(), "{:x}", code);
        }
        code += 1;
    }
}

#[test]
fn trimming_takes_white_space_off_the_end_only() {
    assert_eq!(trimmed(""), "");
    assert_eq!(trimmed(" \n\t"), "");
    assert_eq!(trimmed("  a b \n\n"), "  a b");
    assert_eq!(trimmed("a\u{a0}\u{3000}\u{2028}"), "a");
    assert_eq!(trimmed("a\u{200b}"), "a\u{200b}");
    for text in ["x y  ", "\n", "é \r\n", "a\u{85}", "a\u{1680}b "] {
        assert_eq!(trimmed(text), text.trim_end());
    }
}

#[test]
fn characters_go_in_and_out_of_strings() {
    let cs = to_chars("aé=ü]");
    assert_eq!(cs, ['a', 'é', '=', 'ü', ']']);
    assert_eq!(to_chars("").len(), 0);
    assert_eq!(trimmed("aé=ü] "), "aé=ü]");
    assert_eq!(
        classify_line(&to_chars("[é=ü]"), false),
        Line::Header {
            name: String::from("é=ü")
        }
    );
}

#[test]
fn occurrences_are_counted() {
    let cs = chars("a=b\nc==d");
    assert_eq!(count_char(&cs, '='), 3);
    assert_eq!(count_char(&cs, '\n'), 1);
    assert_eq!(count_char(&cs, 'z'), 0);
    assert_eq!(count_char(&chars(""), '='), 0);
}

#[test]
fn lines_are_told_apart() {
    assert_eq!(classify_line(&chars(""), true), Line::Blank);
    assert_eq!(
        classify_line(&chars("[owner]"), false),
        Line::Header {
            name: String::from("owner")
        }
    );
    assert_eq!(classify_line(&chars("[[owner]"), true), Line::BadHeader);
    assert_eq!(
        classify_line(&chars("a = b"), true),
        Line::Pair {
            key: String::from("a"),
            value: String::from("b")
        }
    );
    assert_eq!(
        classify_line(&chars("a=b"), true),
        Line::Pair {
            key: String::from("a"),
            value: String::from("b")
        }
    );
    assert_eq!(classify_line(&chars("a=b"), false), Line::BadContent);
    assert_eq!(classify_line(&chars(";a=b"), false), Line::Comment);
    assert_eq!(classify_line(&chars(";"), true), Line::Comment);
    assert_eq!(classify_line(&chars(" "), true), Line::BadContent);
    assert_eq!(classify_line(&chars("a"), true), Line::BadContent);
}

#[test]
fn a_new_parser_and_a_default_one_are_empty() {
    let mut fresh = Parser::new();
    assert_eq!(fresh.get_sections().len(), 0);
    let mut default = Parser::default();
    assert_eq!(default.get_sections().len(), 0);
    assert_eq!(default.parsed_map().len(), 0);
}

#[test]
fn copies_do_not_follow_later_changes() {
    let mut parser = read("[s]\nk=v");
    let section = parser.get_section("s").unwrap();
    let map = parser.parsed_map();
    assert_eq!(parser.set_option("s", "k", "w"), Ok(()));
    assert_eq!(section.get("k").unwrap(), "v");
    assert_eq!(map.get("s").unwrap().get("k").unwrap(), "v");
    assert_eq!(parser.get_option("s", "k").unwrap(), "w");
}

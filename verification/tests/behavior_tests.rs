use gerbil_ini::Ini;
use gerbil_ini::IniMode;
use gerbil_ini::IniParsingError;

#[test]
fn empty_input_is_empty_document() {
    let ini = Ini::parse("", IniMode::Simple).unwrap();
    assert_eq!(ini.section_count(), 0);
    assert!(ini.get_section("anything").is_none());

    let ini_trimmed = Ini::parse("", IniMode::SimpleTrimmed).unwrap();
    assert_eq!(ini_trimmed.section_count(), 0);
}

#[test]
fn whitespace_and_comment_lines_are_skipped() {
    let ini = Ini::parse("\n   \t\n; c\n# c\n[A]\nk=v\n", IniMode::Simple).unwrap();
    assert_eq!(ini.section_count(), 1);
    assert_eq!(ini.get_section("A").unwrap().get("k"), Some("v"));
}

#[test]
fn duplicate_section_fails_at_second_header() {
    let err = Ini::parse("[A]\nk=1\n[A]\n", IniMode::Simple).unwrap_err();
    assert_eq!(
        err,
        IniParsingError::DuplicateSection { line_number: 3, section: "A".to_string() }
    );
}

#[test]
fn duplicate_key_fails_at_second_occurrence() {
    let err = Ini::parse("[A]\nk=1\nk=2\n", IniMode::Simple).unwrap_err();
    assert_eq!(
        err,
        IniParsingError::DuplicateSectionKey {
            line_number: 3,
            section: "A".to_string(),
            key: "k".to_string(),
        }
    );
}

#[test]
fn same_key_in_two_sections_is_fine() {
    let ini = Ini::parse("[A]\nk=1\n[B]\nk=2\n", IniMode::Simple).unwrap();
    assert_eq!(ini.get_section("A").unwrap().get("k"), Some("1"));
    assert_eq!(ini.get_section("B").unwrap().get("k"), Some("2"));
}

#[test]
fn key_value_before_any_section_fails() {
    let err = Ini::parse("k=v", IniMode::Simple).unwrap_err();
    assert_eq!(err, IniParsingError::ExpectedSectionTitle { line_number: 1 });
}

#[test]
fn missing_equals_fails() {
    let err = Ini::parse("[A]\nno delimiter here\n", IniMode::Simple).unwrap_err();
    assert_eq!(err, IniParsingError::MissingEquals { line_number: 2 });
}

#[test]
fn unclosed_section_header_fails() {
    let err = Ini::parse("[A\nk=v\n", IniMode::Simple).unwrap_err();
    assert_eq!(err, IniParsingError::BrokenSectionTitle { line_number: 1 });
}

#[test]
fn concrete_scenario_two_sections() {
    let text = "[My Section]\nsome KEY=This is a value!\nanotherkey=This is yet another value!\n[Another Section]\nyourkey=This is a value!\n";
    let ini = Ini::parse(text, IniMode::Simple).unwrap();
    assert_eq!(ini.section_count(), 2);
    assert_eq!(ini.get_section("My Section").unwrap().get("some KEY"), Some("This is a value!"));
    assert_eq!(ini.get_section("Another Section").unwrap().get("yourkey"), Some("This is a value!"));
    assert!(ini.get_section("Missing").is_none());
}

#[test]
fn trimmed_mode_strips_around_equals() {
    let text = "[S]\nsome KEY = This is a value!\n";

    let trimmed = Ini::parse(text, IniMode::SimpleTrimmed).unwrap();
    let s = trimmed.get_section("S").unwrap();
    assert_eq!(s.get("some KEY"), Some("This is a value!"));
    assert!(s.get("some KEY ").is_none());

    let plain = Ini::parse(text, IniMode::Simple).unwrap();
    let s = plain.get_section("S").unwrap();
    assert_eq!(s.get("some KEY "), Some(" This is a value!"));
    assert!(s.get("some KEY").is_none());
}

#[test]
fn first_equals_wins_in_both_modes() {
    for mode in [IniMode::Simple, IniMode::SimpleTrimmed] {
        let ini = Ini::parse("[S]\na=b=c\n", mode).unwrap();
        assert_eq!(ini.get_section("S").unwrap().get("a"), Some("b=c"));
    }
}

#[test]
fn comment_needs_first_column() {
    // A comment delimiter after leading whitespace does not make a comment:
    // the line is an ordinary key/value line.
    let ini = Ini::parse("[A]\n  ;c=v\n", IniMode::Simple).unwrap();
    assert_eq!(ini.get_section("A").unwrap().get("  ;c"), Some("v"));

    let err = Ini::parse("[A]\n  ; just a note\n", IniMode::Simple).unwrap_err();
    assert_eq!(err, IniParsingError::MissingEquals { line_number: 2 });
}

#[test]
fn header_content_after_bracket_is_ignored() {
    let ini = Ini::parse("[A] trailing junk\nk=v\n", IniMode::Simple).unwrap();
    assert_eq!(ini.get_section("A").unwrap().get("k"), Some("v"));
    assert!(ini.get_section("A] trailing junk").is_none());
}

#[test]
fn empty_section_name_and_empty_key_and_value() {
    let ini = Ini::parse("[]\n=v\nk=\n", IniMode::Simple).unwrap();
    let s = ini.get_section("").unwrap();
    assert_eq!(s.get(""), Some("v"));
    assert_eq!(s.get("k"), Some(""));
}

#[test]
fn crlf_line_endings_parse_like_lf() {
    let a = Ini::parse("[A]\r\nk=v\r\n", IniMode::Simple).unwrap();
    let b = Ini::parse("[A]\nk=v\n", IniMode::Simple).unwrap();
    assert_eq!(a, b);
    assert_eq!(a.get_section("A").unwrap().get("k"), Some("v"));
}

#[test]
fn values_are_stored_verbatim() {
    let ini = Ini::parse("[A]\nk=  spaced out  \n", IniMode::Simple).unwrap();
    assert_eq!(ini.get_section("A").unwrap().get("k"), Some("  spaced out  "));
}

#[test]
fn parse_is_deterministic() {
    let text = "[A]\nk=v\n[B]\nx=y\n";
    let first = Ini::parse(text, IniMode::Simple).unwrap();
    let second = Ini::parse(text, IniMode::Simple).unwrap();
    assert_eq!(first, second);

    let bad = "[A]\n[A]\n";
    assert_eq!(
        Ini::parse(bad, IniMode::Simple).unwrap_err(),
        Ini::parse(bad, IniMode::Simple).unwrap_err()
    );
}

#[test]
fn lookups_are_idempotent() {
    let ini = Ini::parse("[A]\nk=v\n", IniMode::Simple).unwrap();
    let s1 = ini.get_section("A").unwrap();
    let s2 = ini.get_section("A").unwrap();
    assert_eq!(s1, s2);
    assert_eq!(s1.get("k"), s1.get("k"));
    assert_eq!(s1.get("k"), Some("v"));
    assert_eq!(s1.get("missing"), None);
    assert_eq!(s1.get("missing"), s2.get("missing"));
}

#[test]
fn modes_agree_without_padding() {
    let text = "[A]\nk=v\n[B]\nx=y z\n";
    let plain = Ini::parse(text, IniMode::Simple).unwrap();
    let trimmed = Ini::parse(text, IniMode::SimpleTrimmed).unwrap();
    assert_eq!(plain, trimmed);
}

#[test]
fn error_messages_carry_line_and_names() {
    let e = Ini::parse("[A]\nnope\n", IniMode::Simple).unwrap_err();
    assert_eq!(e.message(), "2: Missing an `=` to separate the key and value");

    let e = Ini::parse("k=v\n", IniMode::Simple).unwrap_err();
    assert_eq!(e.message(), "1: Expected a section title");

    let e = Ini::parse("[A\n", IniMode::Simple).unwrap_err();
    assert_eq!(e.message(), "1: Expected a `]` to close a `[`");

    let e = Ini::parse("[A]\n[A]\n", IniMode::Simple).unwrap_err();
    assert_eq!(e.message(), "2: Duplicate section `A`");

    let e = Ini::parse("[A]\nk=1\nk=2\n", IniMode::Simple).unwrap_err();
    assert_eq!(e.message(), "3: Duplicate key `k` in section `A`");
}

#[test]
fn error_messages_render_larger_line_numbers() {
    let mut text = String::new();
    for _ in 0..12 {
        text.push('\n');
    }
    text.push_str("k=v\n");
    let e = Ini::parse(&text, IniMode::Simple).unwrap_err();
    assert_eq!(e.message(), "13: Expected a section title");
}

#[test]
fn default_values_are_empty() {
    let ini = gerbil_ini::Ini::default();
    assert_eq!(ini.section_count(), 0);
    assert_eq!(ini, Ini::parse("", IniMode::Simple).unwrap());

    let section = gerbil_ini::IniSection::default();
    assert_eq!(section.len(), 0);
    assert_eq!(section.get("k"), None);
}

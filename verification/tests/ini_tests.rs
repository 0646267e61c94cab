use gerbil_ini::Ini;
use gerbil_ini::IniMode;

const SIMPLE_TEST_INI: &str = r#"
; This is a comment.
# This is also a comment.

[My Section]
; Here's a value
some KEY=This is a value!

; Here's another value
anotherkey=This is yet another value!

;commented out=this value isn't real :(

[Another Section]
yourkey=This is a value!
some KEY=This, too, is a value!
anotherkey=//Wow Look At Me I'm A Value\\
"#;

const SIMPLE_TRIMMED_TEST_INI: &str = r#"
; This is a comment.
# This is also a comment.

[My Section]
; Here's a value
some KEY = This is a value!

; Here's another value
anotherkey = This is yet another value!

;commented out = this value isn't real :(

[Another Section]
yourkey = This is a value!
some KEY = This, too, is a value!
anotherkey = //Wow Look At Me I'm A Value\\
"#;

#[test]
fn simple_ini_parse_test() {
    let ini = Ini::parse(SIMPLE_TEST_INI, IniMode::Simple).unwrap();

    assert_eq!(ini.section_count(), 2);

    let my_section = ini.get_section("My Section").unwrap();
    assert_eq!(my_section.len(), 2);
    assert_eq!(my_section.get("some KEY"), Some("This is a value!"));
    assert_eq!(my_section.get("anotherkey"), Some("This is yet another value!"));

    let another_section = ini.get_section("Another Section").unwrap();
    assert_eq!(another_section.len(), 3);
    assert_eq!(another_section.get("yourkey"), Some("This is a value!"));
    assert_eq!(another_section.get("some KEY"), Some("This, too, is a value!"));
    assert_eq!(another_section.get("anotherkey"), Some(r#"//Wow Look At Me I'm A Value\\"#));
}

#[test]
fn simple_ini_parse_trimmed_test() {
    let ini = Ini::parse(SIMPLE_TEST_INI, IniMode::Simple).unwrap();
    let ini_trimmed = Ini::parse(SIMPLE_TRIMMED_TEST_INI, IniMode::SimpleTrimmed).unwrap();
    assert_eq!(ini, ini_trimmed);
}

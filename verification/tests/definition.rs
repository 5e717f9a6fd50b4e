use movie::actor;
use movie::definition::ActorDefinition;
use movie::definition::parse_tick_interval;
use movie::parser::ParseError;
use movie::parser::parse;

fn chars(s: &str) -> Vec<char> {
    s.chars().collect()
}

fn translate(s: &str) -> Result<ActorDefinition, ParseError> {
    let t = chars(s);
    actor(&t)
}

#[test]
fn test_pipeline_minimal() {
    let d = translate("A input: Ping, on_message: Ping => noop,").unwrap();
    assert_eq!(chars("A"), d.name);
    assert_eq!(chars("Ping,"), d.input);
    assert_eq!(chars("Ping => noop,"), d.on_message);
    assert_eq!(100, d.tick_interval);
    assert!(!d.public_visibility);
    assert_eq!(chars("std::thread::spawn"), d.spawner);
    assert_eq!(chars("std::thread::JoinHandle<()>"), d.spawner_return_type);
}

#[test]
fn test_tick_interval_with_trailing_comma() {
    let d = translate("A input: P, on_message: P => (), tick_interval: 5,").unwrap();
    assert_eq!(5, d.tick_interval);
}

#[test]
fn test_tick_interval_comma_after_space() {
    // the tokenized form separates the digits and the comma
    let d = translate("A input: P, on_message: P => (), tick_interval: 250 ,").unwrap();
    assert_eq!(250, d.tick_interval);
}

#[test]
fn test_tick_interval_invalid() {
    assert_eq!(
        Err(ParseError::InvalidTickInterval),
        translate("A input: P, on_message: P => (), tick_interval: soon,").map(|_| ())
    );
}

#[test]
fn test_tick_interval_overflow() {
    assert_eq!(
        Err(ParseError::InvalidTickInterval),
        translate("A input: P, on_message: P => (), tick_interval: 99999999999999999999,").map(
            |_| ()
        )
    );
}

#[test]
fn test_tick_interval_largest() {
    let d = translate("A input: P, on_message: P => (), tick_interval: 18446744073709551615,")
        .unwrap();
    assert_eq!(u64::MAX, d.tick_interval);
}

#[test]
fn test_parse_tick_interval_exact_values() {
    assert_eq!(Some(0), parse_tick_interval(&chars("0")));
    assert_eq!(Some(100), parse_tick_interval(&chars("100")));
    assert_eq!(Some(7), parse_tick_interval(&chars("7,")));
    assert_eq!(None, parse_tick_interval(&chars("")));
    assert_eq!(None, parse_tick_interval(&chars(",")));
    assert_eq!(None, parse_tick_interval(&chars("5,,")));
    assert_eq!(None, parse_tick_interval(&chars("1x2")));
}

#[test]
fn test_public_visibility_flag() {
    let d = translate("A public_visibility: true, input: P, on_message: P => (),").unwrap();
    assert!(d.public_visibility);
    let d2 = translate("A public_visibility: false, input: P, on_message: P => (),").unwrap();
    assert!(!d2.public_visibility);
    let d3 = translate("A input: P, on_message: P => (),").unwrap();
    assert!(!d3.public_visibility);
}

#[test]
fn test_parse_errors_come_before_tick_errors() {
    let t = chars("A tick_interval: soon,");
    assert_eq!(
        Err(ParseError::MissingRequiredSection(movie::keywords::Keyword::Input)),
        actor(&t).map(|_| ())
    );
}

#[test]
fn test_opaque_fragments_pass_through() {
    let d = translate(
        "Stream input: ChangeSource(String), SendState, data: pub device: String, on_init: let mut n = 0; on_message: SendState => (), custom_code: pub const X: u8 = 0;",
    )
    .unwrap();
    assert_eq!(chars("ChangeSource(String), SendState,"), d.input);
    assert_eq!(chars("pub device: String,"), d.data);
    assert_eq!(chars("let mut n = 0;"), d.on_init);
    assert_eq!(chars("SendState => (),"), d.on_message);
    assert_eq!(chars("pub const X: u8 = 0;"), d.custom_code);
    // the parser never interprets the fragments
    let m = parse(&chars("A input: P, on_message: P => (),")).unwrap();
    assert_eq!(chars("P,"), m.input);
}

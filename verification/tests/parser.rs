use movie::keywords::Keyword;
use movie::parser::ParseError;
use movie::parser::parse;

fn chars(s: &str) -> Vec<char> {
    s.chars().collect()
}

fn text(s: &str) -> String {
    s.chars().collect()
}

#[test]
fn test_scenario_minimal() {
    let t = chars("A input: Ping, on_message: Ping => noop,");
    let m = parse(&t).unwrap();
    assert_eq!(text("A"), m.name.iter().collect::<String>());
    assert_eq!(chars("Ping,"), m.input);
    assert_eq!(chars("Ping => noop,"), m.on_message);
    assert_eq!(chars(""), m.public_visibility);
    assert_eq!(chars(""), m.docs);
    assert_eq!(chars(""), m.input_derive);
    assert_eq!(chars(""), m.data);
    assert_eq!(chars(""), m.on_init);
    assert_eq!(chars("100"), m.tick_interval);
    assert_eq!(chars(""), m.on_tick);
    assert_eq!(chars(""), m.on_stop);
    assert_eq!(chars("std::thread::spawn"), m.spawner);
    assert_eq!(chars("std::thread::JoinHandle<()>"), m.spawner_return_type);
    assert_eq!(chars(""), m.custom_code);
}

#[test]
fn test_required_only_gets_defaults() {
    let t = chars("Worker input: Job(u64), on_message: Job(n) => (),");
    let m = parse(&t).unwrap();
    assert_eq!(chars("100"), m.tick_interval);
    assert_eq!(chars("std::thread::spawn"), m.spawner);
    assert_eq!(chars("std::thread::JoinHandle<()>"), m.spawner_return_type);
    assert_eq!(chars(""), m.docs);
    assert_eq!(chars(""), m.data);
    assert_eq!(chars(""), m.on_init);
    assert_eq!(chars(""), m.on_tick);
    assert_eq!(chars(""), m.on_stop);
    assert_eq!(chars(""), m.custom_code);
    assert_eq!(chars(""), m.input_derive);
    assert_eq!(chars(""), m.public_visibility);
}

#[test]
fn test_order_independence_of_optional_sections() {
    let a = chars("W input: P, data: x: u64, on_tick: x += 1; tick_interval: 7, on_message: P => (),");
    let b = chars("W tick_interval: 7, on_message: P => (), on_tick: x += 1; input: P, data: x: u64,");
    let ma = parse(&a).unwrap();
    let mb = parse(&b).unwrap();
    assert_eq!(ma.name, mb.name);
    assert_eq!(ma.public_visibility, mb.public_visibility);
    assert_eq!(ma.docs, mb.docs);
    assert_eq!(ma.input, mb.input);
    assert_eq!(ma.input_derive, mb.input_derive);
    assert_eq!(ma.data, mb.data);
    assert_eq!(ma.on_init, mb.on_init);
    assert_eq!(ma.on_message, mb.on_message);
    assert_eq!(ma.tick_interval, mb.tick_interval);
    assert_eq!(ma.on_tick, mb.on_tick);
    assert_eq!(ma.on_stop, mb.on_stop);
    assert_eq!(ma.spawner, mb.spawner);
    assert_eq!(ma.spawner_return_type, mb.spawner_return_type);
    assert_eq!(ma.custom_code, mb.custom_code);
}

#[test]
fn test_round_trip_canonical_text() {
    let t = chars(
        "Parser input: Line(String), Flush, on_message: Line(l) => (), Flush => (), tick_interval: 5, on_tick: n += 1;",
    );
    let m = parse(&t).unwrap();
    let canon = movie::canon::canonical_text(&m);
    let m2 = parse(&canon).unwrap();
    assert_eq!(m.name, m2.name);
    assert_eq!(m.public_visibility, m2.public_visibility);
    assert_eq!(m.docs, m2.docs);
    assert_eq!(m.input, m2.input);
    assert_eq!(m.input_derive, m2.input_derive);
    assert_eq!(m.data, m2.data);
    assert_eq!(m.on_init, m2.on_init);
    assert_eq!(m.on_message, m2.on_message);
    assert_eq!(m.tick_interval, m2.tick_interval);
    assert_eq!(m.on_tick, m2.on_tick);
    assert_eq!(m.on_stop, m2.on_stop);
    assert_eq!(m.spawner, m2.spawner);
    assert_eq!(m.spawner_return_type, m2.spawner_return_type);
    assert_eq!(m.custom_code, m2.custom_code);
}

#[test]
fn test_canonical_text_exact() {
    let t = chars("A input: Ping, on_message: Ping => noop,");
    let m = parse(&t).unwrap();
    let canon: String = movie::canon::canonical_text(&m).iter().collect();
    // default-valued sections (tick interval 100, the spawner pair) are omitted
    assert_eq!("A\ninput: Ping,\non_message: Ping => noop,", canon);
}

#[test]
fn test_missing_input_section() {
    let t = chars("A on_message: Ping => (),");
    assert_eq!(
        Err(ParseError::MissingRequiredSection(Keyword::Input)),
        parse(&t).map(|_| ())
    );
}

#[test]
fn test_empty_input_section() {
    let t = chars("A input: on_message: Ping => (),");
    assert_eq!(
        Err(ParseError::MissingRequiredSection(Keyword::Input)),
        parse(&t).map(|_| ())
    );
}

#[test]
fn test_missing_on_message_section() {
    let t = chars("A input: Ping,");
    assert_eq!(
        Err(ParseError::MissingRequiredSection(Keyword::OnMessage)),
        parse(&t).map(|_| ())
    );
}

#[test]
fn test_unparseable_empty() {
    let t = chars("");
    assert_eq!(Err(ParseError::UnparseableInput), parse(&t).map(|_| ()));
}

#[test]
fn test_unparseable_whitespace_only() {
    let t = chars("  \n\t ");
    assert_eq!(Err(ParseError::UnparseableInput), parse(&t).map(|_| ()));
}

#[test]
fn test_unparseable_no_leading_name() {
    let t = chars("input: Ping, on_message: Ping => (),");
    assert_eq!(Err(ParseError::UnparseableInput), parse(&t).map(|_| ()));
}

#[test]
fn test_delimiter_whitespace_variants() {
    let t = chars("A input :\n Ping,\n on_message\n: Ping => (),\n tick_interval : 9,");
    let m = parse(&t).unwrap();
    assert_eq!(chars("Ping,"), m.input);
    assert_eq!(chars("Ping => (),"), m.on_message);
    assert_eq!(chars("9,"), m.tick_interval);
}

#[test]
fn test_first_positional_match_wins() {
    // A keyword delimiter spelled out inside another section's content is
    // indistinguishable from a real delimiter and ends that section there.
    let t = chars("A docs: about data : stuff input: P, on_message: P => (),");
    let m = parse(&t).unwrap();
    assert_eq!(chars("about"), m.docs);
    assert_eq!(chars("stuff"), m.data);
}

#[test]
fn test_keyword_inside_longer_word_is_no_delimiter() {
    // `input_derive` must not be segmented at its `input` prefix, and a word
    // merely containing a keyword is content.
    let t = chars("A input: P, input_derive: Debug, on_message: P => my_data : 1,");
    let m = parse(&t).unwrap();
    assert_eq!(chars("P,"), m.input);
    assert_eq!(chars("Debug,"), m.input_derive);
    assert_eq!(chars("P => my_data : 1,"), m.on_message);
    assert_eq!(chars(""), m.data);
}

#[test]
fn test_last_section_runs_to_end_of_input() {
    let t = chars("A input: P, on_message: P => () ; done");
    let m = parse(&t).unwrap();
    assert_eq!(chars("P => () ; done"), m.on_message);
}

use ca::grid::neighbourhood::NType;
use ca::parse::{parse_ca_string, ParsedCA};

#[test]
fn a_new_description_is_empty() {
    let parsed = ParsedCA::new();
    assert_eq!(parsed.name(), None);
    assert!(parsed.neighbourhoods().is_empty());
    assert_eq!(parsed.states(), None);
    assert_eq!(parsed.string(), None);
    assert_eq!(parsed.transitions(), None);
}

#[test]
fn each_part_of_a_description_is_set_alone() {
    let mut parsed = ParsedCA::new();
    parsed.set_name(Some("life"));
    assert_eq!(parsed.name(), Some("life"));
    assert_eq!(parsed.states(), None);
    parsed.set_neighbourhoods(vec![NType::Moore, NType::ManhattanDistance]);
    assert_eq!(parsed.neighbourhoods(), &[NType::Moore, NType::ManhattanDistance]);
    parsed.set_states(Some("alive dead"));
    assert_eq!(parsed.states(), Some("alive dead"));
    parsed.set_string(Some("text".to_string()));
    assert_eq!(parsed.string(), Some(&"text".to_string()));
    parsed.set_transitions(Some("alive -> dead"));
    assert_eq!(parsed.transitions(), Some("alive -> dead"));
    assert_eq!(parsed.name(), Some("life"));
    assert_eq!(parsed.neighbourhoods().len(), 2);
    parsed.set_name(None);
    parsed.set_string(None);
    assert_eq!(parsed.name(), None);
    assert_eq!(parsed.string(), None);
    assert_eq!(parsed.states(), Some("alive dead"));
    assert_eq!(parsed.transitions(), Some("alive -> dead"));
}

#[test]
fn parsing_keeps_the_text() {
    let parsed = parse_ca_string("name: life");
    assert_eq!(parsed.string(), Some(&"name: life".to_string()));
    assert_eq!(parsed.name(), None);
    assert!(parsed.neighbourhoods().is_empty());
    assert_eq!(parsed.states(), None);
    assert_eq!(parsed.transitions(), None);
    assert_eq!(parse_ca_string("").string(), Some(&String::new()));
}

#[test]
fn a_text_becomes_its_description() {
    let parsed = ParsedCA::from("states: a b".to_string());
    assert_eq!(parsed.string(), Some(&"states: a b".to_string()));
    assert_eq!(parsed.name(), None);
    assert!(parsed.neighbourhoods().is_empty());
    let parsed: ParsedCA = String::new().into();
    assert_eq!(parsed.string(), Some(&String::new()));
}

use chat_server::generator::{
    lists_have_fit, pick, random_name, usable_word_list, NameGenerator,
};
use chat_server::name_rules::valid_name;

fn adjectives() -> Vec<String> {
    vec![
        "Brave".to_string(),
        "Calm".to_string(),
        "Eager".to_string(),
        "Fuzzy".to_string(),
    ]
}

fn characters() -> Vec<String> {
    vec![
        "Otter".to_string(),
        "Tiger".to_string(),
        "Falcon".to_string(),
    ]
}

#[test]
fn word_lists_are_usable() {
    assert!(usable_word_list(&adjectives()));
    assert!(usable_word_list(&characters()));
    assert!(lists_have_fit(&adjectives(), &characters()));
    assert!(!usable_word_list(&Vec::new()));
    assert!(!usable_word_list(&vec!["not a name".to_string()]));
}

#[test]
fn generated_candidates_obey_the_name_rule() {
    let mut generator = NameGenerator::new(adjectives(), characters());
    for _ in 0..50 {
        let name = generator.next();
        let n = name.chars().count();
        assert!(
            (8..=18).contains(&n),
            "candidate {name} has length {n} outside 8..=18"
        );
        assert!(valid_name(Some(name.as_str())), "candidate {name} is invalid");
    }
}

#[test]
fn candidates_are_pairs_from_the_lists() {
    let mut generator = NameGenerator::new(adjectives(), characters());
    let adjs = adjectives();
    let chars = characters();
    for _ in 0..30 {
        let name = generator.next();
        let matched = adjs.iter().any(|a| {
            chars
                .iter()
                .any(|c| format!("{a}{c}") == name)
        });
        assert!(matched, "candidate {name} is not an adjective+character pair");
    }
}

#[test]
fn random_name_joins_with_a_space() {
    let name = random_name(&adjectives(), &characters());
    let parts: Vec<&str> = name.split(' ').collect();
    assert_eq!(parts.len(), 2);
    assert!(adjectives().iter().any(|a| a == parts[0]));
    assert!(characters().iter().any(|c| c == parts[1]));
}

#[test]
fn pick_returns_an_element() {
    let items = [3u32, 5, 8];
    let got = pick(&items);
    assert!(items.contains(&got));
}

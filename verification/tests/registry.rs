use chat_server::generator::NameGenerator;
use chat_server::name_rules::valid_name;
use chat_server::registry::Names;

#[test]
fn second_claim_of_a_name_fails_until_released() {
    let mut names = Names::new();
    assert!(names.insert("BraveOtter".to_string()));
    assert!(!names.insert("BraveOtter".to_string()));
    assert!(names.remove("BraveOtter"));
    assert!(names.insert("BraveOtter".to_string()));
}

#[test]
fn removing_an_unclaimed_name_reports_false() {
    let mut names = Names::new();
    assert!(!names.remove("Nobody"));
    assert_eq!(names.count(), 0);
}

#[test]
fn count_follows_claims() {
    let mut names = Names::new();
    assert!(names.insert("FirstUser".to_string()));
    assert!(names.insert("SecondUser".to_string()));
    assert_eq!(names.count(), 2);
    assert!(names.remove("FirstUser"));
    assert_eq!(names.count(), 1);
}

#[test]
fn get_unique_claims_distinct_valid_names() {
    let mut names = Names::new();
    let mut generator = NameGenerator::new(
        vec!["Brave".to_string(), "Calm".to_string()],
        vec!["Otter".to_string(), "Tiger".to_string()],
    );
    let a = names.get_unique(&mut generator);
    let b = names.get_unique(&mut generator);
    assert_ne!(a, b);
    assert!(valid_name(Some(a.as_str())));
    assert!(valid_name(Some(b.as_str())));
    assert!(!names.insert(a.clone()));
    assert!(!names.insert(b));
    assert_eq!(names.count(), 2);
}

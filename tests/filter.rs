use uniscan::filter::{EmptyFilter, ScriptFilter, TypeDescriptor};

fn ty(full: &str) -> TypeDescriptor {
    TypeDescriptor { full_name: full.to_string(), assembly: "Assembly-CSharp".to_string() }
}

#[test]
fn empty_filter_matches_everything() {
    let f = ScriptFilter::empty();
    assert!(f.matches(&ty("Foo")));
    assert!(f.matches(&ty("Some.Namespace.Bar")));
    assert!(f.matches(&ty("")));
}

#[test]
fn blank_filter_is_empty() {
    let f = ScriptFilter::new("   ");
    assert_eq!(f.text(), "");
    assert!(f.matches(&ty("Anything")));
    assert_eq!(f, ScriptFilter::empty());
}

#[test]
fn empty_filter_in_match_none_mode_matches_nothing() {
    let f = ScriptFilter::with_empty_mode("", EmptyFilter::MatchNone);
    assert!(!f.matches(&ty("Foo")));
    assert!(!f.matches(&ty("")));
}

#[test]
fn filter_text_is_trimmed_and_lower_cased() {
    let f = ScriptFilter::new("  HeroController\t\n");
    assert_eq!(f.text(), "herocontroller");
}

#[test]
fn short_filter_needs_exact_short_name() {
    let f = ScriptFilter::new("ab");
    assert!(f.matches(&ty("AB")));
    assert!(f.matches(&ty("Game.Ab")));
    assert!(!f.matches(&ty("Abc")));
    assert!(!f.matches(&ty("Crab")));
    assert!(!f.matches(&ty("ab.Other")));
}

#[test]
fn long_filter_matches_substring_of_full_name() {
    let f = ScriptFilter::new("Controller");
    assert!(f.matches(&ty("HeroController")));
    assert!(f.matches(&ty("UI.CONTROLLERS.Menu")));
    assert!(!f.matches(&ty("Hero")));
    let g = ScriptFilter::new("ui.me");
    assert!(g.matches(&ty("UI.Menu")));
}

#[test]
fn three_characters_switch_to_containment() {
    let f = ScriptFilter::new("foo");
    assert!(f.matches(&ty("Foo")));
    assert!(f.matches(&ty("MyFoolery")));
}

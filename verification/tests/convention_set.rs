use eel::engine::convention::convention_tech::ConventionTech;
use eel::engine::convention::hgroup::h_group_convention_set::HGroupConventionSet;

#[test]
fn techs_are_kept_in_priority_order() {
    let set = HGroupConventionSet::new(vec![
        ConventionTech::SimpleFinesse,
        ConventionTech::FiveSave,
        ConventionTech::DirectPlayClue,
        ConventionTech::SimplePrompt,
    ]);
    let names: Vec<&str> = set.techs().iter().map(|t| t.name()).collect();
    assert_eq!(names, vec!["FiveSave", "DirectPlayClue", "SimplePrompt", "SimpleFinesse"]);
}

#[test]
fn default_set_is_sorted_and_complete() {
    let set = HGroupConventionSet::default();
    let priorities: Vec<u8> = set.techs().iter().map(|t| t.interpretation_priority()).collect();
    assert!(priorities.windows(2).all(|w| w[0] <= w[1]));
    assert_eq!(set.techs().len(), 12);
    let fallback: Vec<&str> = set.fallback_techs().iter().map(|t| t.name()).collect();
    assert_eq!(fallback, vec!["FiveStall", "TempoClue", "ClueBurn", "LowLevelStall"]);
}

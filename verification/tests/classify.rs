use workplacesim::render::classify::{classify, lab_keywords, Room};

#[test]
fn every_keyword_triggers_lab() {
    for k in lab_keywords() {
        assert_eq!(classify(k, "", ""), Room::Lab, "agent_type {k}");
        assert_eq!(classify("", k, ""), Room::Lab, "description {k}");
    }
}

#[test]
fn substring_match_in_longer_text() {
    assert_eq!(classify("code-review-bot", "", ""), Room::Lab);
    assert_eq!(classify("", "runs the test suite", ""), Room::Lab);
    assert_eq!(classify("", "quick lint pass", ""), Room::Lab);
}

#[test]
fn case_insensitive() {
    assert_eq!(classify("QA", "", ""), Room::Lab);
    assert_eq!(classify("Qa", "", ""), Room::Lab);
    assert_eq!(classify("qa", "", ""), Room::Lab);
    assert_eq!(classify("TESTER", "", ""), Room::Lab);
    assert_eq!(classify("", "REVIEW me", ""), Room::Lab);
}

#[test]
fn plan_mode_routes_to_meeting() {
    assert_eq!(classify("helper", "", "plan"), Room::Meeting);
    assert_eq!(classify("", "", "plan"), Room::Meeting);
}

#[test]
fn default_is_desk() {
    assert_eq!(classify("", "", ""), Room::Desk);
    assert_eq!(classify("general-purpose", "", ""), Room::Desk);
    assert_eq!(classify("general-purpose", "", "acceptEdits"), Room::Desk);
}

#[test]
fn lab_keyword_wins_over_plan_mode() {
    assert_eq!(classify("review-bot", "", "plan"), Room::Lab);
    assert_eq!(classify("", "test harness", "plan"), Room::Lab);
}

#[test]
fn non_keyword_words_do_not_trigger() {
    assert_eq!(classify("planner", "", ""), Room::Desk);
    assert_eq!(classify("", "just thinking", ""), Room::Desk);
}

#[test]
fn keyword_split_across_type_and_description_does_not_match() {
    // The two texts are joined with a space, so "te" + "st" is no keyword.
    assert_eq!(classify("te", "st", ""), Room::Desk);
}

#[test]
fn capital_keywords_in_either_field_match() {
    assert_eq!(classify("VERIFIER", "", ""), Room::Lab);
    assert_eq!(classify("", "BENCH-runner", "plan"), Room::Lab);
}

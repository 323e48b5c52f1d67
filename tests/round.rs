use words_against_strangers::criteria::Criteron;
use words_against_strangers::round::{Round, WordResult};
use words_against_strangers::words::{PartsOfSpeech, SpeechTags, WordList};

fn list(ws: &[&str]) -> WordList {
    WordList::new(ws.iter().map(|w| w.to_string()).collect())
}

fn s(x: &str) -> String {
    x.to_string()
}

fn no_tags() -> SpeechTags {
    SpeechTags::none()
}

fn noun() -> SpeechTags {
    SpeechTags { noun: true, verb: false, adverb: false, adjective: false }
}

#[test]
fn unknown_words_are_invalid_and_use_nothing() {
    let l = list(&["teapot"]);
    let mut r = Round::with_criteria(&vec![1, 2], vec![Criteron::StartsWith(s("te"))]);
    assert_eq!(r.receive_word(&l, 1, s("tea"), Some(no_tags()), false), WordResult::Invalid);
    assert_eq!(r.use_count(&s("tea")), 0);
    assert_eq!(r.receive_word(&l, 1, s("teapot"), Some(no_tags()), false), WordResult::Scored);
}

#[test]
fn a_word_scores_floor_half_the_players_times() {
    let l = list(&["teapot"]);
    let players = vec![1, 2, 3, 4, 5];
    let mut r = Round::with_criteria(&players, vec![Criteron::StartsWith(s("te"))]);
    assert_eq!(r.receive_word(&l, 1, s("teapot"), Some(no_tags()), false), WordResult::Scored);
    assert_eq!(r.receive_word(&l, 2, s("teapot"), Some(no_tags()), false), WordResult::Scored);
    for p in [3, 4, 5, 1] {
        assert_eq!(r.receive_word(&l, p, s("teapot"), Some(no_tags()), false), WordResult::Blocked);
    }
    assert_eq!(r.use_count(&s("teapot")), 2);
}

#[test]
fn a_lone_player_is_always_blocked() {
    let l = list(&["teapot"]);
    let mut r = Round::with_criteria(&vec![7], vec![]);
    assert_eq!(r.receive_word(&l, 7, s("teapot"), Some(no_tags()), false), WordResult::Blocked);
    assert_eq!(r.use_count(&s("teapot")), 0);
}

#[test]
fn failing_words_still_take_slots() {
    let l = list(&["cup"]);
    let players = vec![1, 2, 3, 4];
    let mut r = Round::with_criteria(&players, vec![Criteron::PartOfSpeech(PartsOfSpeech::Noun)]);
    assert_eq!(r.receive_word(&l, 1, s("cup"), Some(no_tags()), false), WordResult::Invalid);
    assert_eq!(r.receive_word(&l, 2, s("cup"), Some(no_tags()), false), WordResult::Invalid);
    assert_eq!(r.use_count(&s("cup")), 2);
    assert_eq!(r.receive_word(&l, 3, s("cup"), Some(noun()), false), WordResult::Blocked);
}

#[test]
fn every_criterion_must_hold() {
    let l = list(&["teapot", "telephone", "tempo"]);
    let players = vec![1, 2, 3, 4, 5, 6];
    let mut r = Round::with_criteria(&players, vec![Criteron::StartsWith(s("te")), Criteron::MinLength(7)]);
    assert_eq!(r.receive_word(&l, 1, s("teapot"), Some(no_tags()), false), WordResult::Invalid);
    assert_eq!(r.receive_word(&l, 1, s("telephone"), Some(no_tags()), false), WordResult::Scored);
    assert_eq!(r.receive_word(&l, 2, s("tempo"), Some(no_tags()), false), WordResult::Invalid);
}

#[test]
fn points_are_one_per_scoring_word() {
    let l = list(&["teapot", "tent", "ten"]);
    let players = vec![10, 20, 30, 40];
    let mut r = Round::with_criteria(&players, vec![Criteron::StartsWith(s("te"))]);
    assert_eq!(r.receive_word(&l, 20, s("teapot"), Some(no_tags()), false), WordResult::Scored);
    assert_eq!(r.receive_word(&l, 20, s("tent"), Some(no_tags()), false), WordResult::Scored);
    assert_eq!(r.receive_word(&l, 40, s("ten"), Some(no_tags()), false), WordResult::Scored);
    assert_eq!(r.receive_word(&l, 10, s("cup"), Some(no_tags()), false), WordResult::Invalid);
    assert_eq!(r.end_round(), vec![0, 2, 0, 1]);
}

#[test]
fn criteria_are_listed_one_per_line() {
    let r = Round::with_criteria(&vec![1, 2], vec![Criteron::StartsWith(s("te")), Criteron::OfLength(6)]);
    assert_eq!(r.get_criteria_string(), "\n- Start with `te`\n- Are exactly `6` letters long");
    assert_eq!(Round::with_criteria(&vec![1], vec![]).get_criteria_string(), "");
}

#[test]
fn random_rounds_keep_the_players() {
    let r = Round::new(&vec![3, 1, 2]);
    assert_eq!(r.get_players(), &vec![3, 1, 2]);
    assert!(r.get_criteria().len() == 1 || r.get_criteria().len() == 2);
    assert_eq!(r.end_round(), vec![0, 0, 0]);
}

#[test]
fn bonus_words_score_two() {
    let l = list(&["teapot", "tent"]);
    let mut r = Round::with_criteria(&vec![1, 2], vec![Criteron::StartsWith(s("te"))]);
    assert_eq!(r.receive_word(&l, 1, s("teapot"), Some(no_tags()), true), WordResult::ScoredBonus);
    assert_eq!(r.receive_word(&l, 2, s("tent"), Some(no_tags()), false), WordResult::Scored);
    assert_eq!(r.end_round(), vec![2, 1]);
}

#[test]
fn a_missing_classifier_matters_only_when_asked() {
    let l = list(&["cup", "teapot"]);
    let players = vec![1, 2];
    let mut r = Round::with_criteria(&players, vec![Criteron::StartsWith(s("te")), Criteron::PartOfSpeech(PartsOfSpeech::Noun)]);
    assert_eq!(r.receive_word(&l, 1, s("cup"), None, false), WordResult::Invalid);
    assert_eq!(r.use_count(&s("cup")), 1);
    assert_eq!(r.receive_word(&l, 1, s("teapot"), None, false), WordResult::Invalid);
    assert_eq!(r.use_count(&s("teapot")), 0);
    assert_eq!(r.receive_word(&l, 1, s("teapot"), Some(noun()), false), WordResult::Scored);
    let mut plain = Round::with_criteria(&players, vec![Criteron::StartsWith(s("te"))]);
    assert_eq!(plain.receive_word(&l, 2, s("teapot"), None, false), WordResult::Scored);
}

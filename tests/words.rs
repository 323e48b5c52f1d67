use words_against_strangers::words::{
    deserves_bonus, is_part_of_speech, is_rhyme, is_word, PartsOfSpeech, SpeechTags, WordList,
};

fn list(ws: &[&str]) -> WordList {
    WordList::new(ws.iter().map(|w| w.to_string()).collect())
}

#[test]
fn parts_of_speech_have_names_and_options() {
    assert_eq!(PartsOfSpeech::Noun.to_string(), "noun");
    assert_eq!(PartsOfSpeech::Verb.to_string(), "verb");
    assert_eq!(PartsOfSpeech::Adverb.to_string(), "adverb");
    assert_eq!(PartsOfSpeech::Adjective.to_string(), "adjective");
    assert_eq!(PartsOfSpeech::Noun.wordpos_opt(), "-n");
    assert_eq!(PartsOfSpeech::Verb.wordpos_opt(), "-v");
    assert_eq!(PartsOfSpeech::Adverb.wordpos_opt(), "-r");
    assert_eq!(PartsOfSpeech::Adjective.wordpos_opt(), "-a");
}

#[test]
fn dictionary_lookup() {
    let l = list(&["cup", "teapot"]);
    assert!(is_word(&l, &"cup".to_string()));
    assert!(is_word(&l, &"teapot".to_string()));
    assert!(!is_word(&l, &"tea".to_string()));
    assert!(!is_word(&list(&[]), &"cup".to_string()));
}

#[test]
fn no_word_earns_a_bonus_yet() {
    assert!(!deserves_bonus(&"teapot".to_string()));
}

#[test]
fn rhyme_check() {
    assert!(is_rhyme(&"far".to_string(), &"tar".to_string()));
    assert!(!is_rhyme(&"run".to_string(), &"uphill".to_string()));
    assert!(!is_rhyme(&"".to_string(), &"far".to_string()));
}

#[test]
fn tags_answer_each_class() {
    let t = SpeechTags { noun: false, verb: true, adverb: false, adjective: true };
    assert!(!t.has(PartsOfSpeech::Noun));
    assert!(t.has(PartsOfSpeech::Verb));
    assert!(!t.has(PartsOfSpeech::Adverb));
    assert!(t.has(PartsOfSpeech::Adjective));
    assert!(!SpeechTags::none().has(PartsOfSpeech::Verb));
}

#[test]
fn wordpos_counts_words_holding_a_one() {
    assert!(is_part_of_speech("# -n\n1 1 0\n"));
    assert!(is_part_of_speech("header\r\n 10  01 0\r\n"));
    assert!(is_part_of_speech("h\n11 x1x"));
    assert!(!is_part_of_speech("h\n1 0 0\n"));
    assert!(!is_part_of_speech("h\n1 1 1\n"));
    assert!(!is_part_of_speech("h\n\n1 1\n"));
    assert!(!is_part_of_speech("1 1"));
    assert!(!is_part_of_speech("1 1\n"));
    assert!(!is_part_of_speech(""));
    assert!(is_part_of_speech("h\n1\u{a0}1"));
}

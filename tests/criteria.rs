use words_against_strangers::criteria::{
    assemble_criteria, contains, criterion_for, ends_with, generate_random_criteria, min_length, of_length,
    part_of_speech, rhymes_with, starts_with, Criteron,
};
use words_against_strangers::words::{PartsOfSpeech, SpeechTags};

fn s(x: &str) -> String {
    x.to_string()
}

fn no_tags() -> SpeechTags {
    SpeechTags::none()
}

#[test]
fn starts_with_checks_the_front() {
    let c = starts_with();
    assert_eq!(c, Criteron::StartsWith(s("te")));
    assert!(c.test(&s("teapot"), &no_tags()));
    assert!(c.test(&s("te"), &no_tags()));
    assert!(!c.test(&s("pottery"), &no_tags()));
    assert!(!c.test(&s("t"), &no_tags()));
    assert!(!c.test(&s(""), &no_tags()));
}

#[test]
fn ends_with_checks_the_back() {
    let c = ends_with();
    assert_eq!(c, Criteron::EndsWith(s("ge")));
    assert!(c.test(&s("orange"), &no_tags()));
    assert!(!c.test(&s("general"), &no_tags()));
    assert!(!c.test(&s("e"), &no_tags()));
}

#[test]
fn contains_finds_the_middle() {
    let c = contains();
    assert_eq!(c, Criteron::Contains(s("on")));
    assert!(c.test(&s("bonus"), &no_tags()));
    assert!(c.test(&s("on"), &no_tags()));
    assert!(c.test(&s("lemon"), &no_tags()));
    assert!(!c.test(&s("nose"), &no_tags()));
    assert!(!c.test(&s(""), &no_tags()));
}

#[test]
fn lengths_count_letters() {
    let exact = Criteron::OfLength(6);
    assert!(exact.test(&s("teapot"), &no_tags()));
    assert!(!exact.test(&s("teapots"), &no_tags()));
    let least = Criteron::MinLength(8);
    assert!(least.test(&s("elephant"), &no_tags()));
    assert!(least.test(&s("elephants"), &no_tags()));
    assert!(!least.test(&s("giraffe"), &no_tags()));
}

#[test]
fn drawn_lengths_stay_in_range() {
    for _ in 0..200 {
        match of_length() {
            Criteron::OfLength(n) => assert!((6..=10).contains(&n)),
            other => panic!("unexpected {:?}", other),
        }
        match min_length() {
            Criteron::MinLength(n) => assert!((8..=11).contains(&n)),
            other => panic!("unexpected {:?}", other),
        }
    }
}

#[test]
fn part_of_speech_reads_the_tags() {
    let c = part_of_speech();
    assert_eq!(c, Criteron::PartOfSpeech(PartsOfSpeech::Noun));
    let noun = SpeechTags { noun: true, verb: false, adverb: false, adjective: false };
    let verb = SpeechTags { noun: false, verb: true, adverb: false, adjective: false };
    assert!(c.test(&s("cup"), &noun));
    assert!(!c.test(&s("run"), &verb));
    assert!(Criteron::PartOfSpeech(PartsOfSpeech::Verb).test(&s("run"), &verb));
}

#[test]
fn rhymes_go_by_sound() {
    assert!(Criteron::RhymesWith(s("tar")).test(&s("far"), &no_tags()));
    assert!(Criteron::RhymesWith(s("near")).test(&s("here"), &no_tags()));
    assert!(!Criteron::RhymesWith(s("cart")).test(&s("shopping"), &no_tags()));
    assert!(!Criteron::RhymesWith(s("finally")).test(&s(""), &no_tags()));
    assert_eq!(rhymes_with(), Criteron::RhymesWith(s("finally")));
}

#[test]
fn descriptions_read_as_sentences() {
    assert_eq!(starts_with().to_string(), "Start with `te`");
    assert_eq!(ends_with().to_string(), "End with `ge`");
    assert_eq!(contains().to_string(), "Contain `on`");
    assert_eq!(Criteron::OfLength(7).to_string(), "Are exactly `7` letters long");
    assert_eq!(Criteron::MinLength(10).to_string(), "Are at least `10` letters long");
    assert_eq!(rhymes_with().to_string(), "Rhyme with \"`finally`\"");
    assert_eq!(part_of_speech().to_string(), "Are `noun`s");
    assert_eq!(Criteron::PartOfSpeech(PartsOfSpeech::Adjective).to_string(), "Are `adjective`s");
}

#[test]
fn ending_beside_rhyme_leaves_the_rhyme_alone() {
    assert_eq!(assemble_criteria(1, ends_with(), Some(rhymes_with())), vec![rhymes_with()]);
}

#[test]
fn one_draw_keeps_the_primary_alone() {
    assert_eq!(assemble_criteria(0, ends_with(), None), vec![ends_with()]);
    assert_eq!(assemble_criteria(0, starts_with(), None), vec![starts_with()]);
}

#[test]
fn count_draw_picks_one_or_two() {
    assert_eq!(assemble_criteria(0, starts_with(), None), vec![starts_with()]);
    assert_eq!(
        assemble_criteria(1, starts_with(), Some(Criteron::OfLength(7))),
        vec![starts_with(), Criteron::OfLength(7)]
    );
    assert_eq!(assemble_criteria(1, ends_with(), Some(part_of_speech())), vec![ends_with(), part_of_speech()]);
    assert_eq!(assemble_criteria(1, contains(), Some(rhymes_with())), vec![contains(), rhymes_with()]);
}

#[test]
fn draws_map_to_criteria() {
    assert_eq!(criterion_for(true, 0, 0), Criteron::StartsWith(s("te")));
    assert_eq!(criterion_for(true, 1, 0), Criteron::EndsWith(s("ge")));
    assert_eq!(criterion_for(true, 2, 0), Criteron::Contains(s("on")));
    assert_eq!(criterion_for(false, 0, 7), Criteron::OfLength(7));
    assert_eq!(criterion_for(false, 1, 9), Criteron::MinLength(9));
    assert_eq!(criterion_for(false, 2, 0), Criteron::RhymesWith(s("finally")));
    assert_eq!(criterion_for(false, 3, 0), Criteron::PartOfSpeech(PartsOfSpeech::Noun));
}

fn is_primary(c: &Criteron) -> bool {
    matches!(c, Criteron::StartsWith(_) | Criteron::EndsWith(_) | Criteron::Contains(_))
}

#[test]
fn generated_criteria_are_one_or_two() {
    for _ in 0..500 {
        let cs = generate_random_criteria();
        assert!(cs.len() == 1 || cs.len() == 2);
        if cs.len() == 1 {
            assert!(is_primary(&cs[0]) || matches!(cs[0], Criteron::RhymesWith(_)));
        } else {
            assert!(is_primary(&cs[0]));
            assert!(!is_primary(&cs[1]));
            assert!(!(matches!(cs[0], Criteron::EndsWith(_)) && matches!(cs[1], Criteron::RhymesWith(_))));
        }
    }
}

#[test]
fn drawn_lengths_vary() {
    let mut seen = std::collections::BTreeSet::new();
    for _ in 0..300 {
        if let Criteron::OfLength(n) = of_length() {
            seen.insert(n);
        }
    }
    assert!(seen.len() > 1);
}

#[test]
fn generator_draws_every_kind_and_both_counts() {
    let mut ones = 0;
    let mut twos = 0;
    let (mut starts, mut ends, mut inside) = (0, 0, 0);
    for _ in 0..2000 {
        let cs = generate_random_criteria();
        if cs.len() == 1 {
            ones += 1;
        } else {
            twos += 1;
        }
        match cs[0] {
            Criteron::StartsWith(_) => starts += 1,
            Criteron::EndsWith(_) => ends += 1,
            Criteron::Contains(_) => inside += 1,
            _ => {},
        }
    }
    assert!(ones > 0 && twos > 0);
    assert!(starts > 0 && ends > 0 && inside > 0);
}

use words_against_strangers::criteria::Criteron;
use words_against_strangers::game::{generate_rounds, GameError, GameState, WordsAgainstStrangers, NUM_ROUNDS};
use words_against_strangers::round::WordResult;
use words_against_strangers::words::{SpeechTags, WordList};

const ALICE: u64 = 1001;
const BOB: u64 = 1002;
const CAROL: u64 = 1003;

fn list(ws: &[&str]) -> WordList {
    WordList::new(ws.iter().map(|w| w.to_string()).collect())
}

fn te_rounds(n: usize) -> Vec<Vec<Criteron>> {
    (0..n).map(|_| vec![Criteron::StartsWith("te".to_string())]).collect()
}

fn tags() -> Option<SpeechTags> {
    Some(SpeechTags::none())
}

#[test]
fn alice_and_bob_play_teapot() {
    let words = list(&["teapot", "cup"]);
    let mut g = WordsAgainstStrangers::new(5, ALICE);
    assert_eq!(g.get_players(), &vec![ALICE]);
    assert_eq!(g.add_player(BOB), Ok(()));
    assert_eq!(g.get_players(), &vec![ALICE, BOB]);
    assert_eq!(g.start_with_criteria(ALICE, te_rounds(NUM_ROUNDS)), Ok(()));
    assert_eq!(g.get_state(), GameState::BetweenRounds);
    assert_eq!(g.begin_round(), Ok(()));
    assert_eq!(g.receive_word(&words, BOB, "teapot".to_string(), tags(), false), Ok(WordResult::Scored));
    assert_eq!(g.receive_word(&words, BOB, "teapot".to_string(), tags(), false), Ok(WordResult::Blocked));
    assert_eq!(g.receive_word(&words, ALICE, "cup".to_string(), tags(), false), Ok(WordResult::Invalid));
    assert_eq!(g.get_current_round().use_count(&"cup".to_string()), 1);
    assert_eq!(g.end_round(), Ok(()));
    assert_eq!(g.get_scores(), &vec![0, 1]);
}

#[test]
fn joining_only_while_starting() {
    let mut g = WordsAgainstStrangers::new(5, ALICE);
    assert_eq!(g.add_player(ALICE), Err(GameError::AlreadyJoined));
    assert_eq!(g.add_player(BOB), Ok(()));
    assert_eq!(g.start_with_criteria(ALICE, te_rounds(NUM_ROUNDS)), Ok(()));
    assert_eq!(g.add_player(CAROL), Err(GameError::WrongPhase));
    assert_eq!(g.get_players(), &vec![ALICE, BOB]);
}

#[test]
fn only_the_host_starts_and_only_once() {
    let mut g = WordsAgainstStrangers::new(5, ALICE);
    g.add_player(BOB).unwrap();
    assert_eq!(g.start(BOB), Err(GameError::NotHost));
    assert_eq!(g.get_state(), GameState::Starting);
    assert_eq!(g.start(ALICE), Ok(()));
    assert_eq!(g.get_state(), GameState::BetweenRounds);
    assert_eq!(g.get_round_index(), 0);
    assert_eq!(g.start(ALICE), Err(GameError::WrongPhase));
}

#[test]
fn words_only_during_play() {
    let words = list(&["teapot"]);
    let mut g = WordsAgainstStrangers::new(5, ALICE);
    g.add_player(BOB).unwrap();
    assert_eq!(g.receive_word(&words, BOB, "teapot".to_string(), tags(), false), Err(GameError::WrongPhase));
    g.start_with_criteria(ALICE, te_rounds(NUM_ROUNDS)).unwrap();
    assert_eq!(g.receive_word(&words, BOB, "teapot".to_string(), tags(), false), Err(GameError::WrongPhase));
    g.begin_round().unwrap();
    assert_eq!(g.receive_word(&words, CAROL, "teapot".to_string(), tags(), false), Err(GameError::NotAPlayer));
    assert_eq!(g.receive_word(&words, BOB, "teapot".to_string(), None, false), Ok(WordResult::Scored));
    assert_eq!(g.get_current_round().use_count(&"teapot".to_string()), 1);
    g.end_round().unwrap();
    assert_eq!(g.receive_word(&words, BOB, "teapot".to_string(), tags(), false), Err(GameError::WrongPhase));
}

#[test]
fn session_ends_after_its_rounds() {
    for n in 1..5usize {
        let mut g = WordsAgainstStrangers::with_round_count(5, ALICE, n);
        g.add_player(BOB).unwrap();
        g.start_with_criteria(ALICE, te_rounds(n)).unwrap();
        for k in 0..n {
            assert_eq!(g.get_state(), GameState::BetweenRounds);
            assert_eq!(g.get_round_index(), k);
            assert_eq!(g.end_round(), Err(GameError::WrongPhase));
            assert_eq!(g.begin_round(), Ok(()));
            assert_eq!(g.begin_round(), Err(GameError::WrongPhase));
            assert_eq!(g.end_round(), Ok(()));
        }
        assert_eq!(g.get_state(), GameState::Ended);
        assert_eq!(g.get_round_index(), n);
        assert_eq!(g.begin_round(), Err(GameError::WrongPhase));
        assert_eq!(g.end_round(), Err(GameError::WrongPhase));
    }
}

#[test]
fn no_rounds_means_over_at_start() {
    let mut g = WordsAgainstStrangers::with_round_count(5, ALICE, 0);
    assert_eq!(g.start(ALICE), Ok(()));
    assert_eq!(g.get_state(), GameState::Ended);
}

#[test]
fn scores_add_up_over_rounds() {
    let words = list(&["teapot", "tent"]);
    let mut g = WordsAgainstStrangers::with_round_count(5, ALICE, 2);
    g.add_player(BOB).unwrap();
    g.start_with_criteria(ALICE, te_rounds(2)).unwrap();
    g.begin_round().unwrap();
    g.receive_word(&words, BOB, "teapot".to_string(), tags(), false).unwrap();
    g.receive_word(&words, ALICE, "tent".to_string(), tags(), false).unwrap();
    g.end_round().unwrap();
    g.begin_round().unwrap();
    assert_eq!(g.receive_word(&words, ALICE, "teapot".to_string(), tags(), false), Ok(WordResult::Scored));
    g.end_round().unwrap();
    assert_eq!(g.get_scores(), &vec![2, 1]);
}

#[test]
fn messages_name_the_players() {
    let mut g = WordsAgainstStrangers::new(5, 7);
    assert_eq!(g.make_intro(), "**Words Against Friends**\nPlayers: <@!7>");
    g.add_player(42).unwrap();
    assert_eq!(g.make_intro(), "**Words Against Friends**\nPlayers: <@!7>, <@!42>");
    assert_eq!(
        g.get_starting_message(),
        "**Words Against Friends**\nStarting now with players: <@!7>, <@!42>\n:warning: Go to your DMs to get ready to play!"
    );
    assert_eq!(g.get_dm_opening(), "**Words Against Friends**\nGet ready to play! Game starting soon...");
    g.start_with_criteria(7, te_rounds(NUM_ROUNDS)).unwrap();
    assert_eq!(
        g.get_round_announcement(),
        "**Words Against Friends: Round 1 of 3**\nSend me words that: \n- Start with `te`"
    );
    g.begin_round().unwrap();
    g.end_round().unwrap();
    assert_eq!(
        g.get_round_announcement(),
        "**Words Against Friends: Round 2 of 3**\nSend me words that: \n- Start with `te`"
    );
}

#[test]
fn header_and_channel_are_kept() {
    let mut g = WordsAgainstStrangers::new(5, ALICE);
    assert_eq!(g.get_public_channel(), 5);
    assert_eq!(g.get_header_message(), None);
    g.set_header_message(99);
    assert_eq!(g.get_header_message(), Some(99));
    assert_eq!(g.get_round_count(), NUM_ROUNDS);
}

#[test]
fn generated_rounds_share_the_roster() {
    let rounds = generate_rounds(&vec![ALICE, BOB], 4);
    assert_eq!(rounds.len(), 4);
    for r in &rounds {
        assert_eq!(r.get_players(), &vec![ALICE, BOB]);
    }
}

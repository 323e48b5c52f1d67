use vstd::prelude::*;
use crate::criteria::{valid_criteria, Criteron};
use crate::round::{capped, criteria_text, Round, RoundView, WordResult};
use crate::text::{decimal, joined, number_text};
use crate::words::{SpeechTags, WordList};

verus! {

/// How many rounds a session plays unless told otherwise.
pub const NUM_ROUNDS: usize = 3;

/// How long a round runs, in seconds.
pub const ROUND_DURATION: u64 = 15;

/// How long players get to open their private messages before the first
/// round, in milliseconds.
pub const START_DELAY_MILLIS: u64 = 3000;

/// The phases of a session.
#[derive(Clone, Copy, Debug, PartialEq, Eq, Structural)]
pub enum GameState {
    Starting,
    BetweenRounds,
    ActivePlay,
    Ended,
}

/// Why a session refused a request.
#[derive(Clone, Copy, Debug, PartialEq, Eq, Structural)]
pub enum GameError {
    /// The session is in a phase where the request has no place.
    WrongPhase,
    /// Only the player who made the session may start it.
    NotHost,
    /// The player is on the roster already.
    AlreadyJoined,
    /// The player is not on the roster.
    NotAPlayer,
}

/// The abstract state of a session.
pub struct SessionView {
    pub channel: u64,
    pub state: GameState,
    /// The roster in order of joining; the first is the host.
    pub players: Seq<u64>,
    pub header: Option<u64>,
    pub rounds: Seq<RoundView>,
    pub round_index: nat,
    pub num_rounds: nat,
    /// The running total of each player, in roster order.
    pub scores: Seq<u64>,
}

/// `a + b`, held at the largest `u64` if it would pass it.
pub open spec fn sat_add(a: u64, b: u64) -> u64 {
    capped((a + b) as nat)
}

impl SessionView {
    pub open spec fn wf(self) -> bool {
        &&& self.players.len() >= 1
        &&& self.players.no_duplicates()
        &&& self.scores.len() == self.players.len()
        &&& self.state is Starting ==> self.rounds.len() == 0 && self.round_index == 0
        &&& !(self.state is Starting) ==> self.rounds.len() == self.num_rounds
        &&& forall|i: int| 0 <= i < self.rounds.len() ==> (#[trigger] self.rounds[i]).players == self.players
        &&& (self.state is BetweenRounds || self.state is ActivePlay) ==> self.round_index < self.rounds.len()
        &&& self.state is Ended ==> self.round_index == self.rounds.len()
    }

    /// A new session in `channel` hosted by `host`, to play `num_rounds` rounds.
    pub open spec fn created(channel: u64, host: u64, num_rounds: nat) -> SessionView {
        SessionView {
            channel,
            state: GameState::Starting,
            players: seq![host],
            header: None,
            rounds: Seq::empty(),
            round_index: 0,
            num_rounds,
            scores: seq![0u64],
        }
    }

    pub open spec fn joined(self, p: u64) -> SessionView {
        SessionView { players: self.players.push(p), scores: self.scores.push(0), ..self }
    }

    /// Play begins with the first of `rounds`, or ends at once where there is none.
    pub open spec fn started(self, rounds: Seq<RoundView>) -> SessionView {
        SessionView {
            rounds,
            round_index: 0,
            state: if rounds.len() == 0 {
                GameState::Ended
            } else {
                GameState::BetweenRounds
            },
            ..self
        }
    }

    pub open spec fn begun(self) -> SessionView {
        SessionView { state: GameState::ActivePlay, ..self }
    }

    /// The current round closes: its points join the totals, and the next
    /// round waits, or the session ends after the last.
    pub open spec fn settled(self) -> SessionView {
        let deltas = self.rounds[self.round_index as int].deltas();
        SessionView {
            scores: Seq::new(self.scores.len(), |i: int| sat_add(self.scores[i], deltas[i])),
            round_index: self.round_index + 1,
            state: if self.round_index + 1 == self.rounds.len() {
                GameState::Ended
            } else {
                GameState::BetweenRounds
            },
            ..self
        }
    }
}

impl SessionView {
    /// The session and the answer after `player` sends `w` in the running
    /// round, as `WordsAgainstStrangers::receive_word` gives them.
    pub open spec fn received(
        self,
        known: bool,
        player: u64,
        w: Seq<char>,
        tags: Option<SpeechTags>,
        bonus: bool,
    ) -> (SessionView, Result<WordResult, GameError>) {
        if !(self.state is ActivePlay) {
            (self, Err(GameError::WrongPhase))
        } else if !self.players.contains(player) {
            (self, Err(GameError::NotAPlayer))
        } else {
            let i = self.round_index as int;
            let (after, verdict) = self.rounds[i].after_word(known, player, w, tags, bonus);
            (SessionView { rounds: self.rounds.update(i, after), ..self }, Ok(verdict))
        }
    }
}

/// The rounds a session starts with: one per entry, fresh, for `players`.
pub open spec fn fresh_rounds(players: Seq<u64>, criteria: Seq<Seq<Criteron>>) -> Seq<RoundView> {
    Seq::new(
        criteria.len(),
        |i: int| RoundView { players, criteria: criteria[i], uses: Seq::empty(), scored: Seq::empty() },
    )
}

/// How a player is named in a message.
pub open spec fn mention(id: u64) -> Seq<char> {
    "<@!"@ + decimal(id as nat) + ">"@
}

/// The players named one after another, with ", " between.
pub open spec fn mention_list(ps: Seq<u64>) -> Seq<char>
    decreases ps.len(),
{
    if ps.len() == 0 {
        Seq::empty()
    } else if ps.len() == 1 {
        mention(ps[0])
    } else {
        mention_list(ps.drop_last()) + ", "@ + mention(ps.last())
    }
}

pub open spec fn intro_text(ps: Seq<u64>) -> Seq<char> {
    "**Words Against Friends**\nPlayers: "@ + mention_list(ps)
}

pub open spec fn starting_text(ps: Seq<u64>) -> Seq<char> {
    "**Words Against Friends**\nStarting now with players: "@ + mention_list(ps)
        + "\n:warning: Go to your DMs to get ready to play!"@
}

pub open spec fn dm_opening_text() -> Seq<char> {
    "**Words Against Friends**\nGet ready to play! Game starting soon..."@
}

pub open spec fn announcement_text(index: nat, count: nat, criteria: Seq<Criteron>) -> Seq<char> {
    "**Words Against Friends: Round "@ + decimal(index + 1) + " of "@ + decimal(count)
        + "**\nSend me words that: "@ + criteria_text(criteria)
}

/// One game in one room, from the first join to the last round.
pub struct WordsAgainstStrangers {
    public_channel: u64,
    state: GameState,
    players: Vec<u64>,
    header_message: Option<u64>,
    rounds: Vec<Round>,
    round_index: usize,
    num_rounds: usize,
    scores: Vec<u64>,
}

impl View for WordsAgainstStrangers {
    type V = SessionView;

    closed spec fn view(&self) -> SessionView {
        SessionView {
            channel: self.public_channel,
            state: self.state,
            players: self.players@,
            header: self.header_message,
            rounds: self.rounds@.map_values(|r: Round| r@),
            round_index: self.round_index as nat,
            num_rounds: self.num_rounds as nat,
            scores: self.scores@,
        }
    }
}

/// Fresh rounds with random criteria, one for each of `num_rounds`.
pub fn generate_rounds(players: &Vec<u64>, num_rounds: usize) -> (r: Vec<Round>)
    requires
        players@.no_duplicates(),
    ensures
        r@.len() == num_rounds,
        forall|i: int|
            0 <= i < num_rounds ==> (#[trigger] r@[i]@).players == players@ && r@[i]@.fresh()
                && valid_criteria(r@[i]@.criteria),
{
    let mut rounds: Vec<Round> = Vec::new();
    for n in 0..num_rounds
        invariant
            players@.no_duplicates(),
            rounds@.len() == n,
            forall|i: int|
                0 <= i < n ==> (#[trigger] rounds@[i]@).players == players@ && rounds@[i]@.fresh()
                    && valid_criteria(rounds@[i]@.criteria),
    {
        rounds.push(Round::new(players));
    }
    rounds
}

fn mention_of(id: u64) -> (r: String)
    ensures
        r@ == mention(id),
{
    let digits = number_text(id);
    let mut s = joined("<@!", digits.as_str());
    s.append(">");
    s
}

fn mentions(players: &Vec<u64>) -> (r: String)
    ensures
        r@ == mention_list(players@),
{
    let ghost ps = players@;
    let mut s = String::new();
    for i in 0..players.len()
        invariant
            ps == players@,
            s@ == mention_list(ps.subrange(0, i as int)),
    {
        assert(ps.subrange(0, i + 1).drop_last() =~= ps.subrange(0, i as int));
        if i > 0 {
            s.append(", ");
        }
        let m = mention_of(players[i]);
        s.append(m.as_str());
        if i == 0 {
            assert(s@ =~= mention(ps[0]));
        } else {
            assert(s@ =~= mention_list(ps.subrange(0, i as int)) + ", "@ + mention(ps[i as int]));
        }
    }
    assert(ps.subrange(0, players.len() as int) =~= ps);
    s
}

/// Alternating `begun` and `settled`, `k` times over.
pub open spec fn play_rounds(v: SessionView, k: nat) -> SessionView
    decreases k,
{
    if k == 0 {
        v
    } else {
        play_rounds(v, (k - 1) as nat).begun().settled()
    }
}

/// A started session ends after exactly as many settled rounds as it was
/// given: after fewer it waits between rounds, and after that many it has
/// ended (where `begin_round` and `end_round` refuse to go on).
pub proof fn round_count_law(v: SessionView, rounds: Seq<RoundView>, k: nat)
    requires
        k <= rounds.len(),
    ensures
        play_rounds(v.started(rounds), k).round_index == k,
        play_rounds(v.started(rounds), k).rounds == rounds,
        k < rounds.len() ==> play_rounds(v.started(rounds), k).state is BetweenRounds,
        k == rounds.len() ==> play_rounds(v.started(rounds), k).state is Ended,
    decreases k,
{
    if k > 0 {
        round_count_law(v, rounds, (k - 1) as nat);
    }
}

fn contains_player(players: &Vec<u64>, p: u64) -> (r: bool)
    ensures
        r == players@.contains(p),
{
    for i in 0..players.len()
        invariant
            forall|j: int| 0 <= j < i ==> players@[j] != p,
    {
        if players[i] == p {
            return true;
        }
    }
    false
}

impl WordsAgainstStrangers {
    /// A session in `public_channel` hosted by `wordsmith`, to play `num_rounds` rounds.
    pub fn with_round_count(public_channel: u64, wordsmith: u64, num_rounds: usize) -> (r: Self)
        ensures
            r@ == SessionView::created(public_channel, wordsmith, num_rounds as nat),
            r@.wf(),
    {
        let r = WordsAgainstStrangers {
            public_channel,
            state: GameState::Starting,
            players: vec![wordsmith],
            header_message: None,
            rounds: Vec::new(),
            round_index: 0,
            num_rounds,
            scores: vec![0],
        };
        assert(r@.rounds =~= Seq::<RoundView>::empty());
        assert(r@.players =~= seq![wordsmith]);
        assert(r@.scores =~= seq![0u64]);
        assert(r@ =~= SessionView::created(public_channel, wordsmith, num_rounds as nat));
        r
    }

    /// A session in `public_channel` hosted by `wordsmith`, to play the usual number of rounds.
    pub fn new(public_channel: u64, wordsmith: u64) -> (r: Self)
        ensures
            r@ == SessionView::created(public_channel, wordsmith, NUM_ROUNDS as nat),
            r@.wf(),
    {
        Self::with_round_count(public_channel, wordsmith, NUM_ROUNDS)
    }

    /// Records the message that introduces the session.
    pub fn set_header_message(&mut self, message: u64)
        ensures
            final(self)@ == (SessionView { header: Some(message), ..old(self)@ }),
    {
        self.header_message = Some(message);
    }

    pub fn get_header_message(&self) -> (r: Option<u64>)
        ensures
            r == self@.header,
    {
        self.header_message
    }

    pub fn get_public_channel(&self) -> (r: u64)
        ensures
            r == self@.channel,
    {
        self.public_channel
    }

    pub fn get_state(&self) -> (r: GameState)
        ensures
            r == self@.state,
    {
        self.state
    }

    pub fn get_players(&self) -> (r: &Vec<u64>)
        ensures
            r@ == self@.players,
    {
        &self.players
    }

    /// Each player's total so far, in roster order.
    pub fn get_scores(&self) -> (r: &Vec<u64>)
        ensures
            r@ == self@.scores,
    {
        &self.scores
    }

    pub fn get_round_index(&self) -> (r: usize)
        ensures
            r == self@.round_index,
    {
        self.round_index
    }

    /// How many rounds the session plays.
    pub fn get_round_count(&self) -> (r: usize)
        ensures
            r == self@.num_rounds,
    {
        self.num_rounds
    }

    /// The round being played, or the next one to be.
    pub fn get_current_round(&self) -> (r: &Round)
        requires
            self@.wf(),
            self@.state is BetweenRounds || self@.state is ActivePlay,
        ensures
            r@ == self@.rounds[self@.round_index as int],
    {
        &self.rounds[self.round_index]
    }

    /// The text that introduces the session and names its players.
    pub fn make_intro(&self) -> (r: String)
        ensures
            r@ == intro_text(self@.players),
    {
        let names = mentions(&self.players);
        joined("**Words Against Friends**\nPlayers: ", names.as_str())
    }

    /// The text that tells the room the session has started.
    pub fn get_starting_message(&self) -> (r: String)
        ensures
            r@ == starting_text(self@.players),
    {
        let names = mentions(&self.players);
        let mut s = joined("**Words Against Friends**\nStarting now with players: ", names.as_str());
        s.append("\n:warning: Go to your DMs to get ready to play!");
        s
    }

    /// The text each player is sent privately when the session starts.
    pub fn get_dm_opening(&self) -> (r: String)
        ensures
            r@ == dm_opening_text(),
    {
        "**Words Against Friends**\nGet ready to play! Game starting soon...".to_owned()
    }

    /// The text that opens the current round and lists its criteria.
    pub fn get_round_announcement(&self) -> (r: String)
        requires
            self@.wf(),
            self@.state is BetweenRounds || self@.state is ActivePlay,
        ensures
            r@ == announcement_text(
                self@.round_index,
                self@.rounds.len(),
                self@.rounds[self@.round_index as int].criteria,
            ),
    {
        let number = number_text(self.round_index as u64 + 1);
        let count = number_text(self.rounds.len() as u64);
        let list = self.rounds[self.round_index].get_criteria_string();
        let mut s = joined("**Words Against Friends: Round ", number.as_str());
        s.append(" of ");
        s.append(count.as_str());
        s.append("**\nSend me words that: ");
        s.append(list.as_str());
        s
    }

    /// Adds `player` to the roster while the session is starting.
    pub fn add_player(&mut self, player: u64) -> (r: Result<(), GameError>)
        requires
            old(self)@.wf(),
        ensures
            final(self)@.wf(),
            r is Ok <==> old(self)@.state is Starting && !old(self)@.players.contains(player),
            r == Err::<(), GameError>(GameError::WrongPhase) <==> !(old(self)@.state is Starting),
            r == Err::<(), GameError>(GameError::AlreadyJoined) <==> old(self)@.state is Starting
                && old(self)@.players.contains(player),
            r is Ok ==> final(self)@ == old(self)@.joined(player),
            r is Err ==> final(self)@ == old(self)@,
    {
        if self.state != GameState::Starting {
            return Err(GameError::WrongPhase);
        }
        if contains_player(&self.players, player) {
            return Err(GameError::AlreadyJoined);
        }
        self.players.push(player);
        self.scores.push(0);
        assert(self@.rounds =~= old(self)@.rounds);
        assert(self@ =~= old(self)@.joined(player));
        Ok(())
    }

    fn install_rounds(&mut self, rounds: Vec<Round>)
        requires
            old(self)@.wf(),
            old(self)@.state is Starting,
            rounds@.len() == old(self)@.num_rounds,
            forall|i: int| 0 <= i < rounds@.len() ==> (#[trigger] rounds@[i]@).players == old(self)@.players,
        ensures
            final(self)@.wf(),
            final(self)@ == old(self)@.started(rounds@.map_values(|r: Round| r@)),
    {
        let empty = rounds.len() == 0;
        self.rounds = rounds;
        self.round_index = 0;
        self.state = if empty {
            GameState::Ended
        } else {
            GameState::BetweenRounds
        };
        assert(self@ =~= old(self)@.started(rounds@.map_values(|r: Round| r@)));
    }

    /// Starts the session with random criteria, if `requester` is the host.
    pub fn start(&mut self, requester: u64) -> (r: Result<(), GameError>)
        requires
            old(self)@.wf(),
        ensures
            final(self)@.wf(),
            r is Ok <==> old(self)@.state is Starting && requester == old(self)@.players[0],
            r == Err::<(), GameError>(GameError::WrongPhase) <==> !(old(self)@.state is Starting),
            r == Err::<(), GameError>(GameError::NotHost) <==> old(self)@.state is Starting && requester
                != old(self)@.players[0],
            r is Ok ==> final(self)@ == old(self)@.started(final(self)@.rounds),
            r is Ok ==> forall|i: int|
                0 <= i < final(self)@.rounds.len() ==> (#[trigger] final(self)@.rounds[i]).fresh()
                    && valid_criteria(final(self)@.rounds[i].criteria),
            r is Err ==> final(self)@ == old(self)@,
    {
        if self.state != GameState::Starting {
            return Err(GameError::WrongPhase);
        }
        if self.players[0] != requester {
            return Err(GameError::NotHost);
        }
        let rounds = generate_rounds(&self.players, self.num_rounds);
        self.install_rounds(rounds);
        Ok(())
    }

    /// Starts the session with the given criteria, one list per round, if
    /// `requester` is the host.
    pub fn start_with_criteria(&mut self, requester: u64, criteria: Vec<Vec<Criteron>>) -> (r: Result<
        (),
        GameError,
    >)
        requires
            old(self)@.wf(),
            criteria@.len() == old(self)@.num_rounds,
        ensures
            final(self)@.wf(),
            r is Ok <==> old(self)@.state is Starting && requester == old(self)@.players[0],
            r == Err::<(), GameError>(GameError::WrongPhase) <==> !(old(self)@.state is Starting),
            r == Err::<(), GameError>(GameError::NotHost) <==> old(self)@.state is Starting && requester
                != old(self)@.players[0],
            r is Ok ==> final(self)@ == old(self)@.started(
                fresh_rounds(old(self)@.players, criteria@.map_values(|c: Vec<Criteron>| c@)),
            ),
            r is Err ==> final(self)@ == old(self)@,
    {
        if self.state != GameState::Starting {
            return Err(GameError::WrongPhase);
        }
        if self.players[0] != requester {
            return Err(GameError::NotHost);
        }
        let mut rounds: Vec<Round> = Vec::new();
        let mut criteria = criteria;
        let ghost all = criteria@;
        let ghost lists = all.map_values(|c: Vec<Criteron>| c@);
        let ghost want = fresh_rounds(self@.players, lists);
        while criteria.len() > 0
            invariant
                self@ == old(self)@,
                old(self)@.wf(),
                lists == all.map_values(|c: Vec<Criteron>| c@),
                want == fresh_rounds(old(self)@.players, lists),
                rounds@.len() + criteria@.len() == all.len(),
                criteria@ == all.subrange(rounds@.len() as int, all.len() as int),
                forall|i: int| 0 <= i < rounds@.len() ==> (#[trigger] rounds@[i]@) == want[i],
            decreases criteria@.len(),
        {
            let list = criteria.remove(0);
            assert(list == all[rounds@.len() as int]);
            let round = Round::with_criteria(&self.players, list);
            assert(round@ == want[rounds@.len() as int]);
            rounds.push(round);
            assert(criteria@ =~= all.subrange(rounds@.len() as int, all.len() as int));
        }
        self.install_rounds(rounds);
        assert(rounds@.map_values(|r: Round| r@) =~= want);
        Ok(())
    }

    /// Opens the current round for words.
    pub fn begin_round(&mut self) -> (r: Result<(), GameError>)
        requires
            old(self)@.wf(),
        ensures
            final(self)@.wf(),
            r is Ok <==> old(self)@.state is BetweenRounds,
            r is Err ==> r == Err::<(), GameError>(GameError::WrongPhase) && final(self)@ == old(self)@,
            r is Ok ==> final(self)@ == old(self)@.begun(),
    {
        if self.state != GameState::BetweenRounds {
            return Err(GameError::WrongPhase);
        }
        self.state = GameState::ActivePlay;
        Ok(())
    }

    /// Closes the current round when its time is up, as `settled` says.
    pub fn end_round(&mut self) -> (r: Result<(), GameError>)
        requires
            old(self)@.wf(),
        ensures
            final(self)@.wf(),
            r is Ok <==> old(self)@.state is ActivePlay,
            r is Err ==> r == Err::<(), GameError>(GameError::WrongPhase) && final(self)@ == old(self)@,
            r is Ok ==> final(self)@ == old(self)@.settled(),
    {
        if self.state != GameState::ActivePlay {
            return Err(GameError::WrongPhase);
        }
        let ghost v = self@;
        let deltas = self.rounds[self.round_index].end_round();
        assert(deltas@.len() == v.scores.len());
        let n = self.scores.len();
        for i in 0..n
            invariant
                n == v.scores.len(),
                v.wf(),
                v.state is ActivePlay,
                deltas@ == v.rounds[v.round_index as int].deltas(),
                deltas@.len() == n,
                self@ == (SessionView { scores: self@.scores, ..v }),
                self@.scores.len() == n,
                forall|k: int| 0 <= k < i ==> self@.scores[k] == sat_add(v.scores[k], deltas@[k]),
                forall|k: int| i <= k < n ==> self@.scores[k] == v.scores[k],
        {
            let total = self.scores[i].saturating_add(deltas[i]);
            self.scores.set(i, total);
        }
        self.round_index = self.round_index + 1;
        self.state = if self.round_index == self.rounds.len() {
            GameState::Ended
        } else {
            GameState::BetweenRounds
        };
        let ghost d = v.rounds[v.round_index as int].deltas();
        assert(self@.scores =~= Seq::new(v.scores.len(), |k: int| sat_add(v.scores[k], d[k])));
        assert(self@ =~= v.settled());
        Ok(())
    }

    /// Judges `word` from `player` in the running round, as `after_word` of
    /// the round says. `tags` is what the part-of-speech classifier said of
    /// the word, or `None` where it could not be reached; `bonus` whether the
    /// word earns a bonus.
    pub fn receive_word(
        &mut self,
        list: &WordList,
        player: u64,
        word: String,
        tags: Option<SpeechTags>,
        bonus: bool,
    ) -> (r: Result<WordResult, GameError>)
        requires
            old(self)@.wf(),
        ensures
            final(self)@.wf(),
            (final(self)@, r) == old(self)@.received(list@.contains(word@), player, word@, tags, bonus),
            r == Err::<WordResult, GameError>(GameError::WrongPhase) <==> !(old(self)@.state is ActivePlay),
            r == Err::<WordResult, GameError>(GameError::NotAPlayer) <==> old(self)@.state is ActivePlay
                && !old(self)@.players.contains(player),
            r is Err ==> final(self)@ == old(self)@,
    {
        if self.state != GameState::ActivePlay {
            return Err(GameError::WrongPhase);
        }
        if !contains_player(&self.players, player) {
            return Err(GameError::NotAPlayer);
        }
        let ghost v = self@;
        let i = self.round_index;
        let mut round = self.rounds.remove(i);
        let verdict = round.receive_word(list, player, word, tags, bonus);
        self.rounds.insert(i, round);
        let ghost after = v.rounds[i as int].after_word(list@.contains(word@), player, word@, tags, bonus);
        assert(self@.rounds =~= v.rounds.update(i as int, after.0));
        assert(self@ =~= (SessionView { rounds: v.rounds.update(i as int, after.0), ..v }));
        Ok(verdict)
    }
}

} // verus!

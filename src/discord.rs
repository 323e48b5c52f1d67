use vstd::prelude::*;
use std::collections::HashMap;
use crate::criteria::{matches_at, occurs_at, valid_criteria};
use crate::game::{GameError, GameState, SessionView, WordsAgainstStrangers, NUM_ROUNDS};
use crate::round::WordResult;
use crate::words::{SpeechTags, WordList};

verus! {

broadcast use vstd::std_specs::hash::group_hash_axioms;

/// What a player is told when a request is refused.
#[derive(Clone, Copy, Debug, PartialEq, Eq, Structural)]
pub enum CommonMessages {
    NoDmCommands,
    ExistingGame,
    NoExistingGame,
    GameInProgress,
    NoPermission,
    AlreadyInGame,
    NoActiveRound,
    NotInGame,
}

pub open spec fn message_text(m: CommonMessages) -> Seq<char> {
    match m {
        CommonMessages::NoDmCommands => "You cannot use commands in direct messages."@,
        CommonMessages::ExistingGame => "There is already a game in this server!"@,
        CommonMessages::NoExistingGame => "There is no game in this server yet!"@,
        CommonMessages::GameInProgress => "This game is in progress, you cannot do that!"@,
        CommonMessages::NoPermission => "Only the player who created the game may start it!"@,
        CommonMessages::AlreadyInGame => "You may only join a game in one server at a time!"@,
        CommonMessages::NoActiveRound => "No round is running right now!"@,
        CommonMessages::NotInGame => "You are not playing in any game!"@,
    }
}

impl CommonMessages {
    pub fn val(&self) -> (r: String)
        ensures
            r@ == message_text(*self),
    {
        let message = match self {
            CommonMessages::NoDmCommands => "You cannot use commands in direct messages.",
            CommonMessages::ExistingGame => "There is already a game in this server!",
            CommonMessages::NoExistingGame => "There is no game in this server yet!",
            CommonMessages::GameInProgress => "This game is in progress, you cannot do that!",
            CommonMessages::NoPermission => "Only the player who created the game may start it!",
            CommonMessages::AlreadyInGame => "You may only join a game in one server at a time!",
            CommonMessages::NoActiveRound => "No round is running right now!",
            CommonMessages::NotInGame => "You are not playing in any game!",
        };
        message.to_owned()
    }
}

/// The reactions put on players' messages.
#[derive(Clone, Copy, Debug, PartialEq, Eq, Structural)]
pub enum CommonReactions {
    CheckmarkGreen,
    CheckmarkBlue,
    OctagonalSign,
    RedX,
}

pub open spec fn reaction_emoji(r: CommonReactions) -> Seq<char> {
    match r {
        CommonReactions::CheckmarkGreen => "\u{2705}"@,
        CommonReactions::CheckmarkBlue => "\u{2611}\u{fe0f}"@,
        CommonReactions::OctagonalSign => "\u{1f6d1}"@,
        CommonReactions::RedX => "\u{274c}"@,
    }
}

impl CommonReactions {
    /// The emoji of the reaction.
    pub fn val(&self) -> (r: String)
        ensures
            r@ == reaction_emoji(*self),
    {
        let emoji = match self {
            CommonReactions::CheckmarkGreen => "\u{2705}",
            CommonReactions::CheckmarkBlue => "\u{2611}\u{fe0f}",
            CommonReactions::OctagonalSign => "\u{1f6d1}",
            CommonReactions::RedX => "\u{274c}",
        };
        emoji.to_owned()
    }
}

/// The reaction that answers a judged word.
pub fn reaction_for(result: WordResult) -> (r: CommonReactions)
    ensures
        r == match result {
            WordResult::Invalid => CommonReactions::RedX,
            WordResult::Blocked => CommonReactions::OctagonalSign,
            WordResult::Scored => CommonReactions::CheckmarkGreen,
            WordResult::ScoredBonus => CommonReactions::CheckmarkBlue,
        },
{
    match result {
        WordResult::Invalid => CommonReactions::RedX,
        WordResult::Blocked => CommonReactions::OctagonalSign,
        WordResult::Scored => CommonReactions::CheckmarkGreen,
        WordResult::ScoredBonus => CommonReactions::CheckmarkBlue,
    }
}

/// What the caller is to do about a message.
#[derive(Clone, Copy, Debug, PartialEq, Eq, Structural)]
pub enum BotAction {
    /// Judge the message's text as a word in the session of this room.
    Judge(u64),
    /// Answer in the message's channel with this text.
    Reply(CommonMessages),
    /// A session was made in this room: introduce it.
    Created(u64),
    /// The author joined the session of this room.
    Joined(u64),
    /// The session of this room started: announce it and run its rounds.
    Started(u64),
}

/// Where the chunk of `s` that ends at `end` begins: just after the last
/// space before `end`, or at the start.
pub open spec fn chunk_start(s: Seq<char>, end: int) -> int
    decreases end,
{
    if end <= 0 {
        0
    } else if s[end - 1] == ' ' {
        end
    } else {
        chunk_start(s, end - 1)
    }
}

/// What follows the last space of `s`, or all of `s` where it has none.
pub open spec fn last_chunk(s: Seq<char>) -> Seq<char> {
    s.subrange(chunk_start(s, s.len() as int), s.len() as int)
}

/// The command a message gives: the last word after the prefix, if the
/// message starts with the prefix.
pub open spec fn command_of(prefix: Seq<char>, content: Seq<char>) -> Option<Seq<char>> {
    if occurs_at(content, prefix, 0) {
        Some(last_chunk(content.subrange(prefix.len() as int, content.len() as int)))
    } else {
        None
    }
}

/// The action that reports a registry answer: `ok` on success, else the refusal.
pub open spec fn outcome_action(res: Result<(), CommonMessages>, ok: BotAction) -> BotAction {
    match res {
        Ok(_) => ok,
        Err(m) => BotAction::Reply(m),
    }
}

fn command_word(s: &str) -> (r: String)
    ensures
        r@ == last_chunk(s@),
{
    let n = s.unicode_len();
    let mut k = n;
    while k > 0 && s.get_char(k - 1) != ' '
        invariant
            n == s@.len(),
            k <= n,
            chunk_start(s@, k as int) == chunk_start(s@, n as int),
        decreases k,
    {
        k = k - 1;
    }
    s.substring_char(k, n).to_owned()
}

/// The abstract state of the bot: the sessions by room, and the room each
/// enrolled player plays in.
pub struct BotView {
    pub prefix: Seq<char>,
    pub words: Set<Seq<char>>,
    pub games: Map<u64, SessionView>,
    pub enrolled: Map<u64, u64>,
}

impl BotView {
    /// Every live session is sound and not over; every player on a roster is
    /// enrolled in that room, and only there; every enrolled player is on the
    /// roster of the room they are enrolled in.
    pub open spec fn wf(self) -> bool {
        &&& forall|room: u64| #[trigger]
            self.games.contains_key(room) ==> self.games[room].wf() && !(self.games[room].state is Ended)
                && self.games[room].num_rounds >= 1
        &&& forall|room: u64, i: int|
            self.games.contains_key(room) && 0 <= i < self.games[room].players.len()
                ==> self.enrolled.contains_key(#[trigger] self.games[room].players[i])
                && self.enrolled[self.games[room].players[i]] == room
        &&& forall|p: u64| #[trigger]
            self.enrolled.contains_key(p) ==> self.games.contains_key(self.enrolled[p])
                && self.games[self.enrolled[p]].players.contains(p)
    }

    /// After `author` asks for a new session in `room`, posted in `channel`.
    pub open spec fn after_new_game(self, room: u64, channel: u64, author: u64) -> (
        BotView,
        Result<(), CommonMessages>,
    ) {
        if self.games.contains_key(room) {
            (self, Err(CommonMessages::ExistingGame))
        } else if self.enrolled.contains_key(author) {
            (self, Err(CommonMessages::AlreadyInGame))
        } else {
            (
                BotView {
                    games: self.games.insert(room, SessionView::created(channel, author, NUM_ROUNDS as nat)),
                    enrolled: self.enrolled.insert(author, room),
                    ..self
                },
                Ok(()),
            )
        }
    }

    /// After `author` asks to join the session in `room`.
    pub open spec fn after_join(self, room: u64, author: u64) -> (BotView, Result<(), CommonMessages>) {
        if !self.games.contains_key(room) {
            (self, Err(CommonMessages::NoExistingGame))
        } else if !(self.games[room].state is Starting) {
            (self, Err(CommonMessages::GameInProgress))
        } else if self.enrolled.contains_key(author) {
            (self, Err(CommonMessages::AlreadyInGame))
        } else {
            (
                BotView {
                    games: self.games.insert(room, self.games[room].joined(author)),
                    enrolled: self.enrolled.insert(author, room),
                    ..self
                },
                Ok(()),
            )
        }
    }

    /// Why a start of the session in `room` by `author` is refused, if it is.
    pub open spec fn start_refusal(self, room: u64, author: u64) -> Option<CommonMessages> {
        if !self.games.contains_key(room) {
            Some(CommonMessages::NoExistingGame)
        } else if !(self.games[room].state is Starting) {
            Some(CommonMessages::GameInProgress)
        } else if author != self.games[room].players[0] {
            Some(CommonMessages::NoPermission)
        } else {
            None
        }
    }

    /// After the round timer of `room` says to open the next round.
    pub open spec fn after_begin(self, room: u64) -> (BotView, Result<(), CommonMessages>) {
        if !self.games.contains_key(room) {
            (self, Err(CommonMessages::NoExistingGame))
        } else if !(self.games[room].state is BetweenRounds) {
            (self, Err(CommonMessages::GameInProgress))
        } else {
            (BotView { games: self.games.insert(room, self.games[room].begun()), ..self }, Ok(()))
        }
    }

    /// After the round timer of `room` says the running round is over: the
    /// round settles, and a session that has played its last round leaves,
    /// with its players free to play elsewhere.
    pub open spec fn after_end(self, room: u64) -> (BotView, Result<Option<SessionView>, CommonMessages>) {
        if !self.games.contains_key(room) {
            (self, Err(CommonMessages::NoExistingGame))
        } else if !(self.games[room].state is ActivePlay) {
            (self, Err(CommonMessages::GameInProgress))
        } else {
            let s = self.games[room].settled();
            if s.state is Ended {
                (
                    BotView {
                        games: self.games.remove(room),
                        enrolled: self.enrolled.remove_keys(s.players.to_set()),
                        ..self
                    },
                    Ok(Some(s)),
                )
            } else {
                (BotView { games: self.games.insert(room, s), ..self }, Ok(None))
            }
        }
    }

    /// After `player` sends the word `w`, with what the classifier said of it.
    pub open spec fn after_word(self, player: u64, w: Seq<char>, tags: Option<SpeechTags>, bonus: bool) -> (
        BotView,
        Result<WordResult, CommonMessages>,
    ) {
        if !self.enrolled.contains_key(player) {
            (self, Err(CommonMessages::NotInGame))
        } else {
            let room = self.enrolled[player];
            let (s, r) = self.games[room].received(self.words.contains(w), player, w, tags, bonus);
            match r {
                Ok(verdict) => (BotView { games: self.games.insert(room, s), ..self }, Ok(verdict)),
                Err(_) => (self, Err(CommonMessages::NoActiveRound)),
            }
        }
    }
}

/// A room holds at most one session, and a player plays in at most one room:
/// a new session in a room that has one is refused, and a player enrolled in
/// one room who asks to make or join a session in another is refused.
pub proof fn registry_law(v: BotView, room: u64, other: u64, channel: u64, author: u64)
    requires
        v.wf(),
    ensures
        v.games.contains_key(room) ==> v.after_new_game(room, channel, author).1 == Err::<(), CommonMessages>(
            CommonMessages::ExistingGame,
        ),
        v.enrolled.contains_key(author) && !v.games.contains_key(room) ==> v.after_new_game(
            room,
            channel,
            author,
        ).1 == Err::<(), CommonMessages>(CommonMessages::AlreadyInGame),
        v.enrolled.contains_key(author) && v.games.contains_key(room) && v.games[room].state is Starting
            ==> v.after_join(room, author).1 == Err::<(), CommonMessages>(CommonMessages::AlreadyInGame),
        v.games.contains_key(room) && v.games.contains_key(other) && v.games[room].players.contains(author)
            && v.games[other].players.contains(author) ==> room == other,
        v.after_new_game(room, channel, author).0.wf(),
        v.after_join(room, author).0.wf(),
{
    if v.games.contains_key(room) && v.games.contains_key(other) && v.games[room].players.contains(author)
        && v.games[other].players.contains(author) {
        let i = choose|i: int| 0 <= i < v.games[room].players.len() && v.games[room].players[i] == author;
        let j = choose|j: int| 0 <= j < v.games[other].players.len() && v.games[other].players[j] == author;
        assert(v.enrolled[v.games[room].players[i]] == room);
        assert(v.enrolled[v.games[other].players[j]] == other);
    }
    lemma_new_game_keeps_wf(v, room, channel, author);
    lemma_join_keeps_wf(v, room, author);
}

proof fn lemma_new_game_keeps_wf(v: BotView, room: u64, channel: u64, author: u64)
    requires
        v.wf(),
    ensures
        v.after_new_game(room, channel, author).0.wf(),
{
    let want = v.after_new_game(room, channel, author).0;
    if !v.games.contains_key(room) && !v.enrolled.contains_key(author) {
        assert forall|rm: u64, i: int|
            want.games.contains_key(rm) && 0 <= i < want.games[rm].players.len() implies want.enrolled.contains_key(
                #[trigger] want.games[rm].players[i],
            ) && want.enrolled[want.games[rm].players[i]] == rm by {
            if rm != room {
                assert(v.enrolled.contains_key(v.games[rm].players[i]));
            }
        }
        assert forall|p: u64| #[trigger] want.enrolled.contains_key(p) implies want.games.contains_key(
            want.enrolled[p],
        ) && want.games[want.enrolled[p]].players.contains(p) by {
            if p == author {
                assert(want.games[room].players[0] == author);
            } else {
                assert(v.games.contains_key(v.enrolled[p]));
            }
        }
    }
}

proof fn lemma_join_keeps_wf(v: BotView, room: u64, author: u64)
    requires
        v.wf(),
    ensures
        v.after_join(room, author).0.wf(),
{
    let want = v.after_join(room, author).0;
    if v.games.contains_key(room) && v.games[room].state is Starting && !v.enrolled.contains_key(author) {
        if v.games[room].players.contains(author) {
            let i = choose|i: int| 0 <= i < v.games[room].players.len() && v.games[room].players[i] == author;
            assert(v.enrolled.contains_key(v.games[room].players[i]));
        }
        assert forall|rm: u64, i: int|
            want.games.contains_key(rm) && 0 <= i < want.games[rm].players.len() implies want.enrolled.contains_key(
                #[trigger] want.games[rm].players[i],
            ) && want.enrolled[want.games[rm].players[i]] == rm by {
            if rm != room || i < v.games[room].players.len() {
                assert(v.enrolled.contains_key(v.games[rm].players[i]));
            }
        }
        assert forall|p: u64| #[trigger] want.enrolled.contains_key(p) implies want.games.contains_key(
            want.enrolled[p],
        ) && want.games[want.enrolled[p]].players.contains(p) by {
            if p == author {
                assert(want.games[room].players[v.games[room].players.len() as int] == author);
            } else {
                assert(v.games.contains_key(v.enrolled[p]));
                let q = v.enrolled[p];
                let j = choose|j: int| 0 <= j < v.games[q].players.len() && v.games[q].players[j] == p;
                assert(want.games[q].players[j] == p);
            }
        }
    }
}

/// Putting in place of a room's session one with the same roster, sound and
/// not over, keeps the registry sound.
proof fn lemma_replace_keeps_wf(v: BotView, room: u64, s: SessionView)
    requires
        v.wf(),
        v.games.contains_key(room),
        s.wf(),
        !(s.state is Ended),
        s.num_rounds >= 1,
        s.players == v.games[room].players,
    ensures
        (BotView { games: v.games.insert(room, s), ..v }).wf(),
{
    let want = BotView { games: v.games.insert(room, s), ..v };
    assert forall|rm: u64, i: int|
        want.games.contains_key(rm) && 0 <= i < want.games[rm].players.len() implies want.enrolled.contains_key(
            #[trigger] want.games[rm].players[i],
        ) && want.enrolled[want.games[rm].players[i]] == rm by {
        assert(v.enrolled.contains_key(v.games[rm].players[i]));
    }
    assert forall|p: u64| #[trigger] want.enrolled.contains_key(p) implies want.games.contains_key(
        want.enrolled[p],
    ) && want.games[want.enrolled[p]].players.contains(p) by {
        assert(v.games.contains_key(v.enrolled[p]));
    }
}

/// Taking a session out of the registry, with its players unenrolled, keeps
/// the registry sound.
proof fn lemma_removal_keeps_wf(v: BotView, room: u64)
    requires
        v.wf(),
        v.games.contains_key(room),
    ensures
        (BotView {
            games: v.games.remove(room),
            enrolled: v.enrolled.remove_keys(v.games[room].players.to_set()),
            ..v
        }).wf(),
{
    let gone = v.games[room].players;
    let want = BotView {
        games: v.games.remove(room),
        enrolled: v.enrolled.remove_keys(gone.to_set()),
        ..v
    };
    assert forall|rm: u64, i: int|
        want.games.contains_key(rm) && 0 <= i < want.games[rm].players.len() implies want.enrolled.contains_key(
            #[trigger] want.games[rm].players[i],
        ) && want.enrolled[want.games[rm].players[i]] == rm by {
        let q = v.games[rm].players[i];
        assert(v.enrolled.contains_key(q));
        if gone.to_set().contains(q) {
            let j = choose|j: int| 0 <= j < gone.len() && gone[j] == q;
            assert(v.enrolled.contains_key(v.games[room].players[j]));
        }
    }
    assert forall|p: u64| #[trigger] want.enrolled.contains_key(p) implies want.games.contains_key(
        want.enrolled[p],
    ) && want.games[want.enrolled[p]].players.contains(p) by {
        assert(v.games.contains_key(v.enrolled[p]));
        if v.enrolled[p] == room {
            assert(gone.to_set().contains(p));
        }
    }
}

/// The rooms' sessions and who plays where; it decides what each message asks
/// for, and the caller carries out the talking.
pub struct DiscordBot {
    prefix: String,
    words: WordList,
    games: HashMap<u64, WordsAgainstStrangers>,
    dm_to_guild: HashMap<u64, u64>,
}

impl View for DiscordBot {
    type V = BotView;

    closed spec fn view(&self) -> BotView {
        BotView {
            prefix: self.prefix@,
            words: self.words@,
            games: self.games@.map_values(|g: WordsAgainstStrangers| g@),
            enrolled: self.dm_to_guild@,
        }
    }
}

impl DiscordBot {
    /// A bot with no sessions, answering commands that start with `prefix`
    /// and judging words against `words`.
    pub fn new(prefix: String, words: WordList) -> (r: DiscordBot)
        ensures
            r@.wf(),
            r@.prefix == prefix@,
            r@.words == words@,
            r@.games.is_empty(),
            r@.enrolled.is_empty(),
    {
        let r = DiscordBot { prefix, words, games: HashMap::new(), dm_to_guild: HashMap::new() };
        assert(r@.games =~= Map::empty());
        r
    }

    /// The room `player` plays in, if any.
    pub fn room_of(&self, player: u64) -> (r: Option<u64>)
        ensures
            r == (if self@.enrolled.contains_key(player) {
                Some(self@.enrolled[player])
            } else {
                None
            }),
    {
        match self.dm_to_guild.get(&player) {
            Some(room) => Some(*room),
            None => None,
        }
    }

    /// The session of `room`, if there is one.
    pub fn get_game(&self, room: u64) -> (r: Option<&WordsAgainstStrangers>)
        ensures
            match r {
                Some(g) => self@.games.contains_key(room) && g@ == self@.games[room],
                None => !self@.games.contains_key(room),
            },
    {
        self.games.get(&room)
    }

    /// Records the message that introduces the session of `room`; false where
    /// the room has none.
    pub fn set_header_message(&mut self, room: u64, message: u64) -> (r: bool)
        requires
            old(self)@.wf(),
        ensures
            final(self)@.wf(),
            r == old(self)@.games.contains_key(room),
            r ==> final(self)@ == (BotView {
                games: old(self)@.games.insert(room, SessionView { header: Some(message), ..old(self)@.games[room] }),
                ..old(self)@
            }),
            !r ==> final(self)@ == old(self)@,
    {
        let ghost v = self@;
        let mut game = match self.games.remove(&room) {
            Some(g) => g,
            None => {
                assert(self@.games =~= v.games);
                return false;
            },
        };
        assert(v.games.contains_key(room));
        assert(game@ == v.games[room]);
        game.set_header_message(message);
        self.games.insert(room, game);
        let ghost want = BotView {
            games: v.games.insert(room, SessionView { header: Some(message), ..v.games[room] }),
            ..v
        };
        assert(self@.games =~= want.games);
        proof {
            lemma_replace_keeps_wf(v, room, want.games[room]);
        }
        true
    }

    /// Makes a session in `room`, hosted by `author`, unless the room has one
    /// or the author plays elsewhere.
    pub fn new_game(&mut self, room: u64, channel: u64, author: u64) -> (r: Result<(), CommonMessages>)
        requires
            old(self)@.wf(),
        ensures
            final(self)@.wf(),
            (final(self)@, r) == old(self)@.after_new_game(room, channel, author),
    {
        if self.games.contains_key(&room) {
            return Err(CommonMessages::ExistingGame);
        }
        if self.dm_to_guild.contains_key(&author) {
            return Err(CommonMessages::AlreadyInGame);
        }
        let ghost v = self@;
        let game = WordsAgainstStrangers::new(channel, author);
        self.games.insert(room, game);
        self.dm_to_guild.insert(author, room);
        let ghost want = v.after_new_game(room, channel, author).0;
        assert(self@.games =~= want.games);
        proof {
            lemma_new_game_keeps_wf(v, room, channel, author);
        }
        Ok(())
    }

    /// Decides what a message asks for and does the registry's part of it.
    /// `guild` is the room the message was posted in, `None` for a direct
    /// message. A direct message from an enrolled player is a word to judge;
    /// a message that starts with the prefix is a command: `new`, `join` or
    /// `start`, which are refused in direct messages.
    pub fn handle_message(&mut self, author: u64, guild: Option<u64>, channel: u64, content: &String) -> (r:
        Vec<BotAction>)
        requires
            old(self)@.wf(),
        ensures
            final(self)@.wf(),
            ({
                let v = old(self)@;
                let judge = if guild is None && v.enrolled.contains_key(author) {
                    seq![BotAction::Judge(v.enrolled[author])]
                } else {
                    Seq::empty()
                };
                match command_of(v.prefix, content@) {
                    None => r@ == judge && final(self)@ == v,
                    Some(c) => match guild {
                        None => {
                            &&& r@ == judge.push(BotAction::Reply(CommonMessages::NoDmCommands))
                            &&& final(self)@ == v
                        },
                        Some(room) => if c == "new"@ {
                            let (w, res) = v.after_new_game(room, channel, author);
                            final(self)@ == w && r@ == seq![outcome_action(res, BotAction::Created(room))]
                        } else if c == "join"@ {
                            let (w, res) = v.after_join(room, author);
                            final(self)@ == w && r@ == seq![outcome_action(res, BotAction::Joined(room))]
                        } else if c == "start"@ {
                            match v.start_refusal(room, author) {
                                Some(m) => final(self)@ == v && r@ == seq![BotAction::Reply(m)],
                                None => {
                                    &&& r@ == seq![BotAction::Started(room)]
                                    &&& final(self)@ == (BotView {
                                        games: v.games.insert(room, final(self)@.games[room]),
                                        ..v
                                    })
                                    &&& final(self)@.games[room] == v.games[room].started(
                                        final(self)@.games[room].rounds,
                                    )
                                },
                            }
                        } else {
                            r@ == judge && final(self)@ == v
                        },
                    },
                }
            }),
    {
        let mut actions: Vec<BotAction> = Vec::new();
        if guild.is_none() {
            match self.dm_to_guild.get(&author) {
                Some(room) => actions.push(BotAction::Judge(*room)),
                None => {},
            }
        }
        if !matches_at(content.as_str(), self.prefix.as_str(), 0) {
            return actions;
        }
        let room = match guild {
            None => {
                actions.push(BotAction::Reply(CommonMessages::NoDmCommands));
                return actions;
            },
            Some(g) => g,
        };
        let n = content.as_str().unicode_len();
        let rest = content.as_str().substring_char(self.prefix.as_str().unicode_len(), n);
        let command = command_word(rest);
        if command == "new".to_owned() {
            match self.new_game(room, channel, author) {
                Ok(()) => actions.push(BotAction::Created(room)),
                Err(m) => actions.push(BotAction::Reply(m)),
            }
        } else if command == "join".to_owned() {
            match self.join_game(room, author) {
                Ok(()) => actions.push(BotAction::Joined(room)),
                Err(m) => actions.push(BotAction::Reply(m)),
            }
        } else if command == "start".to_owned() {
            match self.start_game(room, author) {
                Ok(()) => actions.push(BotAction::Started(room)),
                Err(m) => actions.push(BotAction::Reply(m)),
            }
        }
        actions
    }

    /// Adds `author` to the session of `room` while it is starting, unless
    /// they play somewhere already.
    pub fn join_game(&mut self, room: u64, author: u64) -> (r: Result<(), CommonMessages>)
        requires
            old(self)@.wf(),
        ensures
            final(self)@.wf(),
            (final(self)@, r) == old(self)@.after_join(room, author),
    {
        let ghost v = self@;
        let mut game = match self.games.remove(&room) {
            Some(g) => g,
            None => {
                assert(self@.games =~= v.games);
                return Err(CommonMessages::NoExistingGame);
            },
        };
        assert(v.games.contains_key(room));
        assert(game@ == v.games[room]);
        if game.get_state() != GameState::Starting {
            self.games.insert(room, game);
            assert(self@.games =~= v.games);
            return Err(CommonMessages::GameInProgress);
        }
        if self.dm_to_guild.contains_key(&author) {
            self.games.insert(room, game);
            assert(self@.games =~= v.games);
            return Err(CommonMessages::AlreadyInGame);
        }
        let _ = game.add_player(author);
        self.games.insert(room, game);
        self.dm_to_guild.insert(author, room);
        let ghost want = v.after_join(room, author).0;
        assert(self@.games =~= want.games);
        proof {
            lemma_join_keeps_wf(v, room, author);
        }
        Ok(())
    }

    /// Starts the session of `room` with random criteria, if `author` hosts it
    /// and it is still starting.
    pub fn start_game(&mut self, room: u64, author: u64) -> (r: Result<(), CommonMessages>)
        requires
            old(self)@.wf(),
        ensures
            final(self)@.wf(),
            match old(self)@.start_refusal(room, author) {
                Some(m) => r == Err::<(), CommonMessages>(m) && final(self)@ == old(self)@,
                None => {
                    &&& r is Ok
                    &&& final(self)@ == (BotView {
                        games: old(self)@.games.insert(room, final(self)@.games[room]),
                        ..old(self)@
                    })
                    &&& final(self)@.games[room] == old(self)@.games[room].started(final(self)@.games[room].rounds)
                    &&& forall|i: int|
                        0 <= i < final(self)@.games[room].rounds.len()
                            ==> (#[trigger] final(self)@.games[room].rounds[i]).fresh()
                            && valid_criteria(final(self)@.games[room].rounds[i].criteria)
                },
            },
    {
        let ghost v = self@;
        let mut game = match self.games.remove(&room) {
            Some(g) => g,
            None => {
                assert(self@.games =~= v.games);
                return Err(CommonMessages::NoExistingGame);
            },
        };
        assert(v.games.contains_key(room));
        assert(game@ == v.games[room]);
        let started = game.start(author);
        let result = match started {
            Ok(()) => Ok(()),
            Err(GameError::NotHost) => Err(CommonMessages::NoPermission),
            Err(_) => Err(CommonMessages::GameInProgress),
        };
        self.games.insert(room, game);
        proof {
            if result is Err {
                assert(self@.games =~= v.games);
            } else {
                assert(self@.games =~= v.games.insert(room, self@.games[room]));
                let want = self@;
                lemma_replace_keeps_wf(v, room, want.games[room]);
            }
        }
        result
    }

    /// Opens the next round of the session in `room`; the round timer calls it.
    pub fn begin_round(&mut self, room: u64) -> (r: Result<(), CommonMessages>)
        requires
            old(self)@.wf(),
        ensures
            final(self)@.wf(),
            (final(self)@, r) == old(self)@.after_begin(room),
    {
        let ghost v = self@;
        let mut game = match self.games.remove(&room) {
            Some(g) => g,
            None => {
                assert(self@.games =~= v.games);
                return Err(CommonMessages::NoExistingGame);
            },
        };
        assert(v.games.contains_key(room));
        assert(game@ == v.games[room]);
        let begun = game.begin_round();
        self.games.insert(room, game);
        if begun.is_err() {
            assert(self@.games =~= v.games);
            return Err(CommonMessages::GameInProgress);
        }
        let ghost want = v.after_begin(room).0;
        assert(self@.games =~= want.games);
        proof {
            lemma_replace_keeps_wf(v, room, want.games[room]);
        }
        Ok(())
    }

    /// Unenrolls each of `players`.
    fn release_players(&mut self, players: &Vec<u64>)
        ensures
            final(self)@ == (BotView { enrolled: old(self)@.enrolled.remove_keys(players@.to_set()), ..old(self)@ }),
    {
        let ghost v = self@;
        let ghost ps = players@;
        let n = players.len();
        assert(ps.subrange(0, 0).to_set() =~= Set::<u64>::empty());
        assert(v.enrolled.remove_keys(ps.subrange(0, 0).to_set()) =~= v.enrolled);
        for i in 0..n
            invariant
                n == ps.len(),
                players@ == ps,
                self@ == (BotView { enrolled: v.enrolled.remove_keys(ps.subrange(0, i as int).to_set()), ..v }),
        {
            let p = players[i];
            self.dm_to_guild.remove(&p);
            let ghost before = ps.subrange(0, i as int);
            let ghost upto = ps.subrange(0, i + 1);
            assert forall|x: u64| upto.to_set().contains(x) <==> before.to_set().insert(p).contains(x) by {
                if upto.contains(x) {
                    let j = choose|j: int| 0 <= j < upto.len() && upto[j] == x;
                    if j < i {
                        assert(before[j] == x);
                    }
                }
                if before.contains(x) {
                    let j = choose|j: int| 0 <= j < before.len() && before[j] == x;
                    assert(upto[j] == x);
                }
                if x == p {
                    assert(upto[i as int] == x);
                }
            }
            assert(upto.to_set() =~= before.to_set().insert(p));
            assert(self.dm_to_guild@ =~= v.enrolled.remove_keys(upto.to_set()));
        }
        assert(ps.subrange(0, n as int) =~= ps);
    }

    /// Takes the session of `room` out, ended or not, and unenrolls its
    /// players; `None` where the room has none.
    pub fn remove_game(&mut self, room: u64) -> (r: Option<WordsAgainstStrangers>)
        requires
            old(self)@.wf(),
        ensures
            final(self)@.wf(),
            match r {
                Some(g) => {
                    &&& old(self)@.games.contains_key(room)
                    &&& g@ == old(self)@.games[room]
                    &&& final(self)@ == (BotView {
                        games: old(self)@.games.remove(room),
                        enrolled: old(self)@.enrolled.remove_keys(g@.players.to_set()),
                        ..old(self)@
                    })
                },
                None => !old(self)@.games.contains_key(room) && final(self)@ == old(self)@,
            },
    {
        let ghost v = self@;
        let game = match self.games.remove(&room) {
            Some(g) => g,
            None => {
                assert(self@.games =~= v.games);
                return None;
            },
        };
        assert(v.games.contains_key(room));
        assert(game@ == v.games[room]);
        self.release_players(game.get_players());
        assert(self@.games =~= v.games.remove(room));
        proof {
            lemma_removal_keeps_wf(v, room);
        }
        Some(game)
    }

    /// Closes the running round of `room`; the round timer calls it. Gives
    /// back the session once it has played its last round and left.
    pub fn end_round(&mut self, room: u64) -> (r: Result<Option<WordsAgainstStrangers>, CommonMessages>)
        requires
            old(self)@.wf(),
        ensures
            final(self)@.wf(),
            final(self)@ == old(self)@.after_end(room).0,
            match (r, old(self)@.after_end(room).1) {
                (Ok(Some(g)), Ok(Some(s))) => g@ == s,
                (Ok(None), Ok(None)) => true,
                (Err(a), Err(b)) => a == b,
                _ => false,
            },
    {
        let ghost v = self@;
        let mut game = match self.games.remove(&room) {
            Some(g) => g,
            None => {
                assert(self@.games =~= v.games);
                return Err(CommonMessages::NoExistingGame);
            },
        };
        assert(v.games.contains_key(room));
        assert(game@ == v.games[room]);
        if game.end_round().is_err() {
            self.games.insert(room, game);
            assert(self@.games =~= v.games);
            return Err(CommonMessages::GameInProgress);
        }
        let ghost s = game@;
        if game.get_state() != GameState::Ended {
            self.games.insert(room, game);
            let ghost want = v.after_end(room).0;
            assert(self@.games =~= want.games);
            proof {
                lemma_replace_keeps_wf(v, room, want.games[room]);
            }
            return Ok(None);
        }
        self.release_players(game.get_players());
        let ghost want = v.after_end(room).0;
        assert(self@.games =~= want.games);
        assert(self@ == want);
        proof {
            lemma_removal_keeps_wf(v, room);
        }
        Ok(Some(game))
    }

    /// Judges `word` from `player` in the session they play in. `tags` is what
    /// the part-of-speech classifier said of the word, or `None` where it could
    /// not be reached.
    pub fn receive_word(&mut self, player: u64, word: String, tags: Option<SpeechTags>, bonus: bool) -> (r: Result<
        WordResult,
        CommonMessages,
    >)
        requires
            old(self)@.wf(),
        ensures
            final(self)@.wf(),
            (final(self)@, r) == old(self)@.after_word(player, word@, tags, bonus),
    {
        let ghost v = self@;
        let room = match self.dm_to_guild.get(&player) {
            Some(r) => *r,
            None => {
                return Err(CommonMessages::NotInGame);
            },
        };
        assert(v.games.contains_key(room));
        let mut game = match self.games.remove(&room) {
            Some(g) => g,
            None => {
                assert(self@.games =~= v.games);
                return Err(CommonMessages::NotInGame);
            },
        };
        assert(game@ == v.games[room]);
        let judged = game.receive_word(&self.words, player, word, tags, bonus);
        self.games.insert(room, game);
        let ghost want = v.after_word(player, word@, tags, bonus).0;
        assert(self@.games =~= want.games);
        proof {
            lemma_replace_keeps_wf(v, room, want.games[room]);
        }
        match judged {
            Ok(verdict) => Ok(verdict),
            Err(_) => Err(CommonMessages::NoActiveRound),
        }
    }
}

} // verus!

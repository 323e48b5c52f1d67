use vstd::prelude::*;
use crate::criteria::{generate_random_criteria, valid_criteria, Criteron};
use crate::words::{is_word, no_tags, SpeechTags, WordList};

verus! {

/// How a submitted word was judged.
#[derive(Clone, Copy, Debug, PartialEq, Eq, Structural)]
pub enum WordResult {
    Invalid,
    Scored,
    ScoredBonus,
    Blocked,
}

/// One word that scored: who sent it, the word, and whether it earned a bonus.
pub struct Scoring {
    pub player: u64,
    pub word: String,
    pub bonus: bool,
}

/// The abstract state of a round.
pub struct RoundView {
    /// The players, fixed when the round is made.
    pub players: Seq<u64>,
    /// The criteria, in the order they are shown.
    pub criteria: Seq<Criteron>,
    /// One entry for each time a word took one of its slots.
    pub uses: Seq<Seq<char>>,
    /// The scoring words, in the order they came: player, word, bonus.
    pub scored: Seq<(u64, Seq<char>, bool)>,
}

/// How many times `w` stands in `s`.
pub open spec fn count_of(s: Seq<Seq<char>>, w: Seq<char>) -> nat
    decreases s.len(),
{
    if s.len() == 0 {
        0
    } else {
        count_of(s.drop_last(), w) + if s.last() == w {
            1nat
        } else {
            0nat
        }
    }
}

/// The points `p` has from the scoring words `s`: two for a bonus word, else one.
pub open spec fn points_of(s: Seq<(u64, Seq<char>, bool)>, p: u64) -> nat
    decreases s.len(),
{
    if s.len() == 0 {
        0
    } else {
        points_of(s.drop_last(), p) + if s.last().0 != p {
            0nat
        } else if s.last().2 {
            2nat
        } else {
            1nat
        }
    }
}

/// Whether a word passes every criterion of `cs`.
pub open spec fn passes_all(cs: Seq<Criteron>, w: Seq<char>, tags: SpeechTags) -> bool {
    forall|i: int| 0 <= i < cs.len() ==> #[trigger] cs[i].holds(w, tags)
}

/// Checking `w` against `cs` in order reaches a part-of-speech criterion:
/// every criterion before the first such one passes. Only then is the
/// classifier's answer needed.
pub open spec fn asks_classifier(cs: Seq<Criteron>, w: Seq<char>) -> bool {
    exists|i: int|
        0 <= i < cs.len() && #[trigger] cs[i] is PartOfSpeech && forall|j: int|
            0 <= j < i ==> !(cs[j] is PartOfSpeech) && cs[j].holds(w, no_tags())
}

/// The classifier's answer, or no class where there is none.
pub open spec fn answered(tags: Option<SpeechTags>) -> SpeechTags {
    match tags {
        Some(t) => t,
        None => no_tags(),
    }
}

/// The points of a round as a `u64`, held at the largest value if they pass it.
pub open spec fn capped(n: nat) -> u64 {
    if n <= u64::MAX {
        n as u64
    } else {
        u64::MAX
    }
}

impl RoundView {
    /// How many times a word may take a slot in this round.
    pub open spec fn threshold(self) -> nat {
        self.players.len() / 2
    }

    pub open spec fn use_count(self, w: Seq<char>) -> nat {
        count_of(self.uses, w)
    }

    /// A round as made: nothing used, nothing scored.
    pub open spec fn fresh(self) -> bool {
        self.uses.len() == 0 && self.scored.len() == 0
    }

    /// The round after `player` sends `w`, and the verdict. `known` says
    /// whether the dictionary holds `w`, `tags` is what the part-of-speech
    /// classifier said of it (`None` where it could not be reached), and
    /// `bonus` whether it earns a bonus. Unknown words are invalid and change
    /// nothing; a word whose slots are all taken is blocked and changes
    /// nothing; a word whose check reaches a part-of-speech criterion with no
    /// answer is invalid and changes nothing, so that it may be sent again.
    /// Any other word takes a slot, and then scores if it passes every
    /// criterion, or is invalid if it does not.
    pub open spec fn after_word(
        self,
        known: bool,
        player: u64,
        w: Seq<char>,
        tags: Option<SpeechTags>,
        bonus: bool,
    ) -> (RoundView, WordResult) {
        if !known {
            (self, WordResult::Invalid)
        } else if self.use_count(w) >= self.threshold() {
            (self, WordResult::Blocked)
        } else if tags is None && asks_classifier(self.criteria, w) {
            (self, WordResult::Invalid)
        } else {
            let used = RoundView { uses: self.uses.push(w), ..self };
            if !passes_all(self.criteria, w, answered(tags)) {
                (used, WordResult::Invalid)
            } else {
                (
                    RoundView { scored: self.scored.push((player, w, bonus)), ..used },
                    if bonus {
                        WordResult::ScoredBonus
                    } else {
                        WordResult::Scored
                    },
                )
            }
        }
    }

    /// The points each player earned this round, in the order of `players`.
    pub open spec fn deltas(self) -> Seq<u64> {
        Seq::new(self.players.len(), |i: int| capped(points_of(self.scored, self.players[i])))
    }
}

/// The list of criteria as players read it: each on a line of its own after "- ".
pub open spec fn criteria_text(cs: Seq<Criteron>) -> Seq<char>
    decreases cs.len(),
{
    if cs.len() == 0 {
        Seq::empty()
    } else {
        criteria_text(cs.drop_last()) + "\n- "@ + cs.last().describe()
    }
}

/// Checks `word` against `criteria` in order: `None` where a part-of-speech
/// criterion is reached with no answer from the classifier, else whether every
/// criterion passes.
fn judge_criteria(criteria: &Vec<Criteron>, word: &String, tags: Option<SpeechTags>) -> (r: Option<bool>)
    ensures
        r is None <==> tags is None && asks_classifier(criteria@, word@),
        r matches Some(b) ==> b == passes_all(criteria@, word@, answered(tags)),
{
    let given = match tags {
        Some(t) => t,
        None => SpeechTags::none(),
    };
    let ghost cs = criteria@;
    let ghost w = word@;
    let n = criteria.len();
    for i in 0..n
        invariant
            n == cs.len(),
            cs == criteria@,
            w == word@,
            given == answered(tags),
            forall|j: int|
                0 <= j < i ==> (#[trigger] cs[j]).holds(w, given) && (tags is None ==> !(cs[j] is PartOfSpeech)),
    {
        let is_pos = match &criteria[i] {
            Criteron::PartOfSpeech(_) => true,
            _ => false,
        };
        if is_pos && tags.is_none() {
            assert(cs[i as int] is PartOfSpeech);
            return None;
        }
        if !criteria[i].test(word, &given) {
            assert(!cs[i as int].holds(w, given));
            if tags.is_none() {
                assert(!asks_classifier(cs, w)) by {
                    assert forall|k: int|
                        0 <= k < cs.len() && #[trigger] cs[k] is PartOfSpeech implies !(forall|j: int|
                            0 <= j < k ==> !(cs[j] is PartOfSpeech) && cs[j].holds(w, no_tags())) by {
                        if k < i {
                            assert(!(cs[k] is PartOfSpeech));
                        } else if k > i {
                            assert(!cs[i as int].holds(w, no_tags()));
                        }
                    }
                }
            }
            return Some(false);
        }
    }
    Some(true)
}

/// One timed round: its players, criteria, and what has been sent so far.
pub struct Round {
    players: Vec<u64>,
    criteria: Vec<Criteron>,
    uses: Vec<String>,
    scored: Vec<Scoring>,
}

impl View for Round {
    type V = RoundView;

    closed spec fn view(&self) -> RoundView {
        RoundView {
            players: self.players@,
            criteria: self.criteria@,
            uses: self.uses@.map_values(|s: String| s@),
            scored: self.scored@.map_values(|s: Scoring| (s.player, s.word@, s.bonus)),
        }
    }
}

fn copy_players(players: &Vec<u64>) -> (r: Vec<u64>)
    ensures
        r@ == players@,
{
    let mut r: Vec<u64> = Vec::new();
    for i in 0..players.len()
        invariant
            r@ == players@.subrange(0, i as int),
    {
        r.push(players[i]);
    }
    assert(r@ =~= players@);
    r
}

impl Round {
    /// A fresh round for `players` with the given criteria.
    pub fn with_criteria(players: &Vec<u64>, criteria: Vec<Criteron>) -> (r: Round)
        requires
            players@.no_duplicates(),
        ensures
            r@ == (RoundView {
                players: players@,
                criteria: criteria@,
                uses: Seq::empty(),
                scored: Seq::empty(),
            }),
    {
        let r = Round { players: copy_players(players), criteria, uses: Vec::new(), scored: Vec::new() };
        assert(r@.uses =~= Seq::<Seq<char>>::empty());
        assert(r@.scored =~= Seq::<(u64, Seq<char>, bool)>::empty());
        r
    }

    /// A fresh round for `players` with randomly drawn criteria.
    pub fn new(players: &Vec<u64>) -> (r: Round)
        requires
            players@.no_duplicates(),
        ensures
            r@.players == players@,
            valid_criteria(r@.criteria),
            r@.fresh(),
    {
        Round::with_criteria(players, generate_random_criteria())
    }

    pub fn get_players(&self) -> (r: &Vec<u64>)
        ensures
            r@ == self@.players,
    {
        &self.players
    }

    pub fn get_criteria(&self) -> (r: &Vec<Criteron>)
        ensures
            r@ == self@.criteria,
    {
        &self.criteria
    }

    pub fn get_criteria_string(&self) -> (r: String)
        ensures
            r@ == criteria_text(self@.criteria),
    {
        let ghost cs = self@.criteria;
        let mut s = String::new();
        for i in 0..self.criteria.len()
            invariant
                cs == self@.criteria,
                s@ == criteria_text(cs.subrange(0, i as int)),
        {
            assert(cs.subrange(0, i + 1).drop_last() =~= cs.subrange(0, i as int));
            s.append("\n- ");
            let line = self.criteria[i].to_string();
            s.append(line.as_str());
            assert(s@ =~= criteria_text(cs.subrange(0, i as int)) + "\n- "@ + cs[i as int].describe());
        }
        assert(cs.subrange(0, self.criteria.len() as int) =~= cs);
        s
    }

    /// How many times `word` has taken a slot so far.
    pub fn use_count(&self, word: &String) -> (r: usize)
        ensures
            r == self@.use_count(word@),
    {
        let ghost all = self@.uses;
        let mut c: usize = 0;
        for i in 0..self.uses.len()
            invariant
                all == self@.uses,
                all.len() == self.uses@.len(),
                c == count_of(all.subrange(0, i as int), word@),
                c <= i,
        {
            assert(all.subrange(0, i + 1).drop_last() =~= all.subrange(0, i as int));
            if self.uses[i] == *word {
                c = c + 1;
            }
        }
        assert(all.subrange(0, self.uses.len() as int) =~= all);
        c
    }

    /// Judges `word` from `player`, as `after_word` says.
    pub fn receive_word(
        &mut self,
        list: &WordList,
        player: u64,
        word: String,
        tags: Option<SpeechTags>,
        bonus: bool,
    ) -> (r: WordResult)
        ensures
            (final(self)@, r) == old(self)@.after_word(list@.contains(word@), player, word@, tags, bonus),
    {
        if !is_word(list, &word) {
            return WordResult::Invalid;
        }
        let count = self.use_count(&word);
        if count >= self.players.len() / 2 {
            return WordResult::Blocked;
        }
        let passes = match judge_criteria(&self.criteria, &word, tags) {
            Some(p) => p,
            None => {
                return WordResult::Invalid;
            },
        };
        let ghost before = self@;
        self.uses.push(word.clone());
        assert(self@.uses =~= before.uses.push(word@));
        if !passes {
            return WordResult::Invalid;
        }
        self.scored.push(Scoring { player, word, bonus });
        assert(self@.scored =~= before.scored.push((player, word@, bonus)));
        if bonus {
            WordResult::ScoredBonus
        } else {
            WordResult::Scored
        }
    }

    /// The points each player earned in this round, in the order of the players.
    pub fn end_round(&self) -> (r: Vec<u64>)
        ensures
            r@ == self@.deltas(),
    {
        let ghost v = self@;
        let mut r: Vec<u64> = Vec::new();
        for i in 0..self.players.len()
            invariant
                v == self@,
                r@.len() == i,
                forall|k: int| 0 <= k < i ==> r@[k] == v.deltas()[k],
        {
            let p = self.players[i];
            let mut total: u64 = 0;
            for j in 0..self.scored.len()
                invariant
                    v == self@,
                    p == v.players[i as int],
                    total == capped(points_of(v.scored.subrange(0, j as int), p)),
            {
                assert(v.scored.subrange(0, j + 1).drop_last() =~= v.scored.subrange(0, j as int));
                if self.scored[j].player == p {
                    let gain: u64 = if self.scored[j].bonus {
                        2
                    } else {
                        1
                    };
                    total = total.saturating_add(gain);
                }
            }
            assert(v.scored.subrange(0, self.scored.len() as int) =~= v.scored);
            r.push(total);
        }
        assert(r@ =~= v.deltas());
        r
    }
}

/// The round and the verdicts after the same known word `w` is sent once for
/// each entry of `sends` (the sender, the tags the classifier gave, and whether
/// the word earns a bonus), in order.
pub open spec fn send_repeatedly(v: RoundView, w: Seq<char>, sends: Seq<(u64, SpeechTags, bool)>) -> (
    RoundView,
    Seq<WordResult>,
)
    decreases sends.len(),
{
    if sends.len() == 0 {
        (v, Seq::empty())
    } else {
        let (v1, rs) = send_repeatedly(v, w, sends.drop_last());
        let (v2, r) = v1.after_word(true, sends.last().0, w, Some(sends.last().1), sends.last().2);
        (v2, rs.push(r))
    }
}

/// The verdict a known word earns when it is not blocked.
pub open spec fn unblocked_verdict(v: RoundView, w: Seq<char>, tags: SpeechTags, bonus: bool) -> WordResult {
    if !passes_all(v.criteria, w, tags) {
        WordResult::Invalid
    } else if bonus {
        WordResult::ScoredBonus
    } else {
        WordResult::Scored
    }
}

proof fn lemma_send_repeatedly(v: RoundView, w: Seq<char>, sends: Seq<(u64, SpeechTags, bool)>)
    ensures
        send_repeatedly(v, w, sends).1.len() == sends.len(),
        send_repeatedly(v, w, sends).0.players == v.players,
        send_repeatedly(v, w, sends).0.criteria == v.criteria,
        send_repeatedly(v, w, sends).0.use_count(w) == if v.use_count(w) >= v.threshold() {
            v.use_count(w)
        } else if v.use_count(w) + sends.len() <= v.threshold() {
            v.use_count(w) + sends.len()
        } else {
            v.threshold()
        },
        forall|i: int|
            0 <= i < sends.len() ==> (#[trigger] send_repeatedly(v, w, sends).1[i] == WordResult::Blocked
                <==> v.use_count(w) + i >= v.threshold()),
        forall|i: int|
            0 <= i < sends.len() && v.use_count(w) + i < v.threshold() ==> #[trigger] send_repeatedly(
                v,
                w,
                sends,
            ).1[i] == unblocked_verdict(v, w, sends[i].1, sends[i].2),
    decreases sends.len(),
{
    if sends.len() > 0 {
        let prev = sends.drop_last();
        lemma_send_repeatedly(v, w, prev);
        let (v1, rs) = send_repeatedly(v, w, prev);
        let (v2, r) = v1.after_word(true, sends.last().0, w, Some(sends.last().1), sends.last().2);
        assert(v1.uses.push(w).drop_last() =~= v1.uses);
        let out = send_repeatedly(v, w, sends);
        assert(out.1 == rs.push(r));
        assert forall|i: int| 0 <= i < prev.len() implies out.1[i] == rs[i] && sends[i] == prev[i] by {}
    }
}

/// A word may take a slot `floor(players / 2)` times in a round, whoever sends
/// it: sent again and again from none, it is blocked from exactly that
/// submission on, and before that it scores whenever it passes the criteria.
pub proof fn throttle_law(v: RoundView, w: Seq<char>, sends: Seq<(u64, SpeechTags, bool)>)
    requires
        v.use_count(w) == 0,
    ensures
        send_repeatedly(v, w, sends).1.len() == sends.len(),
        forall|i: int|
            0 <= i < sends.len() ==> (#[trigger] send_repeatedly(v, w, sends).1[i] == WordResult::Blocked
                <==> i >= v.threshold()),
        forall|i: int|
            0 <= i < sends.len() && i < v.threshold() && passes_all(v.criteria, w, sends[i].1) ==> (
            #[trigger] send_repeatedly(v, w, sends).1[i] == WordResult::Scored || send_repeatedly(
                v,
                w,
                sends,
            ).1[i] == WordResult::ScoredBonus),
{
    lemma_send_repeatedly(v, w, sends);
}

/// No word ever takes more than `floor(players / 2)` slots of a round: a
/// submission past that is refused, not counted, and a submission of one word
/// leaves every other word's count as it was.
pub proof fn use_count_stays_capped(
    v: RoundView,
    known: bool,
    player: u64,
    w: Seq<char>,
    tags: Option<SpeechTags>,
    bonus: bool,
    x: Seq<char>,
)
    requires
        v.use_count(x) <= v.threshold(),
    ensures
        v.after_word(known, player, w, tags, bonus).0.use_count(x) <= v.after_word(known, player, w, tags, bonus).0.threshold(),
        x != w ==> v.after_word(known, player, w, tags, bonus).0.use_count(x) == v.use_count(x),
{
    assert(v.uses.push(w).drop_last() =~= v.uses);
}

/// A known word that fails the criteria still takes a slot: after
/// `floor(players / 2)` failing sends, the next send is blocked even where it
/// would pass.
pub proof fn failed_words_take_slots(v: RoundView, w: Seq<char>, sends: Seq<(u64, SpeechTags, bool)>)
    requires
        v.use_count(w) == 0,
        sends.len() == v.threshold() + 1,
        forall|i: int| 0 <= i < v.threshold() ==> !passes_all(v.criteria, w, #[trigger] sends[i].1),
    ensures
        forall|i: int|
            0 <= i < v.threshold() ==> #[trigger] send_repeatedly(v, w, sends).1[i] == WordResult::Invalid,
        send_repeatedly(v, w, sends).1[v.threshold() as int] == WordResult::Blocked,
{
    lemma_send_repeatedly(v, w, sends);
}

} // verus!

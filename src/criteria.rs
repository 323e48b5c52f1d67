use vstd::prelude::*;
use crate::text::{decimal, joined, number_text};
use crate::words::{is_rhyme, pos_name, rhyme_of, PartsOfSpeech, SpeechTags};

verus! {

/// One test that a submitted word must pass.
#[derive(Debug, PartialEq, Eq)]
pub enum Criteron {
    StartsWith(String),
    EndsWith(String),
    Contains(String),
    OfLength(usize),
    MinLength(usize),
    RhymesWith(String),
    PartOfSpeech(PartsOfSpeech),
}

/// `pat` stands in `word` from character `at` on.
pub open spec fn occurs_at(word: Seq<char>, pat: Seq<char>, at: int) -> bool {
    0 <= at && at + pat.len() <= word.len() && word.subrange(at, at + pat.len()) == pat
}

impl Criteron {
    /// Whether a word, with the parts of speech `tags` says it is, passes.
    pub open spec fn holds(self, w: Seq<char>, tags: SpeechTags) -> bool {
        match self {
            Criteron::StartsWith(p) => occurs_at(w, p@, 0),
            Criteron::EndsWith(p) => occurs_at(w, p@, w.len() - p@.len()),
            Criteron::Contains(p) => exists|i: int| #[trigger] occurs_at(w, p@, i),
            Criteron::OfLength(n) => w.len() == n,
            Criteron::MinLength(n) => w.len() >= n,
            Criteron::RhymesWith(p) => rhyme_of(w, p@),
            Criteron::PartOfSpeech(t) => tags.includes(t),
        }
    }

    /// The line that tells players what the criterion asks for.
    pub open spec fn describe(self) -> Seq<char> {
        match self {
            Criteron::StartsWith(p) => "Start with `"@ + p@ + "`"@,
            Criteron::EndsWith(p) => "End with `"@ + p@ + "`"@,
            Criteron::Contains(p) => "Contain `"@ + p@ + "`"@,
            Criteron::OfLength(n) => "Are exactly `"@ + decimal(n as nat) + "` letters long"@,
            Criteron::MinLength(n) => "Are at least `"@ + decimal(n as nat) + "` letters long"@,
            Criteron::RhymesWith(p) => "Rhyme with \"`"@ + p@ + "`\""@,
            Criteron::PartOfSpeech(t) => "Are `"@ + pos_name(t) + "`s"@,
        }
    }

    /// One of the kinds drawn first for a round.
    pub open spec fn is_primary(self) -> bool {
        self is StartsWith || self is EndsWith || self is Contains
    }

    /// One of the kinds drawn second for a round, with its length in range.
    pub open spec fn is_secondary(self) -> bool {
        match self {
            Criteron::OfLength(n) => 6 <= n <= 10,
            Criteron::MinLength(n) => 8 <= n <= 11,
            Criteron::RhymesWith(_) => true,
            Criteron::PartOfSpeech(_) => true,
            _ => false,
        }
    }

    pub fn test(&self, word: &String, tags: &SpeechTags) -> (r: bool)
        ensures
            r == self.holds(word@, *tags),
    {
        match self {
            Criteron::StartsWith(p) => matches_at(word.as_str(), p.as_str(), 0),
            Criteron::EndsWith(p) => {
                let wl = word.as_str().unicode_len();
                let pl = p.as_str().unicode_len();
                if pl > wl {
                    false
                } else {
                    matches_at(word.as_str(), p.as_str(), wl - pl)
                }
            },
            Criteron::Contains(p) => occurs_anywhere(word.as_str(), p.as_str()),
            Criteron::OfLength(n) => word.as_str().unicode_len() == *n,
            Criteron::MinLength(n) => word.as_str().unicode_len() >= *n,
            Criteron::RhymesWith(p) => is_rhyme(word, p),
            Criteron::PartOfSpeech(t) => tags.has(*t),
        }
    }

    pub fn to_string(&self) -> (r: String)
        ensures
            r@ == self.describe(),
    {
        match self {
            Criteron::StartsWith(p) => quoted("Start with `", p.as_str(), "`"),
            Criteron::EndsWith(p) => quoted("End with `", p.as_str(), "`"),
            Criteron::Contains(p) => quoted("Contain `", p.as_str(), "`"),
            Criteron::OfLength(n) => {
                let digits = number_text(*n as u64);
                quoted("Are exactly `", digits.as_str(), "` letters long")
            },
            Criteron::MinLength(n) => {
                let digits = number_text(*n as u64);
                quoted("Are at least `", digits.as_str(), "` letters long")
            },
            Criteron::RhymesWith(p) => quoted("Rhyme with \"`", p.as_str(), "`\""),
            Criteron::PartOfSpeech(t) => {
                let name = t.to_string();
                quoted("Are `", name.as_str(), "`s")
            },
        }
    }
}

fn quoted(before: &str, middle: &str, after: &str) -> (r: String)
    ensures
        r@ == before@ + middle@ + after@,
{
    let mut s = joined(before, middle);
    s.append(after);
    s
}

/// Whether `pat` stands in `word` from character `at` on.
pub(crate) fn matches_at(word: &str, pat: &str, at: usize) -> (r: bool)
    requires
        at <= word@.len(),
    ensures
        r == occurs_at(word@, pat@, at as int),
{
    let wl = word.unicode_len();
    let pl = pat.unicode_len();
    if pl > wl - at {
        return false;
    }
    for j in 0..pl
        invariant
            wl == word@.len(),
            pl == pat@.len(),
            at + pl <= wl,
            forall|k: int| 0 <= k < j ==> word@[at + k] == pat@[k],
    {
        if word.get_char(at + j) != pat.get_char(j) {
            assert(word@.subrange(at as int, at + pl)[j as int] != pat@[j as int]);
            return false;
        }
    }
    assert(word@.subrange(at as int, at + pl) =~= pat@);
    true
}

/// Whether `pat` stands anywhere in `word`.
fn occurs_anywhere(word: &str, pat: &str) -> (r: bool)
    ensures
        r == exists|i: int| #[trigger] occurs_at(word@, pat@, i),
{
    let wl = word.unicode_len();
    let pl = pat.unicode_len();
    if pl > wl {
        return false;
    }
    let last = wl - pl;
    let mut at: usize = 0;
    loop
        invariant
            wl == word@.len(),
            pl == pat@.len(),
            last == wl - pl,
            at <= last,
            forall|i: int| 0 <= i < at ==> !occurs_at(word@, pat@, i),
        decreases last - at,
    {
        if matches_at(word, pat, at) {
            return true;
        }
        if at == last {
            return false;
        }
        at = at + 1;
    }
}

/// Relies on `rand::distributions::WeightedIndex` (built by `new`, drawn from by
/// `sample` with `rand::thread_rng`): an index of `weights`, chosen at random.
#[verifier::external_body]
fn weighted_draw(weights: &[u32]) -> (r: usize)
    requires
        0 < weights@.len() <= 8,
        forall|i: int| 0 <= i < weights@.len() ==> 0 < #[trigger] weights@[i] <= 1_000_000,
    ensures
        r < weights@.len(),
{
    let dist = rand::distributions::WeightedIndex::new(weights).unwrap();
    rand::distributions::Distribution::sample(&dist, &mut rand::thread_rng())
}

/// Relies on `rand::Rng::gen_range` with `rand::thread_rng`: a number in `lo..=hi`,
/// chosen at random.
#[verifier::external_body]
fn draw_between(lo: usize, hi: usize) -> (r: usize)
    requires
        lo <= hi,
    ensures
        lo <= r <= hi,
{
    rand::Rng::gen_range(&mut rand::thread_rng(), lo..=hi)
}

/// The primary criterion at `index` of the primary draw: starting with "te",
/// ending with "ge", containing "on".
pub open spec fn primary_at(index: nat, c: Criteron) -> bool {
    match c {
        Criteron::StartsWith(p) => index == 0 && p@ == "te"@,
        Criteron::EndsWith(p) => index == 1 && p@ == "ge"@,
        Criteron::Contains(p) => index == 2 && p@ == "on"@,
        _ => false,
    }
}

/// The secondary criterion at `index` of the secondary draw, with `length`
/// for the two kinds that take one: an exact length, a least length, rhyming
/// with "finally", being a noun.
pub open spec fn secondary_at(index: nat, length: usize, c: Criteron) -> bool {
    match c {
        Criteron::OfLength(n) => index == 0 && n == length,
        Criteron::MinLength(n) => index == 1 && n == length,
        Criteron::RhymesWith(p) => index == 2 && p@ == "finally"@,
        Criteron::PartOfSpeech(t) => index == 3 && t == PartsOfSpeech::Noun,
        _ => false,
    }
}

pub fn starts_with() -> (r: Criteron)
    ensures
        primary_at(0, r),
{
    Criteron::StartsWith("te".to_owned())
}

pub fn ends_with() -> (r: Criteron)
    ensures
        primary_at(1, r),
{
    Criteron::EndsWith("ge".to_owned())
}

pub fn contains() -> (r: Criteron)
    ensures
        primary_at(2, r),
{
    Criteron::Contains("on".to_owned())
}

pub fn rhymes_with() -> (r: Criteron)
    ensures
        secondary_at(2, 0, r),
{
    Criteron::RhymesWith("finally".to_owned())
}

pub fn part_of_speech() -> (r: Criteron)
    ensures
        secondary_at(3, 0, r),
        r == Criteron::PartOfSpeech(PartsOfSpeech::Noun),
{
    Criteron::PartOfSpeech(PartsOfSpeech::Noun)
}

/// The criterion that a draw picks: `index` among the primary kinds or among
/// the secondary ones, and `length` for an exact (6 to 10) or least (8 to 11)
/// length.
pub fn criterion_for(primary: bool, index: usize, length: usize) -> (r: Criteron)
    requires
        primary ==> index < 3,
        !primary ==> index < 4,
        !primary && index == 0 ==> 6 <= length <= 10,
        !primary && index == 1 ==> 8 <= length <= 11,
    ensures
        primary ==> primary_at(index as nat, r) && r.is_primary(),
        !primary ==> secondary_at(index as nat, length, r) && r.is_secondary(),
{
    if primary {
        match index {
            0 => starts_with(),
            1 => ends_with(),
            _ => contains(),
        }
    } else {
        match index {
            0 => Criteron::OfLength(length),
            1 => Criteron::MinLength(length),
            2 => rhymes_with(),
            _ => part_of_speech(),
        }
    }
}

/// An exact length, drawn from 6 to 10.
pub fn of_length() -> (r: Criteron)
    ensures
        r matches Criteron::OfLength(n) && 6 <= n <= 10,
{
    criterion_for(false, 0, draw_between(6, 10))
}

/// A least length, drawn from 8 to 11.
pub fn min_length() -> (r: Criteron)
    ensures
        r matches Criteron::MinLength(n) && 8 <= n <= 11,
{
    criterion_for(false, 1, draw_between(8, 11))
}

/// A random criterion: of the primary kinds, weighted 50, 40, 20; of the
/// secondary ones, weighted 20, 30, 10, 10, with a length drawn where the kind
/// takes one.
fn generate_random_criteron(primary: bool) -> (r: Criteron)
    ensures
        primary ==> r.is_primary() && exists|i: nat| i < 3 && primary_at(i, r),
        !primary ==> r.is_secondary() && exists|i: nat, n: usize| i < 4 && secondary_at(i, n, r),
{
    if primary {
        let weights: [u32; 3] = [50, 40, 20];
        let index = weighted_draw(&weights);
        criterion_for(true, index, 0)
    } else {
        let weights: [u32; 4] = [20, 30, 10, 10];
        let index = weighted_draw(&weights);
        let length = if index == 0 {
            draw_between(6, 10)
        } else if index == 1 {
            draw_between(8, 11)
        } else {
            0
        };
        criterion_for(false, index, length)
    }
}

/// The criteria of a round from its draws. `count_draw` 0 asks for one
/// criterion, the primary alone, and no secondary is drawn. `count_draw` 1
/// asks for two, the primary then the secondary, except that an ending beside
/// a rhyme gives way to the rhyme alone.
pub open spec fn criteria_of(count_draw: nat, first: Criteron, second: Option<Criteron>) -> Seq<Criteron> {
    match second {
        Some(s) if count_draw == 1 => if first is EndsWith && s is RhymesWith {
            seq![s]
        } else {
            seq![first, s]
        },
        _ => seq![first],
    }
}

/// What every generated set of criteria is: one or two of them, a primary kind
/// first and a secondary kind second, never an ending beside a rhyme; or one
/// alone, a primary kind or a rhyme (what is left of an ending beside it).
pub open spec fn valid_criteria(cs: Seq<Criteron>) -> bool {
    &&& cs.len() == 1 || cs.len() == 2
    &&& cs.len() == 1 ==> cs[0].is_primary() || cs[0] is RhymesWith
    &&& cs.len() == 2 ==> cs[0].is_primary() && cs[1].is_secondary() && !(cs[0] is EndsWith
        && cs[1] is RhymesWith)
}

/// Puts the drawn criteria together as `criteria_of` says; `second` is drawn
/// exactly when `count_draw` is 1.
pub fn assemble_criteria(count_draw: usize, first: Criteron, second: Option<Criteron>) -> (r: Vec<
    Criteron,
>)
    requires
        count_draw < 2,
        count_draw == 1 <==> second is Some,
    ensures
        r@ == criteria_of(count_draw as nat, first, second),
        first.is_primary() && (second matches Some(s) ==> s.is_secondary()) ==> valid_criteria(r@),
{
    match second {
        None => vec![first],
        Some(s) => {
            let collapse = match (&first, &s) {
                (Criteron::EndsWith(_), Criteron::RhymesWith(_)) => true,
                _ => false,
            };
            if collapse {
                vec![s]
            } else {
                vec![first, s]
            }
        },
    }
}

/// A random set of criteria for one round: one criterion twice as often as
/// two, the second drawn only when two are asked for.
pub fn generate_random_criteria() -> (r: Vec<Criteron>)
    ensures
        valid_criteria(r@),
{
    let weights: [u32; 2] = [100, 50];
    let count_draw = weighted_draw(&weights);
    let first = generate_random_criteron(true);
    let second = if count_draw == 1 {
        Some(generate_random_criteron(false))
    } else {
        None
    };
    assemble_criteria(count_draw, first, second)
}

/// Whatever the draws, a round gets one or two criteria: one draw gives the
/// primary alone; two give both, but an ending drawn with a rhyme gives way
/// to the rhyme alone.
pub proof fn criteria_count_law(count_draw: nat, first: Criteron, second: Option<Criteron>)
    requires
        count_draw < 2,
        count_draw == 1 <==> second is Some,
    ensures
        criteria_of(count_draw, first, second).len() == 1 || criteria_of(count_draw, first, second).len() == 2,
        count_draw == 0 ==> criteria_of(count_draw, first, second) == seq![first],
        second matches Some(s) ==> (first is EndsWith && s is RhymesWith <==> criteria_of(
            count_draw,
            first,
            second,
        ) == seq![s]),
{
    if let Some(s) = second {
        if !(first is EndsWith && s is RhymesWith) {
            assert(criteria_of(count_draw, first, second).len() == 2);
        }
    }
}

} // verus!

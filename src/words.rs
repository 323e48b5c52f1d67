use vstd::prelude::*;

verus! {

/// The grammatical classes a word can be asked about.
#[derive(Clone, Copy, Debug, PartialEq, Eq, Structural)]
pub enum PartsOfSpeech {
    Noun,
    Verb,
    Adverb,
    Adjective,
}

/// The English name of a part of speech.
pub open spec fn pos_name(p: PartsOfSpeech) -> Seq<char> {
    match p {
        PartsOfSpeech::Noun => "noun"@,
        PartsOfSpeech::Verb => "verb"@,
        PartsOfSpeech::Adverb => "adverb"@,
        PartsOfSpeech::Adjective => "adjective"@,
    }
}

/// The option that selects a part of speech on the `wordpos` command line.
pub open spec fn pos_option(p: PartsOfSpeech) -> Seq<char> {
    match p {
        PartsOfSpeech::Noun => "-n"@,
        PartsOfSpeech::Verb => "-v"@,
        PartsOfSpeech::Adverb => "-r"@,
        PartsOfSpeech::Adjective => "-a"@,
    }
}

impl PartsOfSpeech {
    pub fn to_string(&self) -> (r: String)
        ensures
            r@ == pos_name(*self),
    {
        match self {
            PartsOfSpeech::Noun => "noun".to_owned(),
            PartsOfSpeech::Verb => "verb".to_owned(),
            PartsOfSpeech::Adverb => "adverb".to_owned(),
            PartsOfSpeech::Adjective => "adjective".to_owned(),
        }
    }

    pub fn wordpos_opt(&self) -> (r: &'static str)
        ensures
            r@ == pos_option(*self),
    {
        match self {
            PartsOfSpeech::Noun => "-n",
            PartsOfSpeech::Verb => "-v",
            PartsOfSpeech::Adverb => "-r",
            PartsOfSpeech::Adjective => "-a",
        }
    }
}

/// What an outside classifier said of one word: which parts of speech it is.
#[derive(Clone, Copy, Debug, PartialEq, Eq, Structural)]
pub struct SpeechTags {
    pub noun: bool,
    pub verb: bool,
    pub adverb: bool,
    pub adjective: bool,
}

/// Tags that place a word in no class.
pub open spec fn no_tags() -> SpeechTags {
    SpeechTags { noun: false, verb: false, adverb: false, adjective: false }
}

impl SpeechTags {
    pub open spec fn includes(self, p: PartsOfSpeech) -> bool {
        match p {
            PartsOfSpeech::Noun => self.noun,
            PartsOfSpeech::Verb => self.verb,
            PartsOfSpeech::Adverb => self.adverb,
            PartsOfSpeech::Adjective => self.adjective,
        }
    }

    /// Tags for a word that the classifier placed in no class.
    pub fn none() -> (r: SpeechTags)
        ensures
            r == no_tags(),
            forall|p: PartsOfSpeech| !r.includes(p),
    {
        SpeechTags { noun: false, verb: false, adverb: false, adjective: false }
    }

    pub fn has(&self, p: PartsOfSpeech) -> (r: bool)
        ensures
            r == self.includes(p),
    {
        match p {
            PartsOfSpeech::Noun => self.noun,
            PartsOfSpeech::Verb => self.verb,
            PartsOfSpeech::Adverb => self.adverb,
            PartsOfSpeech::Adjective => self.adjective,
        }
    }
}

/// The dictionary of accepted words, fixed once built.
pub struct WordList {
    words: Vec<String>,
}

impl View for WordList {
    type V = Set<Seq<char>>;

    closed spec fn view(&self) -> Set<Seq<char>> {
        Set::new(|w: Seq<char>| exists|i: int| 0 <= i < self.words@.len() && self.words@[i]@ == w)
    }
}

impl WordList {
    /// A dictionary holding exactly the given words.
    pub fn new(words: Vec<String>) -> (r: WordList)
        ensures
            forall|w: Seq<char>|
                r@.contains(w) <==> exists|i: int| 0 <= i < words@.len() && #[trigger] words@[i]@ == w,
    {
        WordList { words }
    }
}

/// Whether `word` is in the dictionary.
pub fn is_word(list: &WordList, word: &String) -> (r: bool)
    ensures
        r == list@.contains(word@),
{
    let n = list.words.len();
    for i in 0..n
        invariant
            n == list.words@.len(),
            forall|j: int| 0 <= j < i ==> list.words@[j]@ != word@,
    {
        if list.words[i] == *word {
            return true;
        }
    }
    false
}

/// The characters of Unicode's White_Space property, those that
/// `char::is_whitespace` accepts.
pub open spec fn is_space(c: char) -> bool {
    ||| '\t' <= c <= '\r'
    ||| c == ' '
    ||| c == '\u{85}'
    ||| c == '\u{a0}'
    ||| c == '\u{1680}'
    ||| '\u{2000}' <= c <= '\u{200a}'
    ||| c == '\u{2028}'
    ||| c == '\u{2029}'
    ||| c == '\u{202f}'
    ||| c == '\u{205f}'
    ||| c == '\u{3000}'
}

fn space_char(c: char) -> (r: bool)
    ensures
        r == is_space(c),
{
    ('\t' <= c && c <= '\r') || c == ' ' || c == '\u{85}' || c == '\u{a0}' || c == '\u{1680}' || ('\u{2000}'
        <= c && c <= '\u{200a}') || c == '\u{2028}' || c == '\u{2029}' || c == '\u{202f}' || c == '\u{205f}'
        || c == '\u{3000}'
}

/// Where the run of non-space characters that ends just before `j` begins.
pub open spec fn run_start(s: Seq<char>, j: int) -> int
    decreases j,
{
    if j <= 0 {
        0
    } else if is_space(s[j - 1]) {
        j
    } else {
        run_start(s, j - 1)
    }
}

proof fn lemma_run_start_bounds(s: Seq<char>, j: int)
    requires
        0 <= j,
    ensures
        0 <= run_start(s, j) <= j,
    decreases j,
{
    if j > 0 {
        lemma_run_start_bounds(s, j - 1);
    }
}

/// `s[j]` is a '1', and the first of its word.
pub open spec fn first_one_at(s: Seq<char>, j: int) -> bool {
    s[j] == '1' && forall|k: int| run_start(s, j) <= k < j ==> s[k] != '1'
}

/// How many of the space-separated words of `s[..n]` hold a '1'.
pub open spec fn words_with_one(s: Seq<char>, n: int) -> nat
    decreases n,
{
    if n <= 0 {
        0
    } else {
        words_with_one(s, n - 1) + if first_one_at(s, n - 1) {
            1nat
        } else {
            0nat
        }
    }
}

/// The index of the first line break of `s` at or after `from`, or the length of `s`.
pub open spec fn next_newline(s: Seq<char>, from: int) -> int
    decreases s.len() - from,
{
    if from >= s.len() {
        s.len() as int
    } else if s[from] == '\n' {
        from
    } else {
        next_newline(s, from + 1)
    }
}

/// The second line of `out`, where there is one (a carriage return ending it
/// stays, as a space).
pub open spec fn second_line(out: Seq<char>) -> Option<Seq<char>> {
    let end = next_newline(out, 0);
    if end + 1 >= out.len() {
        None
    } else {
        Some(out.subrange(end + 1, next_newline(out, end + 1)))
    }
}

/// `wordpos get -c` prints a header line, then a line of counts; the word is
/// of the asked part of speech when exactly two of those counts hold a '1'.
pub open spec fn wordpos_confirms(out: Seq<char>) -> bool {
    match second_line(out) {
        Some(line) => words_with_one(line, line.len() as int) == 2,
        None => false,
    }
}

/// Reads the output of `wordpos get -c` for one word and one part of speech:
/// whether it says the word is of that part of speech. Output without a
/// second line says no.
pub fn is_part_of_speech(output: &str) -> (r: bool)
    ensures
        r == wordpos_confirms(output@),
{
    let ghost out = output@;
    let n = output.unicode_len();
    let mut i: usize = 0;
    while i < n && output.get_char(i) != '\n'
        invariant
            out == output@,
            n == out.len(),
            i <= n,
            next_newline(out, 0) == next_newline(out, i as int),
        decreases n - i,
    {
        i = i + 1;
    }
    if n - i <= 1 {
        return false;
    }
    let start = i + 1;
    let mut j: usize = start;
    while j < n && output.get_char(j) != '\n'
        invariant
            out == output@,
            n == out.len(),
            start <= j <= n,
            next_newline(out, start as int) == next_newline(out, j as int),
        decreases n - j,
    {
        j = j + 1;
    }
    let ghost line = out.subrange(start as int, j as int);
    let mut total: usize = 0;
    let mut seen = false;
    let mut k: usize = start;
    while k < j
        invariant
            out == output@,
            n == out.len(),
            start <= k <= j <= n,
            line == out.subrange(start as int, j as int),
            total <= k - start,
            total == words_with_one(line, k - start),
            seen == exists|q: int| run_start(line, k - start) <= q < k - start && #[trigger] line[q] == '1',
        decreases j - k,
    {
        let c = output.get_char(k);
        let ghost m = k - start;
        assert(line[m] == c);
        proof {
            lemma_run_start_bounds(line, m);
        }
        if space_char(c) {
            assert(run_start(line, m + 1) == m + 1);
            assert(!first_one_at(line, m));
            seen = false;
        } else {
            assert(run_start(line, m + 1) == run_start(line, m));
            assert(first_one_at(line, m) == (c == '1' && !seen));
            if c == '1' {
                if !seen {
                    total = total + 1;
                }
                seen = true;
                assert(line[m] == '1');
            } else {
                assert(forall|q: int| run_start(line, m + 1) <= q < m + 1 && #[trigger] line[q] == '1' ==> q < m);
            }
        }
        k = k + 1;
    }
    total == 2
}

/// Whether a word earns a bonus. No word does yet, so every scoring word is
/// worth one point; rounds take the answer as an argument.
pub fn deserves_bonus(word: &String) -> (r: bool)
    ensures
        !r,
{
    false
}

/// Whether two words rhyme, as the Double Metaphone comparison of `ttaw` decides it.
pub uninterp spec fn rhyme_of(a: Seq<char>, b: Seq<char>) -> bool;

/// Relies on `ttaw::metaphone::rhyme`: a function of the two words alone,
/// false when either is empty.
#[verifier::external_body]
pub fn is_rhyme(first: &String, second: &String) -> (r: bool)
    ensures
        r == rhyme_of(first@, second@),
        first@.len() == 0 || second@.len() == 0 ==> !r,
{
    ttaw::metaphone::rhyme(first, second)
}

} // verus!

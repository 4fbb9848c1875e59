//! A terminal word-guessing game: a fixed-length word list, a per-letter
//! guess evaluator, and the turn/state machine of one game session.
use vstd::prelude::*;
use vstd::string::StrSliceExecFns;
use vstd::string::StringExecFns;
use colored::Colorize;
use rand::seq::SliceRandom;

verus! {

/// The word list used to validate guesses and answers.
#[derive(Debug, Clone)]
pub struct Dictionary {
    pub words: Vec<String>,
}

impl Dictionary {
    /// Whether `word` occurs in the list (exact, case-sensitive match).
    pub open spec fn spec_contains(self, word: Seq<char>) -> bool {
        exists|j: int| 0 <= j < self.words@.len() && self.words@[j]@ == word
    }

    /// True iff `word` is present in the list, compared exactly; no
    /// normalization of case or whitespace is performed.
    pub fn is_valid_word(&self, word: &str) -> (r: bool)
        ensures
            r == self.spec_contains(word@),
    {
        let w = String::from_str(word);
        let mut i: usize = 0;
        while i < self.words.len()
            invariant
                i <= self.words@.len(),
                w@ == word@,
                forall|j: int| 0 <= j < i ==> self.words@[j]@ != word@,
            decreases self.words@.len() - i,
        {
            if self.words[i] == w {
                return true;
            }
            i += 1;
        }
        false
    }

    /// Relies on rand's `SliceRandom::choose`: it returns `None` exactly when
    /// the slice is empty, and otherwise a uniformly chosen element of it.
    #[verifier::external_body]
    pub fn get_random_word(&self) -> (r: Option<String>)
        ensures
            r is None <==> self.words@.len() == 0,
            r is Some ==> self.spec_contains(r->Some_0@),
    {
        self.words.choose(&mut rand::thread_rng()).cloned()
    }
}

/// The classification of one guessed letter against the answer.
#[derive(Debug, Clone, Copy, PartialEq, Eq, Structural)]
pub enum LetterState {
    /// The letter matches the answer at this position.
    Correct,
    /// The letter appears in the answer, though not at this position.
    Included,
    /// The letter appears nowhere in the answer.
    Excluded,
}

/// The classification rule for position `i` of `guess` against `answer`:
/// `Correct` on an exact positional match, `Included` when the character
/// occurs anywhere in the answer, `Excluded` otherwise.
pub open spec fn outcome_at(answer: Seq<char>, guess: Seq<char>, i: int) -> LetterState {
    if guess[i] == answer[i] {
        LetterState::Correct
    } else if answer.contains(guess[i]) {
        LetterState::Included
    } else {
        LetterState::Excluded
    }
}

/// The outcome sequence of a whole guess: one classification per position.
pub open spec fn outcomes(answer: Seq<char>, guess: Seq<char>) -> Seq<LetterState> {
    Seq::new(guess.len(), |i: int| outcome_at(answer, guess, i))
}

/// Whether every outcome in `states` is `Correct`.
pub open spec fn all_correct(states: Seq<LetterState>) -> bool {
    forall|i: int| 0 <= i < states.len() ==> states[i] is Correct
}

/// Whether the characters of `xs` all occur in `ys`, in the same order,
/// possibly with other characters between and around them.
pub open spec fn appears_in_order(xs: Seq<char>, ys: Seq<char>) -> bool
    decreases xs.len(), ys.len(),
{
    if xs.len() == 0 {
        true
    } else if ys.len() == 0 {
        false
    } else {
        ||| (xs[0] == ys[0] && appears_in_order(xs.drop_first(), ys.drop_first()))
        ||| appears_in_order(xs, ys.drop_first())
    }
}

proof fn lemma_appears_after_prefix(xs: Seq<char>, pre: Seq<char>, ys: Seq<char>)
    requires
        appears_in_order(xs, ys),
    ensures
        appears_in_order(xs, pre + ys),
    decreases pre.len(),
{
    if pre.len() == 0 {
        assert(pre + ys =~= ys);
    } else if xs.len() > 0 {
        lemma_appears_after_prefix(xs, pre.drop_first(), ys);
        assert((pre + ys).drop_first() =~= pre.drop_first() + ys);
    }
}

proof fn lemma_appears_concat(xs: Seq<char>, ys: Seq<char>, xs2: Seq<char>, ys2: Seq<char>)
    requires
        appears_in_order(xs, ys),
        appears_in_order(xs2, ys2),
    ensures
        appears_in_order(xs + xs2, ys + ys2),
    decreases xs.len() + ys.len(),
{
    if xs.len() == 0 {
        assert(xs + xs2 =~= xs2);
        lemma_appears_after_prefix(xs2, ys, ys2);
    } else if xs[0] == ys[0] && appears_in_order(xs.drop_first(), ys.drop_first()) {
        lemma_appears_concat(xs.drop_first(), ys.drop_first(), xs2, ys2);
        assert((xs + xs2).drop_first() =~= xs.drop_first() + xs2);
        assert((ys + ys2).drop_first() =~= ys.drop_first() + ys2);
        assert((xs + xs2)[0] == (ys + ys2)[0]);
    } else {
        lemma_appears_concat(xs, ys.drop_first(), xs2, ys2);
        assert((ys + ys2).drop_first() =~= ys.drop_first() + ys2);
    }
}

proof fn lemma_appears_single(c: char, s: Seq<char>)
    requires
        s.contains(c),
    ensures
        appears_in_order(seq![c], s),
    decreases s.len(),
{
    let i = choose|i: int| 0 <= i < s.len() && s[i] == c;
    if s[0] == c {
        assert(seq![c].drop_first() =~= Seq::<char>::empty());
        assert(appears_in_order(Seq::<char>::empty(), s.drop_first()));
    } else {
        assert(s.drop_first()[i - 1] == c);
        assert(s.drop_first().contains(c));
        lemma_appears_single(c, s.drop_first());
    }
}

/// One accepted guess: the guessed word and one outcome per letter position,
/// in left-to-right correspondence with the word's characters.
#[derive(Debug)]
pub struct Turn {
    pub word: String,
    pub states: Vec<LetterState>,
}

/// Which rule a rejected submission broke.
#[derive(Debug, Clone, Copy, PartialEq, Eq, Structural)]
pub enum TurnErrorKind {
    /// The guess's length differs from the answer's.
    LengthMismatch,
    /// The guess is not a member of the validating dictionary.
    InvalidGuess,
    /// The game had already been won or lost.
    GameAlreadyOver,
}

/// A rejected submission: which rule was broken, with a readable message.
#[derive(Debug)]
pub struct TurnError {
    pub kind: TurnErrorKind,
    pub message: String,
}

/// True iff character `c` occurs anywhere in `s`.
fn str_contains_char(s: &str, c: char) -> (r: bool)
    ensures
        r == s@.contains(c),
{
    let n = s.unicode_len();
    let mut i: usize = 0;
    while i < n
        invariant
            n == s@.len(),
            i <= n,
            forall|j: int| 0 <= j < i ==> s@[j] != c,
        decreases n - i,
    {
        if s.get_char(i) == c {
            return true;
        }
        i += 1;
    }
    false
}

impl Turn {
    /// Evaluate `guess` against `answer`. Fails exactly when the lengths
    /// differ; otherwise returns the turn holding the guess and one outcome
    /// per position, following the classification rule of `outcome_at`.
    pub fn try_new(answer: &str, guess: String) -> (r: Result<Turn, TurnError>)
        ensures
            r is Ok <==> guess@.len() == answer@.len(),
            r is Ok ==> r->Ok_0.word@ == guess@,
            r is Ok ==> r->Ok_0.states@ == outcomes(answer@, guess@),
            r is Err ==> r->Err_0.kind == TurnErrorKind::LengthMismatch,
            r is Err ==> r->Err_0.message@ == "Guess is not the same length as answer!"@,
    {
        let alen = answer.unicode_len();
        let glen = guess.as_str().unicode_len();
        if glen != alen {
            return Err(TurnError {
                kind: TurnErrorKind::LengthMismatch,
                message: String::from_str("Guess is not the same length as answer!"),
            });
        }

        let mut states: Vec<LetterState> = Vec::new();
        let mut i: usize = 0;
        while i < glen
            invariant
                glen == guess@.len(),
                glen == answer@.len(),
                i <= glen,
                states@.len() == i,
                forall|j: int| 0 <= j < i ==> states@[j] == outcome_at(answer@, guess@, j),
            decreases glen - i,
        {
            let gc = guess.as_str().get_char(i);
            let ac = answer.get_char(i);
            if gc == ac {
                states.push(LetterState::Correct);
            } else if str_contains_char(answer, gc) {
                states.push(LetterState::Included);
            } else {
                states.push(LetterState::Excluded);
            }
            i += 1;
        }
        proof {
            assert(states@ =~= outcomes(answer@, guess@));
        }
        Ok(Turn { word: guess, states })
    }
}

/// The status of a session: exactly one holds at any time; `Won` and `Lost`
/// are terminal.
#[derive(Debug, Clone, Copy, PartialEq, Eq, Structural)]
pub enum GameStates {
    InProgress,
    Won,
    Lost,
}

/// One game: the secret answer, the validating dictionary, the chronological
/// turn history, the current status, and the turn limit (answer length + 1).
#[derive(Debug)]
pub struct Game<'a> {
    _size: usize,
    _state: GameStates,
    answer: String,
    dictionary: &'a Dictionary,
    turns: Vec<Turn>,
}

impl<'a> Game<'a> {
    /// The secret answer's characters.
    pub closed spec fn spec_answer(self) -> Seq<char> {
        self.answer@
    }

    /// The current status.
    pub closed spec fn spec_state(self) -> GameStates {
        self._state
    }

    /// The turn history, oldest first.
    pub closed spec fn spec_turns(self) -> Seq<Turn> {
        self.turns@
    }

    /// The validating dictionary.
    pub closed spec fn spec_dictionary(self) -> Dictionary {
        *self.dictionary
    }

    /// The turn limit.
    pub closed spec fn spec_size(self) -> int {
        self._size as int
    }

    /// The session invariant: the turn limit is one more than the answer's
    /// length, the history never exceeds the limit, a game still in progress
    /// has a turn left, the answer is a dictionary word, and every recorded
    /// turn holds a dictionary word of the answer's length together with its
    /// evaluation against the answer.
    pub open spec fn wf(self) -> bool {
        &&& self.spec_size() == self.spec_answer().len() + 1
        &&& self.spec_turns().len() <= self.spec_size()
        &&& (self.spec_state() is InProgress ==> self.spec_turns().len() < self.spec_size())
        &&& self.spec_dictionary().spec_contains(self.spec_answer())
        &&& forall|i: int|
            0 <= i < self.spec_turns().len() ==> (#[trigger] self.spec_turns()[i]).states@
                == outcomes(self.spec_answer(), self.spec_turns()[i].word@)
        &&& forall|i: int|
            0 <= i < self.spec_turns().len() ==> self.spec_dictionary().spec_contains(
                (#[trigger] self.spec_turns()[i]).word@,
            )
        &&& forall|i: int|
            0 <= i < self.spec_turns().len() ==> (#[trigger] self.spec_turns()[i]).word@.len()
                == self.spec_answer().len()
    }

    /// Whether a submitted guess would be accepted: the game is still in
    /// progress, the word is in the dictionary, and its length matches the
    /// answer's.
    pub open spec fn accepts(self, guess: Seq<char>) -> bool {
        &&& self.spec_state() is InProgress
        &&& self.spec_dictionary().spec_contains(guess)
        &&& guess.len() == self.spec_answer().len()
    }

    /// Start a session over `dictionary` with the given secret `answer`.
    /// Succeeds exactly when the dictionary contains the answer; the fresh
    /// session is in progress with an empty history and a turn limit of the
    /// answer's length plus one.
    pub fn new(answer: String, dictionary: &'a Dictionary) -> (r: Result<Self, ()>)
        requires
            answer@.len() < usize::MAX,
        ensures
            r is Ok <==> dictionary.spec_contains(answer@),
            r is Ok ==> r->Ok_0.wf(),
            r is Ok ==> r->Ok_0.spec_answer() == answer@,
            r is Ok ==> r->Ok_0.spec_state() is InProgress,
            r is Ok ==> r->Ok_0.spec_turns() == Seq::<Turn>::empty(),
            r is Ok ==> r->Ok_0.spec_dictionary() == *dictionary,
            r is Ok ==> r->Ok_0.spec_size() == answer@.len() + 1,
    {
        if dictionary.is_valid_word(answer.as_str()) {
            let len = answer.as_str().unicode_len();
            return Ok(Self {
                _size: len + 1,
                _state: GameStates::InProgress,
                answer,
                dictionary,
                turns: Vec::new(),
            });
        }
        Err(())
    }

    /// The current game status.
    pub fn state(&self) -> (r: &GameStates)
        ensures
            *r == self.spec_state(),
    {
        &self._state
    }

    /// The full turn history, oldest first.
    pub fn turns(&self) -> (r: &Vec<Turn>)
        ensures
            r@ == self.spec_turns(),
    {
        &self.turns
    }

    /// The secret answer.
    pub fn answer(&self) -> (r: &String)
        ensures
            r@ == self.spec_answer(),
    {
        &self.answer
    }

    /// Submit a guess. Exactly the accepted guesses (see `accepts`) are
    /// recorded, and the session then steps as `stepped` describes: a
    /// fully correct guess wins, an incorrect guess on the last allowed turn
    /// loses, anything else leaves the game in progress. A rejected guess
    /// changes nothing and reports which rule it broke.
    pub fn take_turn(&mut self, guess: String) -> (r: Result<(), TurnError>)
        requires
            old(self).wf(),
        ensures
            final(self).wf(),
            r is Ok <==> old(self).accepts(guess@),
            old(self).accepts(guess@) ==> stepped(*old(self), *final(self), guess@),
            !old(self).accepts(guess@) ==> *final(self) == *old(self),
            !(old(self).spec_state() is InProgress) ==> r is Err
                && r->Err_0.kind == TurnErrorKind::GameAlreadyOver
                && r->Err_0.message@ == "Game is already over!"@,
            old(self).spec_state() is InProgress && !old(self).spec_dictionary().spec_contains(
                guess@,
            ) ==> r is Err && r->Err_0.kind == TurnErrorKind::InvalidGuess
                && r->Err_0.message@ == guess@ + " is not a valid guess!"@,
            old(self).spec_state() is InProgress && old(self).spec_dictionary().spec_contains(
                guess@,
            ) && guess@.len() != old(self).spec_answer().len() ==> r is Err
                && r->Err_0.kind == TurnErrorKind::LengthMismatch
                && r->Err_0.message@ == "Guess is not the same length as answer!"@,
    {
        match self._state {
            GameStates::InProgress => {
                if !self.dictionary.is_valid_word(guess.as_str()) {
                    let message = guess.concat(" is not a valid guess!");
                    return Err(TurnError { kind: TurnErrorKind::InvalidGuess, message });
                }
                let turn = match Turn::try_new(self.answer.as_str(), guess) {
                    Ok(t) => t,
                    Err(e) => {
                        return Err(e);
                    },
                };
                let won = vec_all_correct(&turn.states);
                if won {
                    self._state = GameStates::Won;
                }
                self.turns.push(turn);
                if !won && self.turns.len() == self._size {
                    self._state = GameStates::Lost;
                }
                proof {
                    assert(self.turns@.drop_last() =~= old(self).turns@);
                }
                Ok(())
            },
            _ => Err(
                TurnError {
                    kind: TurnErrorKind::GameAlreadyOver,
                    message: String::from_str("Game is already over!"),
                },
            ),
        }
    }

    /// The most recent turn rendered for a terminal, each letter styled by
    /// its outcome; `None` exactly when no turn has been taken yet. The
    /// styling is the terminal's concern; what is guaranteed is that the
    /// rendering carries the guessed word's letters in order.
    pub fn turn_strings(&self) -> (r: Option<String>)
        ensures
            r is Some <==> self.spec_turns().len() != 0,
            r is Some && self.wf() ==> appears_in_order(
                self.spec_turns().last().word@,
                r->Some_0@,
            ),
    {
        if self.turns.len() == 0 {
            return None;
        }
        let turn = &self.turns[self.turns.len() - 1];
        let wn = turn.word.as_str().unicode_len();
        let sn = turn.states.len();
        let n = if wn < sn {
            wn
        } else {
            sn
        };
        let mut letters = String::new();
        let mut i: usize = 0;
        while i < n
            invariant
                i <= n,
                n <= turn.word@.len(),
                n <= turn.states@.len(),
                turn == self.spec_turns().last(),
                appears_in_order(turn.word@.take(i as int), letters@),
            decreases n - i,
        {
            let c = turn.word.as_str().get_char(i);
            let piece = match turn.states[i] {
                LetterState::Correct => paint_on_green(c),
                LetterState::Excluded => paint_on_red(c),
                LetterState::Included => paint_on_yellow(c),
            };
            let ghost prev = letters@;
            letters.append(piece.as_str());
            proof {
                let (p, q): (Seq<char>, Seq<char>) = choose|p: Seq<char>, q: Seq<char>|
                    piece@ == p + seq![c] + q;
                assert(piece@[p.len() as int] == c);
                assert(piece@.contains(c));
                lemma_appears_single(c, piece@);
                lemma_appears_concat(turn.word@.take(i as int), prev, seq![c], piece@);
                assert(turn.word@.take(i as int) + seq![c] =~= turn.word@.take(i + 1 as int));
            }
            i += 1;
        }
        proof {
            if self.wf() {
                assert(turn.states@ == outcomes(self.spec_answer(), turn.word@));
                assert(n == turn.word@.len());
                assert(turn.word@.take(n as int) =~= turn.word@);
            }
        }
        Some(letters)
    }
}

/// Whether every outcome in `states` is `Correct`.
fn vec_all_correct(states: &Vec<LetterState>) -> (r: bool)
    ensures
        r == all_correct(states@),
{
    let mut i: usize = 0;
    while i < states.len()
        invariant
            i <= states@.len(),
            forall|j: int| 0 <= j < i ==> states@[j] is Correct,
        decreases states@.len() - i,
    {
        match states[i] {
            LetterState::Correct => {},
            _ => {
                return false;
            },
        }
        i += 1;
    }
    true
}

/// The one-step transition of `take_turn` on an accepted guess: the answer,
/// dictionary and turn limit are kept; the guess's turn is appended to the
/// history; the status becomes `Won` on an all-correct evaluation, `Lost`
/// when an incorrect guess fills the last allowed turn, and stays
/// `InProgress` otherwise.
pub open spec fn stepped<'a>(pre: Game<'a>, post: Game<'a>, guess: Seq<char>) -> bool {
    &&& pre.accepts(guess)
    &&& post.spec_answer() == pre.spec_answer()
    &&& post.spec_dictionary() == pre.spec_dictionary()
    &&& post.spec_size() == pre.spec_size()
    &&& post.spec_turns().len() == pre.spec_turns().len() + 1
    &&& post.spec_turns().drop_last() == pre.spec_turns()
    &&& post.spec_turns().last().word@ == guess
    &&& post.spec_turns().last().states@ == outcomes(pre.spec_answer(), guess)
    &&& post.spec_state() == (if all_correct(outcomes(pre.spec_answer(), guess)) {
        GameStates::Won
    } else if post.spec_turns().len() == pre.spec_size() {
        GameStates::Lost
    } else {
        GameStates::InProgress
    })
}

/// Relies on colored's `Colorize::on_green` and `ColoredString`'s `Display`:
/// the rendered string carries the single character, between styling escape
/// codes when coloring is active and bare otherwise.
#[verifier::external_body]
fn paint_on_green(c: char) -> (r: String)
    ensures
        exists|p: Seq<char>, q: Seq<char>| r@ == p + seq![c] + q,
{
    format!("{}", c).on_green().to_string()
}

/// Relies on colored's `Colorize::on_yellow` and `ColoredString`'s `Display`:
/// the rendered string carries the single character, between styling escape
/// codes when coloring is active and bare otherwise.
#[verifier::external_body]
fn paint_on_yellow(c: char) -> (r: String)
    ensures
        exists|p: Seq<char>, q: Seq<char>| r@ == p + seq![c] + q,
{
    format!("{}", c).on_yellow().to_string()
}

/// Relies on colored's `Colorize::on_red` and `ColoredString`'s `Display`:
/// the rendered string carries the single character, between styling escape
/// codes when coloring is active and bare otherwise.
#[verifier::external_body]
fn paint_on_red(c: char) -> (r: String)
    ensures
        exists|p: Seq<char>, q: Seq<char>| r@ == p + seq![c] + q,
{
    format!("{}", c).on_red().to_string()
}

/// Law: for an answer and a guess of equal length, the evaluation yields one
/// outcome per position, and a position is `Correct` exactly where the
/// guessed character matches the answer's.
pub proof fn lemma_outcomes_per_position(answer: Seq<char>, guess: Seq<char>)
    requires
        guess.len() == answer.len(),
    ensures
        outcomes(answer, guess).len() == answer.len(),
        forall|i: int|
            0 <= i < answer.len() ==> ((#[trigger] outcomes(answer, guess)[i]) is Correct <==> guess[i]
                == answer[i]),
{
}

/// Law: guessing the answer itself yields `Correct` at every position.
pub proof fn lemma_answer_guess_all_correct(answer: Seq<char>)
    requires
        answer.len() != 0,
    ensures
        all_correct(outcomes(answer, answer)),
{
    assert forall|i: int| 0 <= i < outcomes(answer, answer).len() implies outcomes(answer, answer)[i]
        is Correct by {
        assert(outcome_at(answer, answer, i) == LetterState::Correct);
    }
}

/// Law: a step taken on the exact answer wins the game, whichever turn of
/// the session it is.
pub proof fn lemma_exact_answer_wins<'a>(pre: Game<'a>, post: Game<'a>)
    requires
        stepped(pre, post, pre.spec_answer()),
    ensures
        post.spec_state() is Won,
{
    let answer = pre.spec_answer();
    assert forall|i: int| 0 <= i < outcomes(answer, answer).len() implies outcomes(answer, answer)[i]
        is Correct by {
        assert(outcome_at(answer, answer, i) == LetterState::Correct);
    }
    assert(all_correct(outcomes(answer, answer)));
}

/// Law: a finished game — one whose status is `Won` or `Lost` — accepts no
/// further guess.
pub proof fn lemma_over_accepts_nothing<'a>(g: Game<'a>, guess: Seq<char>)
    requires
        !(g.spec_state() is InProgress),
    ensures
        !g.accepts(guess),
{
}

proof fn lemma_incorrect_run_invariant<'a>(trace: Seq<Game<'a>>, guesses: Seq<Seq<char>>, k: int)
    requires
        trace.len() == guesses.len() + 1,
        trace[0].wf(),
        trace[0].spec_turns().len() == 0,
        guesses.len() == trace[0].spec_size(),
        forall|i: int|
            0 <= i < guesses.len() ==> stepped(trace[i], trace[i + 1], #[trigger] guesses[i]),
        forall|i: int|
            0 <= i < guesses.len() ==> !all_correct(
                outcomes(trace[0].spec_answer(), #[trigger] guesses[i]),
            ),
        0 <= k <= guesses.len(),
    ensures
        trace[k].spec_turns().len() == k,
        trace[k].spec_answer() == trace[0].spec_answer(),
        trace[k].spec_size() == trace[0].spec_size(),
        k < guesses.len() ==> trace[k].spec_state() is InProgress,
        k == guesses.len() ==> trace[k].spec_state() is Lost,
    decreases k,
{
    if k == 0 {
        assert(stepped(trace[0], trace[1], guesses[0]));
        assert(trace[0].spec_state() is InProgress);
    } else {
        lemma_incorrect_run_invariant(trace, guesses, k - 1);
        assert(stepped(trace[k - 1], trace[(k - 1) + 1], guesses[k - 1]));
    }
}

/// Law: starting from a fresh session and submitting one accepted, not
/// all-correct guess per turn, the session stays `InProgress` through the
/// next-to-last allowed turn and is `Lost` — never `Won` — once the turn
/// limit is reached.
pub proof fn lemma_incorrect_run_is_lost<'a>(trace: Seq<Game<'a>>, guesses: Seq<Seq<char>>)
    requires
        trace.len() == guesses.len() + 1,
        trace[0].wf(),
        trace[0].spec_turns().len() == 0,
        guesses.len() == trace[0].spec_size(),
        forall|i: int|
            0 <= i < guesses.len() ==> stepped(trace[i], trace[i + 1], #[trigger] guesses[i]),
        forall|i: int|
            0 <= i < guesses.len() ==> !all_correct(
                outcomes(trace[0].spec_answer(), #[trigger] guesses[i]),
            ),
    ensures
        forall|i: int| 0 <= i < guesses.len() ==> (#[trigger] trace[i].spec_state()) is InProgress,
        trace[guesses.len() as int].spec_state() is Lost,
{
    assert forall|i: int| 0 <= i < guesses.len() implies (#[trigger] trace[i].spec_state())
        is InProgress by {
        lemma_incorrect_run_invariant(trace, guesses, i);
    }
    lemma_incorrect_run_invariant(trace, guesses, guesses.len() as int);
}

} // verus!


//! Guessing game logic and state management

use crate::text::{
    all_padding, chars_of, decimal, lemma_decimal_reads_back, lemma_trim_padded, parse_at_most,
    parse_bounded, trim, trim_bounds,
};
use core::cmp::Ordering;
use vstd::prelude::*;

verus! {

/// Lowest secret a game can hold.
pub const SECRET_MIN: u32 = 1;

/// Highest secret a game can hold.
pub const SECRET_MAX: u32 = 100;

/// The mathematical state of one game.
pub struct GameState {
    /// The number to be found.
    pub secret: u32,
    /// How many guesses have been scored so far.
    pub guesses: nat,
    /// Whether the secret has been found.
    pub done: bool,
}

impl GameState {
    /// The state of a game that has just been created.
    pub open spec fn fresh(secret: u32) -> GameState {
        GameState { secret, guesses: 0, done: false }
    }

    /// A state that a game can be in: the secret is in range, and a game is
    /// only ever completed by a guess that was counted.
    pub open spec fn valid(self) -> bool {
        &&& SECRET_MIN <= self.secret <= SECRET_MAX
        &&& self.done ==> self.guesses >= 1
    }

    /// The state can take one more guess without its count leaving `u32`.
    pub open spec fn has_room(self) -> bool {
        self.done || self.guesses < u32::MAX
    }

    /// How `guess` compares with the secret. A completed game answers
    /// `Equal` to everything.
    pub open spec fn compare(self, guess: u32) -> Ordering {
        if self.done || guess == self.secret {
            Ordering::Equal
        } else if guess < self.secret {
            Ordering::Less
        } else {
            Ordering::Greater
        }
    }

    /// The state after `guess` has been submitted. A completed game does not
    /// change; otherwise the guess is counted, and a correct one completes
    /// the game.
    pub open spec fn submit(self, guess: u32) -> GameState {
        if self.done {
            self
        } else {
            GameState {
                secret: self.secret,
                guesses: self.guesses + 1,
                done: guess == self.secret,
            }
        }
    }

    /// The attempt number reported for `guess`: the count after the guess.
    pub open spec fn attempt(self, guess: u32) -> nat {
        self.submit(guess).guesses
    }

    /// The state after each of `guesses` has been submitted, in order.
    pub open spec fn submit_all(self, guesses: Seq<u32>) -> GameState
        decreases guesses.len(),
    {
        if guesses.len() == 0 {
            self
        } else {
            self.submit_all(guesses.drop_last()).submit(guesses.last())
        }
    }
}

/// The guess that client input spells: the input without the padding at
/// its ends is a number in base ten, and that number is a possible secret.
/// Everything else spells no guess.
pub open spec fn guess_of(input: Seq<char>) -> Option<u32> {
    match parse_at_most(trim(input), SECRET_MAX) {
        Some(number) => if number >= SECRET_MIN {
            Some(number)
        } else {
            None
        },
        None => None,
    }
}

/// Represents a single guessing game session
pub struct GuessingGame {
    guesses: u32,
    secret: u32,
    done: bool,
}

impl View for GuessingGame {
    type V = GameState;

    closed spec fn view(&self) -> GameState {
        GameState { secret: self.secret, guesses: self.guesses as nat, done: self.done }
    }
}

impl GuessingGame {
    /// The game holds a state that a game can be in.
    pub open spec fn wf(&self) -> bool {
        self@.valid()
    }

    /// The game can take one more guess without its counter leaving `u32`.
    pub open spec fn has_room(&self) -> bool {
        self@.has_room()
    }

    /// Create a new guessing game with a secret number
    pub fn new(secret: u32) -> (game: Self)
        requires
            SECRET_MIN <= secret <= SECRET_MAX,
        ensures
            game@ == GameState::fresh(secret),
            game.wf(),
    {
        Self { guesses: 0, secret, done: false }
    }

    /// Make a guess and return the comparison result and guess count
    pub fn guess(&mut self, guess: u32) -> (r: (Ordering, u32))
        requires
            old(self).wf(),
            old(self).has_room(),
        ensures
            final(self)@ == old(self)@.submit(guess),
            final(self).wf(),
            r.0 == old(self)@.compare(guess),
            r.1 == old(self)@.attempt(guess),
    {
        if self.done {
            (Ordering::Equal, self.guesses)
        } else {
            self.guesses += 1;
            if guess < self.secret {
                (Ordering::Less, self.guesses)
            } else if guess == self.secret {
                self.done = true;
                (Ordering::Equal, self.guesses)
            } else {
                (Ordering::Greater, self.guesses)
            }
        }
    }

    /// Parse a guess string into a valid number (1-100)
    pub fn parse_guess(input: &str) -> (r: Option<u32>)
        ensures
            r == guess_of(input@),
            r matches Some(number) ==> SECRET_MIN <= number <= SECRET_MAX,
    {
        let chars = chars_of(input);
        let (start, end) = trim_bounds(&chars);
        match parse_bounded(&chars, start, end, SECRET_MAX) {
            Some(number) => if number >= SECRET_MIN {
                Some(number)
            } else {
                None
            },
            None => None,
        }
    }

    /// Get the secret number (for display after winning)
    pub fn secret(&self) -> (s: u32)
        ensures
            s == self@.secret,
    {
        self.secret
    }

    /// How many guesses have been scored.
    pub fn guesses(&self) -> (n: u32)
        ensures
            n == self@.guesses,
    {
        self.guesses
    }

    /// Whether the secret has been found.
    pub fn is_done(&self) -> (d: bool)
        ensures
            d == self@.done,
    {
        self.done
    }
}

/// A guess below the secret is answered `Less`, one above it `Greater`,
/// the secret itself `Equal`, and nothing else is: on a game that is not
/// completed the answer is the order of guess and secret.
pub proof fn lemma_answer_is_order(state: GameState, guess: u32)
    requires
        state.valid(),
        !state.done,
    ensures
        state.compare(guess) == Ordering::Less <==> guess < state.secret,
        state.compare(guess) == Ordering::Greater <==> guess > state.secret,
        state.compare(guess) == Ordering::Equal <==> guess == state.secret,
        state.submit(guess).valid(),
        state.submit(guess).done <==> guess == state.secret,
{
}

/// After any number of wrong guesses on a new game, the count is the number
/// of guesses made, and the game is still open.
pub proof fn lemma_misses_are_counted(secret: u32, guesses: Seq<u32>)
    requires
        SECRET_MIN <= secret <= SECRET_MAX,
        forall|i: int| 0 <= i < guesses.len() ==> guesses[i] != secret,
    ensures
        GameState::fresh(secret).submit_all(guesses).guesses == guesses.len(),
        !GameState::fresh(secret).submit_all(guesses).done,
        GameState::fresh(secret).submit_all(guesses).secret == secret,
    decreases guesses.len(),
{
    if guesses.len() > 0 {
        lemma_misses_are_counted(secret, guesses.drop_last());
    }
}

/// Once a game is completed, nothing that is submitted changes it: every
/// guess is answered `Equal` with the count as it stands, whatever was
/// submitted before.
pub proof fn lemma_completed_is_final(state: GameState, guesses: Seq<u32>, guess: u32)
    requires
        state.done,
    ensures
        state.submit_all(guesses) == state,
        state.submit_all(guesses).compare(guess) == Ordering::Equal,
        state.submit_all(guesses).attempt(guess) == state.guesses,
        state.submit_all(guesses).submit(guess) == state,
    decreases guesses.len(),
{
    if guesses.len() > 0 {
        lemma_completed_is_final(state, guesses.drop_last(), guesses.last());
    }
}

/// The secret never changes and the count never goes down, whatever is
/// submitted; a completed game stays completed.
pub proof fn lemma_submit_keeps_secret(state: GameState, guess: u32)
    ensures
        state.submit(guess).secret == state.secret,
        state.submit(guess).guesses >= state.guesses,
        state.done ==> state.submit(guess).done,
        state.valid() ==> state.submit(guess).valid(),
{
}

/// A possible secret written in base ten, with any padding before and
/// after it, spells that number as a guess.
pub proof fn lemma_written_guess_reads_back(number: u32, before: Seq<char>, after: Seq<char>)
    requires
        SECRET_MIN <= number <= SECRET_MAX,
        all_padding(before),
        all_padding(after),
    ensures
        guess_of(before + decimal(number as nat) + after) == Some(number),
{
    lemma_decimal_reads_back(number as nat);
    lemma_trim_padded(before, decimal(number as nat), after);
}

} // verus!

//! The protocol adapter: what the server decides for each event on a
//! connection, and what it sends back. The transport itself stays outside:
//! it reports an event, gets an `Outcome`, and sends what the outcome says.

use crate::config::MAX_LEN;
use crate::guessing_game::{guess_of, GameState, GuessingGame, SECRET_MAX, SECRET_MIN};
use crate::session::{all_valid, Registry};
use crate::text::{decimal, decimal_string};
use crate::utils::{as_text, nth, ordinal, rand, rand_of};
use core::cmp::Ordering;
use vstd::prelude::*;
use vstd::slice::slice_subrange;
use vstd::utf8::{decode_utf8, valid_utf8};

verus! {

/// What the server decided for one event on a connection.
#[derive(Clone, Copy, Debug, PartialEq, Eq)]
pub enum Outcome {
    /// A session was opened.
    Welcome,
    /// The payload is longer than the server accepts. The connection is
    /// closed.
    TooBig,
    /// The payload holds no terminating zero byte.
    NoTerminator,
    /// The bytes before the terminator are not UTF-8.
    BadEncoding,
    /// The text is not a number from 1 to 100.
    Invalid,
    /// The guess was above the secret.
    TooHigh { attempt: u32 },
    /// The guess was below the secret.
    TooLow { attempt: u32 },
    /// The secret was found, now or before. The connection is closed.
    Won { secret: u32, attempt: u32 },
    /// The session was ended. Nothing is sent.
    Closed,
    /// A message came for a connection without a session. Nothing is sent,
    /// and nothing changes.
    NoSession,
}

/// One frame that the server sends.
#[derive(Debug, PartialEq, Eq)]
pub enum Frame {
    /// A text frame, whole, with this text.
    Text(String),
    /// The control frame that closes the connection.
    Close,
}

/// What a frame holds, with its text as a sequence of characters.
pub enum FrameView {
    /// A text frame with this text.
    Text(Seq<char>),
    /// The control frame that closes the connection.
    Close,
}

impl DeepView for Frame {
    type V = FrameView;

    open spec fn deep_view(&self) -> FrameView {
        match self {
            Frame::Text(text) => FrameView::Text(text@),
            Frame::Close => FrameView::Close,
        }
    }
}

/// How many secrets there are.
pub const SECRET_COUNT: u32 = 100;

/// The secret drawn from the sub-second part of the time, in nanoseconds.
pub open spec fn secret_of(nanos: u32) -> u32 {
    (rand_of(nanos) % SECRET_COUNT + SECRET_MIN) as u32
}

/// Draws the secret of a new session from the sub-second part of the time.
/// The draw is neither uniform nor hard to predict.
pub fn draw_secret(nanos: u32) -> (secret: u32)
    ensures
        secret == secret_of(nanos),
        SECRET_MIN <= secret <= SECRET_MAX,
{
    rand(nanos) % SECRET_COUNT + SECRET_MIN
}

/// Where the first zero byte of `bytes` is, looking from `from` on.
pub open spec fn nul_from(bytes: Seq<u8>, from: int) -> Option<int>
    decreases bytes.len() - from,
{
    if from < 0 || from >= bytes.len() {
        None
    } else if bytes[from] == 0 {
        Some(from)
    } else {
        nul_from(bytes, from + 1)
    }
}

/// Where the first zero byte of `bytes` is.
pub open spec fn first_nul(bytes: Seq<u8>) -> Option<int> {
    nul_from(bytes, 0)
}

/// `first_nul` is the position of a zero byte before which there is none,
/// and it finds one wherever there is one.
pub proof fn lemma_first_nul(bytes: Seq<u8>)
    ensures
        first_nul(bytes) matches Some(at) ==> 0 <= at < bytes.len() && bytes[at] == 0 && forall|
            i: int,
        |
            0 <= i < at ==> bytes[i] != 0,
        first_nul(bytes) is None ==> forall|i: int| 0 <= i < bytes.len() ==> bytes[i] != 0,
{
    lemma_nul_from(bytes, 0);
}

/// `nul_from` is the position of the first zero byte at or after `from`.
proof fn lemma_nul_from(bytes: Seq<u8>, from: int)
    requires
        0 <= from,
    ensures
        nul_from(bytes, from) matches Some(at) ==> from <= at < bytes.len() && bytes[at] == 0
            && forall|i: int| from <= i < at ==> bytes[i] != 0,
        nul_from(bytes, from) is None ==> forall|i: int| from <= i < bytes.len() ==> bytes[i] != 0,
    decreases bytes.len() - from,
{
    if from < bytes.len() && bytes[from] != 0 {
        lemma_nul_from(bytes, from + 1);
    }
}

/// Finds the first zero byte of `bytes`.
pub fn find_nul(bytes: &[u8]) -> (r: Option<usize>)
    ensures
        match r {
            Some(at) => first_nul(bytes@) == Some(at as int) && at < bytes.len(),
            None => first_nul(bytes@) is None,
        },
{
    let mut at: usize = 0;
    while at < bytes.len()
        invariant
            at <= bytes.len(),
            first_nul(bytes@) == nul_from(bytes@, at as int),
        decreases bytes.len() - at,
    {
        if bytes[at] == 0 {
            return Some(at);
        }
        at += 1;
    }
    None
}

/// `core::str::from_utf8`, with the error dropped: the text that `bytes`
/// encode, or `None` where they are not UTF-8. The text holds the
/// characters that the bytes decode to.
#[verifier::external_body]
fn utf8_text(bytes: &[u8]) -> (r: Option<&str>)
    ensures
        r is Some <==> valid_utf8(bytes@),
        r matches Some(text) ==> text@ == decode_utf8(bytes@),
{
    core::str::from_utf8(bytes).ok()
}

/// The guess that a payload carries, or the outcome that rejects it. The
/// checks come in this order: the length, the terminator, the encoding of
/// what stands before the terminator, and the number.
pub open spec fn decoded(payload: Seq<u8>) -> Result<u32, Outcome> {
    if payload.len() > MAX_LEN {
        Err(Outcome::TooBig)
    } else {
        match first_nul(payload) {
            None => Err(Outcome::NoTerminator),
            Some(end) => {
                let body = payload.take(end);
                if !valid_utf8(body) {
                    Err(Outcome::BadEncoding)
                } else {
                    match guess_of(decode_utf8(body)) {
                        Some(number) => Ok(number),
                        None => Err(Outcome::Invalid),
                    }
                }
            },
        }
    }
}

/// Decodes a payload into a guess. What follows the first zero byte is
/// ignored.
pub fn decode(payload: &[u8]) -> (r: Result<u32, Outcome>)
    ensures
        r == decoded(payload@),
        r matches Ok(number) ==> SECRET_MIN <= number <= SECRET_MAX,
{
    if payload.len() > MAX_LEN {
        return Err(Outcome::TooBig);
    }
    let end = match find_nul(payload) {
        Some(end) => end,
        None => {
            return Err(Outcome::NoTerminator);
        },
    };
    let body = slice_subrange(payload, 0, end);
    let text = match utf8_text(body) {
        Some(text) => text,
        None => {
            return Err(Outcome::BadEncoding);
        },
    };
    match GuessingGame::parse_guess(text) {
        Some(number) => Ok(number),
        None => Err(Outcome::Invalid),
    }
}

impl Outcome {
    /// The text that is sent for this outcome, if any.
    pub open spec fn text(self) -> Option<Seq<char>> {
        match self {
            Outcome::Welcome => Some(
                "Welcome to the guessing game! Enter a number between 1 and 100"@,
            ),
            Outcome::TooBig => Some("Request too big"@),
            Outcome::NoTerminator => Some("[CStr decode Error]"@),
            Outcome::BadEncoding => Some("[UTF-8 Error]"@),
            Outcome::Invalid => Some("Please enter a number between 1 and 100"@),
            Outcome::TooHigh { attempt } => Some(
                "Your "@ + ordinal(attempt as nat) + " guess was too high"@,
            ),
            Outcome::TooLow { attempt } => Some(
                "Your "@ + ordinal(attempt as nat) + " guess was too low"@,
            ),
            Outcome::Won { secret, attempt } => Some(
                "You guessed "@ + decimal(secret as nat) + " on your "@ + ordinal(attempt as nat)
                    + " try! Refresh to play again"@,
            ),
            Outcome::Closed => None,
            Outcome::NoSession => None,
        }
    }

    /// Whether a close frame follows the text.
    pub open spec fn closes(self) -> bool {
        self is TooBig || self is Won
    }

    /// Whether the handling of the event counts as failed: the payload was
    /// too big, or there was no session to play on.
    pub open spec fn fails(self) -> bool {
        self is TooBig || self is NoSession
    }

    /// The frames that are sent for this outcome, in order: the text, if
    /// there is one, and after it the close frame, if the connection closes.
    pub open spec fn sent(self) -> Seq<FrameView> {
        let text = match self.text() {
            Some(text) => seq![FrameView::Text(text)],
            None => seq![],
        };
        if self.closes() {
            text.push(FrameView::Close)
        } else {
            text
        }
    }

    /// The frames to send for this outcome, in order.
    pub fn frames(&self) -> (frames: Vec<Frame>)
        ensures
            frames.deep_view() == self.sent(),
    {
        let mut frames: Vec<Frame> = Vec::new();
        if let Some(message) = self.message() {
            frames.push(Frame::Text(message));
        }
        if self.closes_connection() {
            frames.push(Frame::Close);
        }
        frames
    }

    /// The text to send as one text frame, if this outcome sends any.
    pub fn message(&self) -> (r: Option<String>)
        ensures
            match r {
                Some(message) => self.text() == Some(message@),
                None => self.text() is None,
            },
    {
        match self {
            Outcome::Welcome => Some(
                String::from_str("Welcome to the guessing game! Enter a number between 1 and 100"),
            ),
            Outcome::TooBig => Some(String::from_str("Request too big")),
            Outcome::NoTerminator => Some(String::from_str("[CStr decode Error]")),
            Outcome::BadEncoding => Some(String::from_str("[UTF-8 Error]")),
            Outcome::Invalid => Some(String::from_str("Please enter a number between 1 and 100")),
            Outcome::TooHigh { attempt } => {
                let mut message = String::from_str("Your ");
                message.append(as_text(&nth(*attempt)));
                message.append(" guess was too high");
                Some(message)
            },
            Outcome::TooLow { attempt } => {
                let mut message = String::from_str("Your ");
                message.append(as_text(&nth(*attempt)));
                message.append(" guess was too low");
                Some(message)
            },
            Outcome::Won { secret, attempt } => {
                let mut message = String::from_str("You guessed ");
                message.append(decimal_string(*secret).as_str());
                message.append(" on your ");
                message.append(as_text(&nth(*attempt)));
                message.append(" try! Refresh to play again");
                Some(message)
            },
            Outcome::Closed => None,
            Outcome::NoSession => None,
        }
    }

    /// Whether a close frame is to be sent after the text.
    pub fn closes_connection(&self) -> (b: bool)
        ensures
            b == self.closes(),
    {
        match self {
            Outcome::TooBig => true,
            Outcome::Won { .. } => true,
            _ => false,
        }
    }

    /// Whether the handling of the event is to be reported as failed.
    pub fn is_failure(&self) -> (b: bool)
        ensures
            b == self.fails(),
    {
        match self {
            Outcome::TooBig => true,
            Outcome::NoSession => true,
            _ => false,
        }
    }
}

/// What a game answers to a guess: too low, too high, or won, with the
/// number of the attempt, for a count that fits `u32`. A completed game
/// answers that it was won, with the count as it stands.
pub open spec fn scored(state: GameState, number: u32) -> Outcome {
    let attempt = state.attempt(number) as u32;
    if state.done || number == state.secret {
        Outcome::Won { secret: state.secret, attempt }
    } else if number < state.secret {
        Outcome::TooLow { attempt }
    } else {
        Outcome::TooHigh { attempt }
    }
}

/// The sessions after a connection was opened under `id`: a new game with
/// the secret drawn from `nanos`, unless `id` has a session already.
pub open spec fn opened(sessions: Map<i32, GameState>, id: i32, nanos: u32) -> Map<
    i32,
    GameState,
> {
    if sessions.contains_key(id) {
        sessions
    } else {
        sessions.insert(id, GameState::fresh(secret_of(nanos)))
    }
}

/// What the server decides when `len` bytes are waiting on connection
/// `id`, before it reads them: `None` where they are to be read.
pub open spec fn probed(sessions: Map<i32, GameState>, id: i32, len: usize) -> Option<Outcome> {
    if !sessions.contains_key(id) {
        Some(Outcome::NoSession)
    } else if len > MAX_LEN {
        Some(Outcome::TooBig)
    } else {
        None
    }
}

/// What the server decides for a payload on connection `id`.
pub open spec fn received(sessions: Map<i32, GameState>, id: i32, payload: Seq<u8>) -> Outcome {
    if !sessions.contains_key(id) {
        Outcome::NoSession
    } else {
        match decoded(payload) {
            Err(outcome) => outcome,
            Ok(number) => scored(sessions[id], number),
        }
    }
}

/// The sessions after a payload on connection `id`: a guess that was
/// decoded is submitted to the game of `id`; nothing else changes.
pub open spec fn played(sessions: Map<i32, GameState>, id: i32, payload: Seq<u8>) -> Map<
    i32,
    GameState,
> {
    if !sessions.contains_key(id) {
        sessions
    } else {
        match decoded(payload) {
            Err(_) => sessions,
            Ok(number) => sessions.insert(id, sessions[id].submit(number)),
        }
    }
}

/// The game that a payload on connection `id` would be scored on can take
/// one more guess.
pub open spec fn room_for(sessions: Map<i32, GameState>, id: i32, payload: Seq<u8>) -> bool {
    sessions.contains_key(id) && decoded(payload) is Ok ==> sessions[id].has_room()
}

/// A connection was opened under `id`: it gets a session with a secret
/// drawn from `nanos`, the sub-second part of the time in nanoseconds, and
/// is welcomed.
pub fn on_open(registry: &mut Registry, id: i32, nanos: u32) -> (outcome: Outcome)
    requires
        old(registry).wf(),
    ensures
        outcome == Outcome::Welcome,
        final(registry)@ == opened(old(registry)@, id, nanos),
        final(registry).wf(),
{
    let secret = draw_secret(nanos);
    let _ = registry.create_or_get(id, secret);
    Outcome::Welcome
}

/// The connection `id` was closed: its session ends, and nothing is sent.
pub fn on_close(registry: &mut Registry, id: i32) -> (outcome: Outcome)
    requires
        old(registry).wf(),
    ensures
        outcome == Outcome::Closed,
        final(registry)@ == old(registry)@.remove(id),
        !final(registry)@.contains_key(id),
        final(registry).wf(),
        old(registry)@.contains_key(id) ==> final(registry)@.len() == old(registry)@.len() - 1,
{
    registry.remove(id);
    Outcome::Closed
}

/// `len` bytes are waiting on connection `id`. Says, before any of them is
/// read, whether they are refused: `None` means that exactly `len` bytes
/// are to be read and handed to `on_payload`.
pub fn on_probe(registry: &Registry, id: i32, len: usize) -> (r: Option<Outcome>)
    ensures
        r == probed(registry@, id, len),
{
    if !registry.contains(id) {
        Some(Outcome::NoSession)
    } else if len > MAX_LEN {
        Some(Outcome::TooBig)
    } else {
        None
    }
}

/// A payload came on connection `id`: it is decoded, and the guess it
/// carries is scored on the game of `id`.
pub fn on_payload(registry: &mut Registry, id: i32, payload: &[u8]) -> (outcome: Outcome)
    requires
        old(registry).wf(),
        room_for(old(registry)@, id, payload@),
    ensures
        outcome == received(old(registry)@, id, payload@),
        final(registry)@ == played(old(registry)@, id, payload@),
        final(registry).wf(),
{
    if !registry.contains(id) {
        return Outcome::NoSession;
    }
    match decode(payload) {
        Err(outcome) => outcome,
        Ok(number) => {
            let session = registry.get_mut(id);
            let (order, attempt) = session.guess(number);
            let secret = session.secret();
            match order {
                Ordering::Greater => Outcome::TooHigh { attempt },
                Ordering::Less => Outcome::TooLow { attempt },
                Ordering::Equal => Outcome::Won { secret, attempt },
            }
        },
    }
}

/// The answer that is sent for a guess follows the game's comparison: too
/// low where the game says `Less`, too high where it says `Greater`, won
/// where it says `Equal`. The attempt number is the game's count after the
/// guess, and a win names the secret.
pub proof fn lemma_scored_follows_order(state: GameState, number: u32)
    requires
        state.guesses <= u32::MAX,
        state.has_room(),
    ensures
        state.compare(number) == Ordering::Less <==> scored(state, number) is TooLow,
        state.compare(number) == Ordering::Greater <==> scored(state, number) is TooHigh,
        state.compare(number) == Ordering::Equal <==> scored(state, number) is Won,
        scored(state, number) matches Outcome::TooLow { attempt } ==> attempt == state.attempt(
            number,
        ),
        scored(state, number) matches Outcome::TooHigh { attempt } ==> attempt == state.attempt(
            number,
        ),
        scored(state, number) matches Outcome::Won { secret, attempt } ==> secret == state.secret
            && attempt == state.attempt(number),
{
}

/// A payload that is longer than the server accepts is answered with
/// `TooBig` on every connection that has a session, whatever it holds, and
/// no game changes.
pub proof fn lemma_oversized_is_refused(sessions: Map<i32, GameState>, id: i32, payload: Seq<u8>)
    requires
        sessions.contains_key(id),
        MAX_LEN < payload.len() <= usize::MAX,
    ensures
        received(sessions, id, payload) == Outcome::TooBig,
        played(sessions, id, payload) == sessions,
        probed(sessions, id, payload.len() as usize) == Some(Outcome::TooBig),
{
}

/// Where the probe lets a length through, the payload of that length is
/// neither too big nor without a session.
pub proof fn lemma_probe_admits(sessions: Map<i32, GameState>, id: i32, payload: Seq<u8>)
    requires
        payload.len() <= usize::MAX,
        probed(sessions, id, payload.len() as usize) is None,
    ensures
        received(sessions, id, payload) != Outcome::TooBig,
        received(sessions, id, payload) != Outcome::NoSession,
{
    lemma_decoded_error(payload);
}

/// A payload is rejected only with one of the four outcomes that stand for
/// a fault in the payload, and with `TooBig` exactly where it is too long.
pub proof fn lemma_decoded_error(payload: Seq<u8>)
    ensures
        decoded(payload) matches Err(outcome) ==> outcome is TooBig || outcome is NoTerminator
            || outcome is BadEncoding || outcome is Invalid,
        decoded(payload) == Err::<u32, Outcome>(Outcome::TooBig) <==> payload.len() > MAX_LEN,
        decoded(payload) matches Ok(number) ==> SECRET_MIN <= number <= SECRET_MAX,
{
}

/// A message never touches another connection's game, and never opens or
/// ends a session.
pub proof fn lemma_message_is_local(
    sessions: Map<i32, GameState>,
    id: i32,
    payload: Seq<u8>,
    other: i32,
)
    ensures
        played(sessions, id, payload).dom() == sessions.dom(),
        other != id ==> played(sessions, id, payload)[other] == sessions[other],
{
}

/// A message changes at most the count and the completion of a game: the
/// secret stays, the count does not go down, and a payload that carries no
/// guess leaves the game as it is.
pub proof fn lemma_message_keeps_secret(sessions: Map<i32, GameState>, id: i32, payload: Seq<u8>)
    requires
        sessions.contains_key(id),
    ensures
        played(sessions, id, payload)[id].secret == sessions[id].secret,
        played(sessions, id, payload)[id].guesses >= sessions[id].guesses,
        sessions[id].done ==> played(sessions, id, payload)[id] == sessions[id],
        decoded(payload) is Err ==> played(sessions, id, payload) == sessions,
        all_valid(sessions) ==> all_valid(played(sessions, id, payload)),
{
}

/// Every message on a connection with a session is answered with exactly
/// one text, and a close frame follows only where the payload was too big
/// or the game is won.
pub proof fn lemma_every_message_is_answered(
    sessions: Map<i32, GameState>,
    id: i32,
    payload: Seq<u8>,
)
    requires
        sessions.contains_key(id),
    ensures
        received(sessions, id, payload).text() is Some,
        received(sessions, id, payload).sent().len() >= 1,
        received(sessions, id, payload).sent()[0] is Text,
        received(sessions, id, payload).closes() <==> payload.len() > MAX_LEN || (decoded(
            payload,
        ) matches Ok(number) && (sessions[id].done || number == sessions[id].secret)),
{
    lemma_decoded_error(payload);
}

/// After a connection was closed, a message under its identifier finds no
/// session: it is answered with `NoSession`, and nothing changes.
pub proof fn lemma_closed_has_no_session(
    sessions: Map<i32, GameState>,
    id: i32,
    len: usize,
    payload: Seq<u8>,
)
    ensures
        probed(sessions.remove(id), id, len) == Some(Outcome::NoSession),
        received(sessions.remove(id), id, payload) == Outcome::NoSession,
        played(sessions.remove(id), id, payload) == sessions.remove(id),
        Outcome::NoSession.sent() == Seq::<FrameView>::empty(),
        Outcome::NoSession.fails(),
{
}

} // verus!

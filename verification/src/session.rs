//! The session registry: one game per open connection.

use crate::guessing_game::{GameState, GuessingGame, SECRET_MAX, SECRET_MIN};
use std::collections::BTreeMap;
use vstd::prelude::*;

verus! {

/// The games of all open connections, by connection identifier.
pub struct Registry {
    sessions: BTreeMap<i32, GuessingGame>,
}

impl View for Registry {
    type V = Map<i32, GameState>;

    closed spec fn view(&self) -> Map<i32, GameState> {
        states(self.sessions@)
    }
}

/// The state of each game in `games`, under the same identifier.
spec fn states(games: Map<i32, GuessingGame>) -> Map<i32, GameState> {
    Map::new(|id: i32| games.contains_key(id), |id: i32| games[id]@)
}

/// Putting a game into a map puts its state into the map of states.
proof fn lemma_states_insert(games: Map<i32, GuessingGame>, id: i32)
    ensures
        forall|game: GuessingGame| #[trigger]
            states(games.insert(id, game)) == states(games).insert(id, game@),
{
}

/// Taking a game out of a map takes its state out of the map of states.
proof fn lemma_states_remove(games: Map<i32, GuessingGame>, id: i32)
    ensures
        states(games.remove(id)) == states(games).remove(id),
{
}

/// Every game in `sessions` is in a state that a game can be in.
pub open spec fn all_valid(sessions: Map<i32, GameState>) -> bool {
    forall|id: i32| sessions.contains_key(id) ==> (#[trigger] sessions[id]).valid()
}

/// `BTreeMap::get_mut`, for the session map: the entry under `id`, to be
/// read and changed in place, or `None` where the map has no such entry.
/// What the caller leaves in the entry is what the map then holds under
/// `id`; nothing else in the map changes.
#[verifier::external_body]
fn session_mut(sessions: &mut BTreeMap<i32, GuessingGame>, id: i32) -> (r: Option<
    &mut GuessingGame,
>)
    ensures
        match r {
            Some(game) => {
                &&& old(sessions)@.contains_key(id)
                &&& *game == old(sessions)@[id]
                &&& final(sessions)@ == old(sessions)@.insert(id, *final(game))
            },
            None => !old(sessions)@.contains_key(id) && final(sessions)@ == old(sessions)@,
        },
{
    sessions.get_mut(&id)
}

impl Registry {
    /// The registry holds a finite number of games, each in a state that a
    /// game can be in.
    pub open spec fn wf(&self) -> bool {
        &&& self@.dom().finite()
        &&& all_valid(self@)
    }

    /// A registry without sessions.
    pub fn new() -> (registry: Self)
        ensures
            registry@ == Map::<i32, GameState>::empty(),
            registry.wf(),
    {
        let registry = Registry { sessions: BTreeMap::new() };
        assert(registry@ =~= Map::<i32, GameState>::empty());
        registry
    }

    /// The number of open sessions.
    pub fn len(&self) -> (n: usize)
        ensures
            n == self@.len(),
    {
        assert(self@.dom() =~= self.sessions@.dom());
        self.sessions.len()
    }

    /// Whether `id` has a session.
    pub fn contains(&self, id: i32) -> (b: bool)
        ensures
            b == self@.contains_key(id),
    {
        self.sessions.contains_key(&id)
    }

    /// The game of `id`, if it has a session.
    pub fn get(&self, id: i32) -> (r: Option<&GuessingGame>)
        ensures
            match r {
                Some(game) => self@.contains_key(id) && game@ == self@[id],
                None => !self@.contains_key(id),
            },
    {
        self.sessions.get(&id)
    }

    /// The game of `id`, made with `secret` if `id` has no session yet. A
    /// session that exists is left as it is, and `secret` is not used.
    pub fn create_or_get(&mut self, id: i32, secret: u32) -> (game: &mut GuessingGame)
        requires
            SECRET_MIN <= secret <= SECRET_MAX,
        ensures
            game@ == if old(self)@.contains_key(id) {
                old(self)@[id]
            } else {
                GameState::fresh(secret)
            },
            final(self)@ == old(self)@.insert(id, final(game)@),
            old(self).wf() ==> game.wf(),
            old(self).wf() && final(game).wf() ==> final(self).wf(),
    {
        if !self.sessions.contains_key(&id) {
            proof {
                lemma_states_insert(self.sessions@, id);
            }
            self.sessions.insert(id, GuessingGame::new(secret));
        }
        proof {
            lemma_states_insert(self.sessions@, id);
        }
        match session_mut(&mut self.sessions, id) {
            Some(game) => game,
            None => unreached(),
        }
    }

    /// Ends the session of `id`. Without such a session nothing changes.
    pub fn remove(&mut self, id: i32)
        requires
            old(self).wf(),
        ensures
            final(self)@ == old(self)@.remove(id),
            !final(self)@.contains_key(id),
            final(self).wf(),
            old(self)@.contains_key(id) ==> final(self)@.len() == old(self)@.len() - 1,
            !old(self)@.contains_key(id) ==> final(self)@ == old(self)@,
    {
        proof {
            lemma_states_remove(self.sessions@, id);
        }
        self.sessions.remove(&id);
    }

    /// The game of `id`, to be played on. The session must exist.
    pub fn get_mut(&mut self, id: i32) -> (game: &mut GuessingGame)
        requires
            old(self)@.contains_key(id),
        ensures
            game@ == old(self)@[id],
            final(self)@ == old(self)@.insert(id, final(game)@),
            old(self).wf() ==> game.wf(),
            old(self).wf() && final(game).wf() ==> final(self).wf(),
    {
        proof {
            lemma_states_insert(self.sessions@, id);
        }
        match session_mut(&mut self.sessions, id) {
            Some(game) => game,
            None => unreached(),
        }
    }
}

} // verus!

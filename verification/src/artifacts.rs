//! Collecting the per-game SGF artifacts for the selected games, as a state
//! machine over fetch outcomes. One fetch is issued per game, in order; a
//! game whose fetch fails is skipped — no retry, no backoff, unlike the page
//! walk — and the batch carries on, ending with one artifact per success.

use vstd::prelude::*;
use crate::records::Game;
use crate::text::{append_i32, dec_rep_signed};

verus! {

/// One collected artifact: a game's identity and its SGF text.
#[derive(Debug, PartialEq)]
pub struct Artifact {
    pub game_id: i32,
    pub content: String,
}

impl Clone for Artifact {
    fn clone(&self) -> (r: Self)
        ensures
            r == *self,
    {
        Artifact { game_id: self.game_id, content: self.content.clone() }
    }
}

/// The sequential artifact batch: the selected games, the position of the
/// next fetch, and what has been collected so far.
#[derive(Debug)]
pub struct ArtifactFetch {
    pub games: Vec<Game>,
    pub next_index: usize,
    pub artifacts: Vec<Artifact>,
}

impl ArtifactFetch {
    /// Internal consistency: the position is within the batch and at most
    /// one artifact exists per game already passed.
    pub open spec fn wf(self) -> bool {
        &&& self.next_index <= self.games@.len()
        &&& self.artifacts@.len() <= self.next_index
    }

    /// A batch over the selected games, nothing fetched yet.
    pub fn new(selected: Vec<Game>) -> (r: Self)
        ensures
            r.wf(),
            r.games@ == selected@,
            r.next_index == 0,
            r.artifacts@ == Seq::<Artifact>::empty(),
    {
        ArtifactFetch { games: selected, next_index: 0, artifacts: Vec::new() }
    }

    /// The id of the game whose artifact is to be fetched next, if any is
    /// left.
    pub fn next_game_id(&self) -> (r: Option<i32>)
        ensures
            self.next_index < self.games@.len() ==> r == Some(
                self.games@[self.next_index as int].id,
            ),
            self.next_index >= self.games@.len() ==> r is None,
    {
        if self.next_index < self.games.len() {
            Some(self.games[self.next_index].id)
        } else {
            None
        }
    }

    /// Record the outcome of one artifact fetch: text fetched for the
    /// current game joins the collection at the end; a failure only moves
    /// past the game. Either way the batch continues — no failure of one
    /// game aborts it.
    pub fn on_result(&mut self, content: Option<String>)
        requires
            old(self).wf(),
            old(self).next_index < old(self).games@.len(),
        ensures
            final(self).wf(),
            final(self).games@ == old(self).games@,
            final(self).next_index == old(self).next_index + 1,
            content matches Some(text) ==> final(self).artifacts@ == old(self).artifacts@.push(
                (Artifact { game_id: old(self).games@[old(self).next_index as int].id, content: text }),
            ),
            content is None ==> final(self).artifacts@ == old(self).artifacts@,
    {
        match content {
            Some(text) => {
                let id = self.games[self.next_index].id;
                self.artifacts.push(Artifact { game_id: id, content: text });
            },
            None => {},
        }
        let in_batch = self.games.len();
        assert(self.next_index < in_batch);
        self.next_index = self.next_index + 1;
    }

    /// Whether every selected game has been attempted.
    pub fn is_done(&self) -> (r: bool)
        ensures
            r == (self.next_index == self.games@.len()),
    {
        self.next_index == self.games.len()
    }

    /// The collected artifacts, in the order their games were attempted.
    pub fn into_artifacts(self) -> (r: Vec<Artifact>)
        ensures
            r@ == self.artifacts@,
    {
        self.artifacts
    }
}

/// The artifact endpoint for one game's SGF text.
pub fn sgf_url(game_id: i32) -> (r: String)
    ensures
        r@ == "https://online-go.com/api/v1/games/"@ + dec_rep_signed(game_id as int) + "/sgf"@,
{
    let mut s = "https://online-go.com/api/v1/games/".to_owned();
    append_i32(&mut s, game_id);
    s.append("/sgf");
    s
}

} // verus!

//! Resolving a free-text player name to exactly one player identity. The
//! search call and the interactive chooser are the driving binary's work;
//! the decisions — take a single candidate, ask on several, give up on none,
//! match a chosen label back to its player — are made and verified here.

use vstd::prelude::*;
use crate::records::Player;

verus! {

/// What follows from a search response's candidate list: a single candidate
/// is taken as it stands; several call for one choice by the interactive
/// collaborator; none ends the run as a graceful "not found".
pub enum Resolution {
    Resolved { id: i32, username: String },
    NeedsChoice { names: Vec<String> },
    NoMatch,
}

/// Decide what a candidate list leads to.
pub fn resolve_players(players: &Vec<Player>) -> (r: Resolution)
    ensures
        players@.len() == 0 ==> r is NoMatch,
        players@.len() == 1 ==> (r matches Resolution::Resolved { id, username } && id
            == players@[0].id && username@ == players@[0].username@),
        players@.len() > 1 ==> (r matches Resolution::NeedsChoice { names } && names@.len()
            == players@.len() && forall|i: int|
            0 <= i < names@.len() ==> (#[trigger] names@[i])@ == players@[i].username@),
{
    if players.len() == 0 {
        Resolution::NoMatch
    } else if players.len() == 1 {
        Resolution::Resolved { id: players[0].id, username: players[0].username.clone() }
    } else {
        let mut names: Vec<String> = Vec::new();
        let mut k: usize = 0;
        while k < players.len()
            invariant
                k <= players@.len(),
                names@.len() == k,
                forall|i: int| 0 <= i < k ==> (#[trigger] names@[i])@ == players@[i].username@,
            decreases players@.len() - k,
        {
            names.push(players[k].username.clone());
            k = k + 1;
        }
        Resolution::NeedsChoice { names }
    }
}

/// Find the player whose username is the chosen label. With several equal
/// usernames the last one wins, as a forward scan that keeps overwriting
/// its find would have it. `None` exactly when no username matches.
pub fn match_choice(players: &Vec<Player>, choice: &String) -> (r: Option<usize>)
    ensures
        match r {
            Some(k) => k < players@.len() && players@[k as int].username@ == choice@ && forall|
                j: int,
            |
                k < j < players@.len() ==> (#[trigger] players@[j]).username@ != choice@,
            None => forall|j: int|
                0 <= j < players@.len() ==> (#[trigger] players@[j]).username@ != choice@,
        },
{
    let mut found: Option<usize> = None;
    let mut k: usize = 0;
    while k < players.len()
        invariant
            k <= players@.len(),
            match found {
                Some(w) => w < k && players@[w as int].username@ == choice@ && forall|j: int|
                    w < j < k ==> (#[trigger] players@[j]).username@ != choice@,
                None => forall|j: int| 0 <= j < k ==> (#[trigger] players@[j]).username@ != choice@,
            },
        decreases players@.len() - k,
    {
        if players[k].username == *choice {
            found = Some(k);
        }
        k = k + 1;
    }
    found
}

/// The search endpoint for a free-text player name, the query appended as
/// it was given.
pub fn search_url(name: &String) -> (r: String)
    ensures
        r@ == "https://online-go.com/api/v1/ui/omniSearch?q="@ + name@,
{
    let mut s = "https://online-go.com/api/v1/ui/omniSearch?q=".to_owned();
    s.append(name.as_str());
    s
}

} // verus!

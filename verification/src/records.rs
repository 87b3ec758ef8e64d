//! The data the pipeline works on: command-line inputs, player identities
//! from the search endpoint, game summaries from the paginated game list,
//! and the per-game artifacts that get exported.

use vstd::prelude::*;
use crate::dates::valid_timestamp;

verus! {

/// Command-line inputs: the player name to search for and the directory
/// under which the export folder is created.
pub struct Args {
    /// Player name to search for.
    pub name: String,
    /// Path of the directory that will hold the export folder.
    pub path: String,
}

/// One player identity from the search endpoint.
#[derive(Debug, PartialEq)]
pub struct Player {
    pub id: i32,
    pub username: String,
}

impl Clone for Player {
    fn clone(&self) -> (r: Self)
        ensures
            r == *self,
    {
        Player { id: self.id, username: self.username.clone() }
    }
}

/// The body of a player-search response: the query echoed back and the
/// candidate players.
pub struct Query {
    pub q: String,
    pub players: Vec<Player>,
}

/// One game summary from the paginated game list: identity, board width and
/// the UTC timestamp (seconds since the epoch) at which the game ended.
#[derive(Debug, PartialEq)]
pub struct Game {
    pub id: i32,
    pub width: i32,
    pub ended: i64,
    pub name: String,
}

impl Clone for Game {
    fn clone(&self) -> (r: Self)
        ensures
            r == *self,
    {
        Game { id: self.id, width: self.width, ended: self.ended, name: self.name.clone() }
    }
}

impl Game {
    /// Whether this game was played on a board nine lines wide.
    pub fn is_nine_by_nine(&self) -> (r: bool)
        ensures
            r == (self.width == 9),
    {
        self.width == 9
    }
}

/// A game record the pipeline can process: one whose end timestamp's UTC
/// calendar date has a four-digit year.
pub open spec fn valid_game(g: Game) -> bool {
    valid_timestamp(g.ended)
}

/// All games of a collection are processable.
pub open spec fn valid_games(s: Seq<Game>) -> bool {
    forall|k: int| 0 <= k < s.len() ==> valid_game(#[trigger] s[k])
}

/// One page of the paginated game list: the total record count reported by
/// the service, the optional neighbouring-page links, and this page's games.
pub struct GamesPage {
    pub count: u64,
    pub next: Option<String>,
    pub previous: Option<String>,
    pub results: Vec<Game>,
}

/// The games of a page whose board is nine lines wide.
pub open spec fn nine_filter(games: Seq<Game>) -> Seq<Game> {
    games.filter(|g: Game| g.width == 9)
}

pub trait GetNineByNineGames {
    fn get_nine_by_nine_games(&self) -> Vec<Game>;
}

impl GetNineByNineGames for GamesPage {
    /// The page's games restricted to 9x9 boards, in page order.
    fn get_nine_by_nine_games(&self) -> (r: Vec<Game>)
        ensures
            r@ == nine_filter(self.results@),
    {
        nine_by_nine_of(&self.results)
    }
}

/// The games of `games` whose board is nine lines wide, in input order.
pub fn nine_by_nine_of(games: &Vec<Game>) -> (r: Vec<Game>)
    ensures
        r@ == nine_filter(games@),
{
    let mut r: Vec<Game> = Vec::new();
    let mut k: usize = 0;
    while k < games.len()
        invariant
            k <= games@.len(),
            r@ == nine_filter(games@.take(k as int)),
        decreases games@.len() - k,
    {
        proof {
            lemma_nine_filter_take_step(games@, k as int);
        }
        if games[k].is_nine_by_nine() {
            r.push(games[k].clone());
        }
        k = k + 1;
    }
    proof {
        assert(games@.take(games@.len() as int) =~= games@);
    }
    r
}

/// Taking one more game extends the filtered prefix by that game exactly
/// when its board is nine lines wide.
pub proof fn lemma_nine_filter_take_step(games: Seq<Game>, k: int)
    requires
        0 <= k < games.len(),
    ensures
        games[k].width == 9 ==> nine_filter(games.take(k + 1)) == nine_filter(games.take(k)).push(
            games[k],
        ),
        games[k].width != 9 ==> nine_filter(games.take(k + 1)) == nine_filter(games.take(k)),
{
    assert(games.take(k + 1) =~= games.take(k) + seq![games[k]]);
    lemma_filter_one_more(games.take(k), games[k], |g: Game| g.width == 9);
}

/// Filtering a sequence extended by one element appends that element exactly
/// when it satisfies the predicate.
pub proof fn lemma_filter_one_more<A>(s: Seq<A>, x: A, pred: spec_fn(A) -> bool)
    ensures
        pred(x) ==> (s + seq![x]).filter(pred) == s.filter(pred).push(x),
        !pred(x) ==> (s + seq![x]).filter(pred) == s.filter(pred),
{
    reveal(Seq::filter);
    let one = seq![x];
    assert(one.drop_last() =~= Seq::<A>::empty());
    assert(Seq::<A>::empty().filter(pred) =~= Seq::<A>::empty());
    Seq::filter_distributes_over_add(s, one, pred);
    if pred(x) {
        assert(s.filter(pred) + one.filter(pred) =~= s.filter(pred).push(x));
    } else {
        assert(s.filter(pred) + one.filter(pred) =~= s.filter(pred));
    }
}

} // verus!

use ninebynine::artifacts::{sgf_url, Artifact, ArtifactFetch};
use ninebynine::export::{plan_export, ExportRun};
use ninebynine::fetch::{FetchAction, PagedFetch};
use ninebynine::grouping::{
    filter_and_group, select_games, GetGamesGroupedByDate, GetSortedDatesFromGroupedGames,
};
use ninebynine::records::{Game, Player};
use ninebynine::resolve::{match_choice, resolve_players, Resolution};

const JAN01: i64 = 1672531200; // 2023-01-01T00:00:00Z
const JAN02: i64 = 1672617600; // 2023-01-02T00:00:00Z
const JAN15: i64 = 1673740800; // 2023-01-15T00:00:00Z
const MAR01: i64 = 1677628800; // 2023-03-01T00:00:00Z

fn game(id: i32, width: i32, ended: i64) -> Game {
    Game { id, width, ended, name: String::from("g") }
}

#[test]
fn grouping_partitions_nine_by_nine_subset() {
    let games = vec![
        game(1, 9, JAN02),
        game(2, 19, JAN02),
        game(3, 9, JAN01),
        game(4, 9, JAN02),
        game(5, 13, MAR01),
        game(6, 9, JAN01),
    ];
    let groups = filter_and_group(&games);
    // one group per day, ascending
    assert_eq!(groups.len(), 2);
    // every member has width 9 and comes from the input; each 9x9 input
    // game appears exactly once over all groups
    let mut seen: Vec<i32> = Vec::new();
    for g in &groups {
        for m in &g.members {
            assert_eq!(m.width, 9);
            assert!(games.iter().any(|x| x == m));
            assert!(!seen.contains(&m.id));
            seen.push(m.id);
        }
    }
    let mut expected: Vec<i32> = vec![3, 6, 1, 4]; // Jan 1 members, then Jan 2
    expected.sort();
    seen.sort();
    assert_eq!(seen, expected);
    // games of other widths are in no group
    assert!(!seen.contains(&2));
    assert!(!seen.contains(&5));
    // members keep input order within their day
    assert_eq!(groups[0].members[0].id, 3);
    assert_eq!(groups[0].members[1].id, 6);
    assert_eq!(groups[1].members[0].id, 1);
    assert_eq!(groups[1].members[1].id, 4);
}

#[test]
fn groups_come_in_ascending_date_string_order() {
    let games = vec![game(1, 9, MAR01), game(2, 9, JAN15), game(3, 9, JAN02)];
    let groups = games.get_games_grouped_by_date();
    let dates = groups.get_sorted_dates_from_grouped_games();
    assert_eq!(dates, vec!["2023-01-02", "2023-01-15", "2023-03-01"]);
}

#[test]
fn grouping_twice_gives_identical_output() {
    let games = vec![
        game(1, 9, MAR01),
        game(2, 19, JAN15),
        game(3, 9, JAN15),
        game(4, 9, JAN02),
        game(5, 9, MAR01),
    ];
    let first = filter_and_group(&games);
    let second = filter_and_group(&games);
    assert_eq!(first, second);
}

#[test]
fn page_walk_retries_failed_page_without_duplicates() {
    let mut fetch = PagedFetch::new(10);
    assert_eq!(fetch.next_action(), FetchAction::Request { page: 1 });
    // page 1 succeeds: total 12 records means two pages
    fetch.on_success(12, vec![game(1, 9, JAN01)]);
    assert_eq!(fetch.next_action(), FetchAction::Request { page: 2 });
    // page 2 fails twice: same page stays pending, nothing is lost
    fetch.on_failure();
    assert_eq!(fetch.next_action(), FetchAction::Request { page: 2 });
    fetch.on_failure();
    assert_eq!(fetch.next_action(), FetchAction::Request { page: 2 });
    assert_eq!(fetch.games.len(), 1);
    // page 2 finally succeeds: the walk ends with both pages merged once
    fetch.on_success(12, vec![game(2, 9, JAN02)]);
    assert_eq!(fetch.next_action(), FetchAction::Finished);
    let games = fetch.into_games();
    let ids: Vec<i32> = games.iter().map(|g| g.id).collect();
    assert_eq!(ids, vec![1, 2]);
}

#[test]
fn first_page_failure_ends_the_fetch() {
    let mut fetch = PagedFetch::new(10);
    fetch.on_failure();
    assert!(fetch.failed());
    assert_eq!(fetch.next_action(), FetchAction::Finished);
    assert!(fetch.into_games().is_empty());
}

#[test]
fn zero_games_is_a_valid_empty_outcome() {
    let mut fetch = PagedFetch::new(10);
    fetch.on_success(0, vec![]);
    assert!(!fetch.failed());
    assert_eq!(fetch.next_action(), FetchAction::Finished);
    assert!(fetch.into_games().is_empty());
}

#[test]
fn artifact_batch_skips_one_failure() {
    let selected = vec![game(1, 9, JAN01), game(2, 9, JAN01), game(3, 9, JAN01)];
    let mut batch = ArtifactFetch::new(selected);
    assert_eq!(batch.next_game_id(), Some(1));
    batch.on_result(Some(String::from("(;GM[1]SZ[9];B[aa])")));
    assert_eq!(batch.next_game_id(), Some(2));
    batch.on_result(None);
    assert_eq!(batch.next_game_id(), Some(3));
    batch.on_result(Some(String::from("(;GM[1]SZ[9];B[bb])")));
    assert!(batch.is_done());
    let artifacts = batch.into_artifacts();
    assert_eq!(artifacts.len(), 2);
    assert_eq!(artifacts[0].game_id, 1);
    assert_eq!(artifacts[1].game_id, 3);
}

#[test]
fn export_plan_holds_current_files_only() {
    let stale = vec![String::from("99.sgf"), String::from("notes.txt")];
    let artifacts = vec![
        Artifact { game_id: 10, content: String::from("(;GM[1])") },
        Artifact { game_id: 11, content: String::from("(;GM[1]SZ[9])") },
    ];
    let entries = plan_export(&artifacts);
    assert_eq!(entries.len(), artifacts.len());
    let names: Vec<&str> = entries.iter().map(|e| e.name.as_str()).collect();
    assert_eq!(names, vec!["10.sgf", "11.sgf"]);
    for s in &stale {
        assert!(!names.contains(&s.as_str()));
    }
}

#[test]
fn full_run_for_one_player_one_game() {
    // player search finds exactly one candidate
    let players = vec![Player { id: 1, username: String::from("alice") }];
    let resolved = resolve_players(&players);
    let (player_id, username) = match resolved {
        Resolution::Resolved { id, username } => (id, username),
        _ => panic!("one candidate must resolve by itself"),
    };
    assert_eq!(player_id, 1);
    assert_eq!(username, "alice");
    // one page of two games; only the 9x9 one survives the filter
    let mut fetch = PagedFetch::new(10);
    assert_eq!(fetch.next_action(), FetchAction::Request { page: 1 });
    fetch.on_success(2, vec![game(10, 9, JAN01), game(11, 19, JAN01)]);
    assert_eq!(fetch.next_action(), FetchAction::Finished);
    let games = fetch.into_games();
    let groups = filter_and_group(&games);
    assert_eq!(groups.len(), 1);
    assert_eq!(groups[0].members.len(), 1);
    assert_eq!(groups[0].members[0].id, 10);
    let dates = groups.get_sorted_dates_from_grouped_games();
    assert_eq!(dates, vec!["2023-01-01"]);
    // the user selects that one date
    let selected = vec![String::from("2023-01-01")];
    let subset = select_games(&groups, &selected);
    assert_eq!(subset.len(), 1);
    // its artifact is fetched
    let mut batch = ArtifactFetch::new(subset);
    assert_eq!(batch.next_game_id(), Some(10));
    assert_eq!(
        sgf_url(10),
        "https://online-go.com/api/v1/games/10/sgf"
    );
    batch.on_result(Some(String::from("(;GM[1])")));
    let artifacts = batch.into_artifacts();
    // and exported as 10.sgf with a trailing newline
    let entries = plan_export(&artifacts);
    assert_eq!(entries.len(), 1);
    assert_eq!(entries[0].name, "10.sgf");
    assert_eq!(entries[0].text, "(;GM[1])\n");
    let mut run = ExportRun::new(1);
    run.on_write_result(true);
    assert_eq!(run.written_count(), 1);
}

#[test]
fn no_matching_player_ends_the_run() {
    let players: Vec<Player> = vec![];
    let resolved = resolve_players(&players);
    assert!(matches!(resolved, Resolution::NoMatch));
}

#[test]
fn empty_filtered_collection_exports_nothing() {
    let games = vec![game(1, 19, JAN01), game(2, 13, JAN02)];
    let groups = filter_and_group(&games);
    assert!(groups.is_empty());
    let dates = groups.get_sorted_dates_from_grouped_games();
    assert!(dates.is_empty());
    let subset = select_games(&groups, &vec![]);
    assert!(subset.is_empty());
}

#[test]
fn several_candidates_ask_for_a_choice() {
    let players = vec![
        Player { id: 1, username: String::from("alice") },
        Player { id: 2, username: String::from("bob") },
    ];
    let resolved = resolve_players(&players);
    match resolved {
        Resolution::NeedsChoice { names } => {
            assert_eq!(names, vec!["alice", "bob"]);
        }
        _ => panic!("two candidates must ask for a choice"),
    }
}

#[test]
fn chosen_label_matches_back_to_its_player() {
    let players = vec![
        Player { id: 1, username: String::from("alice") },
        Player { id: 2, username: String::from("bob") },
        Player { id: 3, username: String::from("alice") },
    ];
    // with equal usernames the last one wins
    assert_eq!(match_choice(&players, &String::from("alice")), Some(2));
    assert_eq!(match_choice(&players, &String::from("bob")), Some(1));
    assert_eq!(match_choice(&players, &String::from("carol")), None);
}

#[test]
fn selection_skips_unselected_days() {
    let games = vec![game(1, 9, JAN01), game(2, 9, JAN02), game(3, 9, JAN01)];
    let groups = filter_and_group(&games);
    assert_eq!(groups.len(), 2);
    let selected = vec![String::from("2023-01-01")];
    let subset = select_games(&groups, &selected);
    let ids: Vec<i32> = subset.iter().map(|g| g.id).collect();
    assert_eq!(ids, vec![1, 3]);
}

use ninebynine::dates::{calendar_date_of, date_key_u32, date_string, CalendarDate};
use ninebynine::export::{sgf_file_name, sgf_file_text};
use ninebynine::fetch::{backoff_secs, games_page_url, pages_count};
use ninebynine::artifacts::sgf_url;
use ninebynine::records::{Game, GamesPage, GetNineByNineGames};
use ninebynine::resolve::search_url;
use ninebynine::text::{i32_to_string, u64_to_string};

fn game(id: i32, width: i32, ended: i64) -> Game {
    Game { id, width, ended, name: String::from("g") }
}

#[test]
fn pages_count_values() {
    assert_eq!(pages_count(0, 10), 0);
    assert_eq!(pages_count(1, 10), 1);
    assert_eq!(pages_count(10, 10), 1);
    assert_eq!(pages_count(11, 10), 2);
    assert_eq!(pages_count(95, 10), 10);
    assert_eq!(pages_count(100, 10), 10);
}

#[test]
fn backoff_stays_in_bounds() {
    let mut entropy: u64 = 0;
    while entropy < 20 {
        let secs = backoff_secs(entropy);
        assert!(secs >= 5 && secs < 10);
        assert_eq!(secs, 5 + entropy % 5);
        entropy += 1;
    }
}

#[test]
fn decimal_strings() {
    assert_eq!(u64_to_string(0), "0");
    assert_eq!(u64_to_string(10), "10");
    assert_eq!(u64_to_string(1234567), "1234567");
    assert_eq!(i32_to_string(-45), "-45");
    assert_eq!(i32_to_string(7), "7");
}

#[test]
fn timestamp_to_calendar_date() {
    let d = calendar_date_of(1672531200);
    assert_eq!(d, CalendarDate { year: 2023, month: 1, day: 1 });
    assert_eq!(date_string(&d), "2023-01-01");
}

#[test]
fn timestamp_boundaries() {
    // first second of the epoch
    let d0 = calendar_date_of(0);
    assert_eq!(date_string(&d0), "1970-01-01");
    // last second of a day still belongs to that day
    let d1 = calendar_date_of(1672617599);
    assert_eq!(date_string(&d1), "2023-01-01");
    // last representable second
    let d2 = calendar_date_of(253402300799);
    assert_eq!(date_string(&d2), "9999-12-31");
}

#[test]
fn single_digit_fields_are_zero_padded() {
    // 2023-09-05T00:00:00Z
    let d = calendar_date_of(1693872000);
    assert_eq!(d, CalendarDate { year: 2023, month: 9, day: 5 });
    assert_eq!(date_string(&d), "2023-09-05");
}

#[test]
fn date_keys_order_days() {
    let a = calendar_date_of(1672531200); // 2023-01-01
    let b = calendar_date_of(1672617600); // 2023-01-02
    assert!(date_key_u32(&a) < date_key_u32(&b));
}

#[test]
fn endpoint_urls() {
    let q = String::from("alice");
    assert_eq!(
        search_url(&q),
        "https://online-go.com/api/v1/ui/omniSearch?q=alice"
    );
    assert_eq!(
        games_page_url(1, 2),
        "https://online-go.com/api/v1/players/1/games?page=2"
    );
    assert_eq!(sgf_url(10), "https://online-go.com/api/v1/games/10/sgf");
}

#[test]
fn planned_file_name_and_text() {
    assert_eq!(sgf_file_name(10), "10.sgf");
    let content = String::from("(;GM[1])");
    assert_eq!(sgf_file_text(&content), "(;GM[1])\n");
}

#[test]
fn page_keeps_only_nine_by_nine() {
    let page = GamesPage {
        count: 3,
        next: None,
        previous: None,
        results: vec![game(1, 9, 0), game(2, 19, 0), game(3, 9, 86400)],
    };
    let kept = page.get_nine_by_nine_games();
    assert_eq!(kept.len(), 2);
    assert_eq!(kept[0].id, 1);
    assert_eq!(kept[1].id, 3);
}

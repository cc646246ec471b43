//! The crawl side: pagination windows, the retry budget with token
//! invalidation, the session-token extraction, the convergence
//! filter, the persistence model, and one whole page parsed from raw
//! markup.

use nico_bbs::board::{AuthExtractionError, Board};
use nico_bbs::fetch::{FetchDecision, FetchEvent, RetryState};
use nico_bbs::pagination::Offset;
use nico_bbs::res::{Oekaki, Res};
use nico_bbs::seek::{select_new, MemStore, PersistenceError};

#[test]
fn first_window_is_aligned() {
    assert_eq!(Offset::from_res_no(1).offset, 0);
    assert_eq!(Offset::from_res_no(30).offset, 0);
    assert_eq!(Offset::from_res_no(31).offset, 30);
    assert_eq!(Offset::from_res_no(61).offset, 60);
    assert_eq!(Offset::from_res_no(90).offset, 60);
}

#[test]
fn windows_advance_by_thirty_without_gaps() {
    let mut cursor = Offset::from_res_no(45);
    let first = cursor.next();
    let second = cursor.next();
    let third = cursor.next();
    assert_eq!(first.first_res_no(), 31);
    assert_eq!(second.first_res_no(), 61);
    assert_eq!(third.first_res_no(), 91);
}

#[test]
fn success_does_not_consume_the_budget() {
    let mut st = RetryState::new();
    assert_eq!(st.on_event(FetchEvent::Status(200)), FetchDecision::Succeed);
    assert_eq!(st.attempts, 0);
}

#[test]
fn forbidden_invalidates_exactly_once_and_counts() {
    let mut st = RetryState::new();
    let d = st.on_event(FetchEvent::Status(403));
    assert_eq!(d, FetchDecision::Retry { invalidate: true });
    assert_eq!(st.attempts, 1);
    let d2 = st.on_event(FetchEvent::Status(500));
    assert_eq!(d2, FetchDecision::Retry { invalidate: false });
    assert_eq!(st.attempts, 2);
}

#[test]
fn budget_is_exhausted_on_the_fifth_failure() {
    let mut st = RetryState::new();
    for _ in 0..4 {
        let d = st.on_event(FetchEvent::TransportError);
        assert!(matches!(d, FetchDecision::Retry { .. }));
    }
    assert_eq!(
        st.on_event(FetchEvent::TransportError),
        FetchDecision::GiveUp(FetchEvent::TransportError)
    );
    assert_eq!(st.attempts, 5);
}

#[test]
fn exhaustion_carries_the_last_observed_status() {
    let mut st = RetryState::new();
    for _ in 0..4 {
        st.on_event(FetchEvent::TransportError);
    }
    assert_eq!(
        st.on_event(FetchEvent::Status(502)),
        FetchDecision::GiveUp(FetchEvent::Status(502))
    );
}

#[test]
fn board_token_lifecycle() {
    let mut b = Board::new("https://ch.nicovideo.jp/unkchanel/bbs", "ch2598430");
    assert!(b.hash_key.is_none());
    b.set_hash_key("tok".to_string());
    assert_eq!(b.hash_key.as_deref(), Some("tok"));
    b.invalidate_hash_key();
    assert!(b.hash_key.is_none());
}

#[test]
fn hash_key_comes_from_the_panel_target() {
    let html = "<html><body>\
        <iframe id=\"community-bbs\" src=\"https://com.nicovideo.jp/bbs/?hash_key=abc123&x=1\">\
        </iframe></body></html>";
    let key = Board::extract_hash_key_from_html(html).unwrap();
    assert_eq!(key, "abc123");
}

#[test]
fn hash_key_errors() {
    assert_eq!(
        Board::extract_hash_key_from_html("<html><body></body></html>"),
        Err(AuthExtractionError::MissingPanel)
    );
    let no_query = "<html><body>\
        <iframe id=\"community-bbs\" src=\"https://com.nicovideo.jp/bbs/\"></iframe>\
        </body></html>";
    assert_eq!(
        Board::extract_hash_key_from_html(no_query),
        Err(AuthExtractionError::MissingQueryValue)
    );
}

#[test]
fn page_fetch_url() {
    let board = Board::new("https://ch.nicovideo.jp/unkchanel/bbs", "ch2598430");
    assert_eq!(
        board.page_url(31),
        "https://dic.nicovideo.jp/b/c/ch2598430/31-"
    );
}

#[test]
fn drawing_image_url() {
    let o = Oekaki {
        oekaki_id: 42,
        oekaki_title: None,
        original_oekaki_res_no: None,
    };
    assert_eq!(
        o.get_url("ch2598430"),
        "https://dic.nicovideo.jp/b/c/ch2598430/oekaki/42.png"
    );
}

#[test]
fn one_page_of_raw_markup() {
    let html = "<html><body><dl>\
        <dt><a name=\"5\">5</a> : 2012/05/06(\u{65e5}) 12:34:56 ID: abc</dt>\
        <dd>hello<br>world</dd>\
        <dt><a name=\"6\">6</a> : 2012/05/06(\u{65e5}) 12:35:00 ID: def</dt>\
        <dd>second</dd>\
        </dl></body></html>";
    let board = Board::new("https://ch.nicovideo.jp/unkchanel/bbs", "ch2598430");
    let pairs = board.parse_html(html).unwrap();
    assert_eq!(pairs.len(), 2);
    assert_eq!(pairs[0].0.no, 5);
    assert_eq!(pairs[0].0.id, "abc");
    assert_eq!(pairs[0].0.main_text, "hello\nworld");
    assert_eq!(pairs[0].0.main_text_html, "hello<br>world");
    assert_eq!(pairs[1].0.no, 6);
    assert_eq!(pairs[1].0.main_text, "second");
}

#[test]
fn page_without_posts_list_is_empty() {
    let board = Board::new("https://ch.nicovideo.jp/unkchanel/bbs", "ch2598430");
    let pairs = board.parse_html("<html><body><p>nothing here</p></body></html>").unwrap();
    assert!(pairs.is_empty());
}

fn post(no: i32) -> (Res, Option<Oekaki>) {
    let mut r = Res::default();
    r.no = no;
    (r, None)
}

#[test]
fn filter_skips_posts_at_or_below_the_mark() {
    let pairs = vec![post(5), post(6), post(7)];
    let (kept, max) = select_new(pairs, 6);
    assert_eq!(kept.len(), 1);
    assert_eq!(kept[0].0.no, 7);
    assert_eq!(max, 7);
}

#[test]
fn filter_keeps_nothing_when_caught_up() {
    let pairs = vec![post(5), post(6)];
    let (kept, max) = select_new(pairs, 9);
    assert!(kept.is_empty());
    assert_eq!(max, 9);
}

#[test]
fn idempotent_resume_never_reinserts() {
    // a store already holding posts up to the mark
    let mut store = MemStore::new();
    for no in [1, 2, 3] {
        let (r, _) = post(no);
        store.insert_res(r).unwrap();
    }
    let h = store.get_max_res_no();
    assert_eq!(h, 3);
    // a window re-delivering old posts alongside new ones
    let pairs = vec![post(2), post(3), post(4), post(5)];
    let (kept, max) = select_new(pairs, h);
    for (r, o) in kept {
        store.insert_res(r).unwrap();
        assert!(o.is_none());
    }
    assert_eq!(max, 5);
    assert_eq!(store.get_max_res_no(), 5);
    assert_eq!(store.posts.len(), 5);
}

#[test]
fn store_refuses_duplicates() {
    let mut store = MemStore::new();
    store.insert_res(post(1).0).unwrap();
    assert_eq!(
        store.insert_res(post(1).0),
        Err(PersistenceError::DuplicateKey)
    );
    let o = Oekaki {
        oekaki_id: 7,
        oekaki_title: None,
        original_oekaki_res_no: None,
    };
    store.insert_oekaki(o).unwrap();
    let o2 = Oekaki {
        oekaki_id: 7,
        oekaki_title: Some("t".to_string()),
        original_oekaki_res_no: None,
    };
    assert_eq!(
        store.insert_oekaki(o2),
        Err(PersistenceError::DuplicateKey)
    );
}

#[test]
fn persisted_post_reads_back_field_for_field() {
    let mut store = MemStore::new();
    let mut r = Res::default();
    r.no = 11;
    r.name_and_trip = "alice sig".to_string();
    r.datetime_text = "2012/05/06(\u{65e5}) 12:34:56".to_string();
    r.id = "abc".to_string();
    r.main_text = "hello".to_string();
    r.main_text_html = "hello".to_string();
    r.oekaki_id = Some(42);
    store.insert_res(r.clone()).unwrap();
    let got = store.get_res(11).unwrap();
    assert_eq!(got.no, r.no);
    assert_eq!(got.name_and_trip, r.name_and_trip);
    assert_eq!(got.datetime, r.datetime);
    assert_eq!(got.datetime_text, r.datetime_text);
    assert_eq!(got.id, r.id);
    assert_eq!(got.main_text, r.main_text);
    assert_eq!(got.main_text_html, r.main_text_html);
    assert_eq!(got.oekaki_id, r.oekaki_id);
    assert!(store.get_res(12).is_none());
}

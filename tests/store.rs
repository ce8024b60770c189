use movielister::events::Msg;
use movielister::movies::{Movie, MovieBase};
use movielister::mutation::{add_movie, rate_movie};
use movielister::reconcile::apply_event;
use movielister::store::MovieStore;

fn movie(id: u64, title: &str, added: u64) -> Movie {
    Movie::new(MovieBase::new(id, title.to_string()), added)
}

#[test]
fn readding_keeps_one_record_second_wins() {
    let mut store = MovieStore::new();
    add_movie(&mut store, movie(5, "First", 1));
    add_movie(&mut store, movie(5, "Second", 2));
    assert_eq!(store.len(), 1);
    let m = store.get(5).unwrap();
    assert_eq!(m.base.title, "Second");
    assert_eq!(m.time_added, 2);
}

#[test]
fn add_movie_emits_added_event() {
    let mut store = MovieStore::new();
    match add_movie(&mut store, movie(9, "Nine", 3)) {
        Msg::AddMovie(m) => {
            assert_eq!(m.key(), 9);
            assert_eq!(m.base.title, "Nine");
        }
        other => panic!("unexpected event {other:?}"),
    }
}

#[test]
fn rating_missing_movie_is_noop_and_still_emits() {
    let mut store = MovieStore::new();
    add_movie(&mut store, movie(1, "One", 1));
    let event = rate_movie(&mut store, 2, 7, 80);
    assert!(matches!(event, Msg::RateMovie((2, 7, 80))));
    assert_eq!(store.len(), 1);
    assert!(store.get(2).is_none());
    assert_eq!(store.get(1).unwrap().rating.len(), 0);
}

#[test]
fn rating_present_movie_updates_mean() {
    let mut store = MovieStore::new();
    add_movie(&mut store, movie(1, "One", 1));
    let event = rate_movie(&mut store, 1, 7, 80);
    assert!(matches!(event, Msg::RateMovie((1, 7, 80))));
    rate_movie(&mut store, 1, 8, 41);
    let m = store.get(1).unwrap();
    assert_eq!(m.rating.average(), 60);
    assert_eq!(m.rating.score_of(7), Some(80));
}

#[test]
fn many_raters_on_one_movie() {
    let mut store = MovieStore::new();
    add_movie(&mut store, movie(1, "One", 1));
    let scores = [10u8, 20, 30, 40, 55];
    for (i, s) in scores.iter().enumerate().rev() {
        rate_movie(&mut store, 1, i as u64, *s);
    }
    assert_eq!(store.get(1).unwrap().rating.average(), 31);
    assert_eq!(store.get(1).unwrap().rating.len(), 5);
}

#[test]
fn ids_and_snapshot() {
    let mut store = MovieStore::new();
    assert!(store.ids().is_empty());
    add_movie(&mut store, movie(3, "C", 1));
    add_movie(&mut store, movie(1, "A", 2));
    add_movie(&mut store, movie(2, "B", 3));
    let mut ids = store.ids();
    ids.sort();
    assert_eq!(ids, vec![1, 2, 3]);
    let snap = store.snapshot();
    add_movie(&mut store, movie(4, "D", 4));
    assert_eq!(snap.len(), 3);
    assert_eq!(store.len(), 4);
    assert!(snap.get_ref(4).is_none());
    assert_eq!(snap.get_ref(2).unwrap().base.title, "B");
}

#[test]
fn replica_follows_store_through_events() {
    let mut store = MovieStore::new();
    let mut replica = MovieStore::new();
    let events = vec![
        add_movie(&mut store, movie(1, "One", 1)),
        rate_movie(&mut store, 1, 7, 80),
        rate_movie(&mut store, 2, 7, 10),
        add_movie(&mut store, movie(2, "Two", 2)),
        rate_movie(&mut store, 1, 8, 40),
    ];
    for e in events {
        apply_event(&mut replica, e);
    }
    assert_eq!(replica.len(), 2);
    assert_eq!(replica.get(1).unwrap().rating.average(), 60);
    assert_eq!(replica.get(2).unwrap().rating.len(), 0);
    assert_eq!(store.get(1).unwrap().rating.average(), 60);
}

#[test]
fn duplicate_events_are_idempotent() {
    let mut replica = MovieStore::new();
    let add = Msg::AddMovie(movie(4, "Four", 1));
    let rate = Msg::RateMovie((4, 9, 70));
    apply_event(&mut replica, add.duplicate());
    apply_event(&mut replica, rate.duplicate());
    apply_event(&mut replica, rate.duplicate());
    assert_eq!(replica.len(), 1);
    assert_eq!(replica.get(4).unwrap().rating.len(), 1);
    assert_eq!(replica.get(4).unwrap().rating.average(), 70);
    apply_event(&mut replica, add);
    assert_eq!(replica.len(), 1);
    assert_eq!(replica.get(4).unwrap().rating.len(), 0);
}

#[test]
fn rating_event_for_unknown_movie_is_ignored() {
    let mut replica = MovieStore::new();
    apply_event(&mut replica, Msg::RateMovie((3, 1, 50)));
    assert_eq!(replica.len(), 0);
}

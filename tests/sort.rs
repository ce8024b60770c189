use movielister::movies::{Movie, MovieBase};
use movielister::mutation::{add_movie, rate_movie};
use movielister::sort::{SortEntry, SortError, SortOrder, SortType};
use std::cmp::Ordering;
use movielister::store::MovieStore;

fn two_movies() -> MovieStore {
    let mut store = MovieStore::new();
    add_movie(&mut store, Movie::new(MovieBase::new(1, "Beta".to_string()), 1));
    add_movie(&mut store, Movie::new(MovieBase::new(2, "Alpha".to_string()), 2));
    rate_movie(&mut store, 1, 100, 50);
    rate_movie(&mut store, 2, 100, 90);
    store
}

#[test]
fn sort_example_title_added_score() {
    let store = two_movies();
    let by_title = SortOrder { reversed: false, sort_type: SortType::Title };
    assert_eq!(by_title.sort_movies(&store), vec![2, 1]);
    let by_added = SortOrder { reversed: false, sort_type: SortType::Added };
    assert_eq!(by_added.sort_movies(&store), vec![1, 2]);
    let by_score_rev = SortOrder { reversed: true, sort_type: SortType::Score };
    assert_eq!(by_score_rev.sort_movies(&store), vec![2, 1]);
}

#[test]
fn reversed_orders_flip() {
    let store = two_movies();
    let title_rev = SortOrder { reversed: true, sort_type: SortType::Title };
    assert_eq!(title_rev.sort_movies(&store), vec![1, 2]);
    let score = SortOrder { reversed: false, sort_type: SortType::Score };
    assert_eq!(score.sort_movies(&store), vec![1, 2]);
}

#[test]
fn title_order_is_by_code_point() {
    let mut store = MovieStore::new();
    let titles = ["b", "Zed", "ab", "a", "Éclair", ""];
    for (i, t) in titles.iter().enumerate() {
        add_movie(&mut store, Movie::new(MovieBase::new(i as u64, t.to_string()), 0));
    }
    let order = SortOrder { reversed: false, sort_type: SortType::Title };
    assert_eq!(order.sort_movies(&store), vec![5, 1, 3, 2, 0, 4]);
}

#[test]
fn sort_empty_store() {
    let store = MovieStore::new();
    assert!(SortOrder::default().sort_movies(&store).is_empty());
}

#[test]
fn sort_items_compares_keys() {
    let a = SortEntry { position: 0, id: 1, time_added: 5, title: "x".to_string(), score: 10 };
    let b = SortEntry { position: 1, id: 2, time_added: 5, title: "y".to_string(), score: 3 };
    let added = SortOrder { reversed: false, sort_type: SortType::Added };
    assert_eq!(added.sort_items(&a, &b), Ordering::Equal);
    let title = SortOrder { reversed: false, sort_type: SortType::Title };
    assert_eq!(title.sort_items(&a, &b), Ordering::Less);
    let score_rev = SortOrder { reversed: true, sort_type: SortType::Score };
    assert_eq!(score_rev.sort_items(&a, &b), Ordering::Less);
}

#[test]
fn button_press_toggles_or_selects() {
    let start = SortOrder::default();
    assert_eq!(start, SortOrder { reversed: false, sort_type: SortType::Added });
    let flipped = start.toggled(SortType::Added);
    assert_eq!(flipped, SortOrder { reversed: true, sort_type: SortType::Added });
    let other = flipped.toggled(SortType::Score);
    assert_eq!(other, SortOrder { reversed: false, sort_type: SortType::Score });
    assert!(other.is_selected(SortType::Score));
    assert!(!other.is_selected(SortType::Title));
}

#[test]
fn sort_type_names() {
    assert_eq!(SortType::Added.name(), "Added");
    assert_eq!(SortType::Title.name(), "Title");
    assert_eq!(SortType::Score.name(), "Score");
    assert_eq!(SortType::default(), SortType::Added);
}

#[test]
fn sort_key_from_name() {
    assert_eq!(SortType::from_name("Added"), Ok(SortType::Added));
    assert_eq!(SortType::from_name("Title"), Ok(SortType::Title));
    assert_eq!(SortType::from_name("Score"), Ok(SortType::Score));
    assert_eq!(SortType::from_name("score"), Err(SortError::InvalidSortKey));
    assert_eq!(SortType::from_name(""), Err(SortError::InvalidSortKey));
    assert_eq!(SortType::from_name("Titles"), Err(SortError::InvalidSortKey));
}

#[test]
fn sort_ids_is_stable_for_equal_keys() {
    let mut store = MovieStore::new();
    for (id, added) in [(10u64, 5u64), (11, 3), (12, 5), (13, 3), (14, 5)] {
        add_movie(&mut store, Movie::new(MovieBase::new(id, "Same".to_string()), added));
    }
    let by_added = SortOrder { reversed: false, sort_type: SortType::Added };
    assert_eq!(by_added.sort_ids(&store, &vec![14, 10, 13, 12, 11]), vec![13, 11, 14, 10, 12]);
    let by_added_rev = SortOrder { reversed: true, sort_type: SortType::Added };
    assert_eq!(by_added_rev.sort_ids(&store, &vec![14, 10, 13, 12, 11]), vec![14, 10, 12, 13, 11]);
    let by_title = SortOrder { reversed: false, sort_type: SortType::Title };
    assert_eq!(by_title.sort_ids(&store, &vec![12, 14, 10, 11, 13]), vec![12, 14, 10, 11, 13]);
    assert!(by_title.sort_ids(&store, &vec![]).is_empty());
}

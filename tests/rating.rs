use movielister::rating::MovieRating;

#[test]
fn empty_rating_has_zero_mean() {
    let r = MovieRating::new();
    assert_eq!(r.average(), 0);
    assert_eq!(r.len(), 0);
    assert_eq!(r.score_of(7), None);
}

#[test]
fn overwrite_not_accumulate() {
    let mut r = MovieRating::new();
    r.add_rating(7, 80);
    r.add_rating(7, 40);
    assert_eq!(r.average(), 40);
    assert_eq!(r.len(), 1);
    assert_eq!(r.score_of(7), Some(40));
}

#[test]
fn mean_is_truncated() {
    let mut r = MovieRating::new();
    r.add_rating(1, 50);
    r.add_rating(2, 51);
    assert_eq!(r.average(), 50);
    r.add_rating(3, 100);
    assert_eq!(r.average(), 67);
}

#[test]
fn same_pairs_any_order_same_mean() {
    let pairs = [(1u64, 30u8), (2, 90), (3, 45), (4, 100)];
    let mut forward = MovieRating::new();
    for (u, s) in pairs.iter() {
        forward.add_rating(*u, *s);
    }
    let mut backward = MovieRating::new();
    for (u, s) in pairs.iter().rev() {
        backward.add_rating(*u, *s);
    }
    let mut shuffled = MovieRating::new();
    for i in [2usize, 0, 3, 1] {
        shuffled.add_rating(pairs[i].0, pairs[i].1);
    }
    assert_eq!(forward.average(), 66);
    assert_eq!(backward.average(), 66);
    assert_eq!(shuffled.average(), 66);
}

#[test]
fn distinct_raters_mean_of_all() {
    let mut r = MovieRating::new();
    let mut sum: u32 = 0;
    for u in 0..50u64 {
        let s = ((u * 37) % 101) as u8;
        sum += s as u32;
        r.add_rating(1000 - u, s);
    }
    assert_eq!(r.len(), 50);
    assert_eq!(r.average() as u32, sum / 50);
}

#[test]
fn top_scores_do_not_overflow() {
    let mut r = MovieRating::new();
    for u in 0..300u64 {
        r.add_rating(u, 255);
    }
    assert_eq!(r.average(), 255);
}

#[test]
fn duplicate_rating_keeps_scores() {
    let mut r = MovieRating::new();
    r.add_rating(3, 20);
    r.add_rating(4, 60);
    let d = r.duplicate();
    assert_eq!(d.average(), 40);
    assert_eq!(d.score_of(4), Some(60));
}

#[test]
fn repeated_users_only_last_score_counts() {
    let a = [(1u64, 10u8), (2, 90), (1, 70), (3, 20), (2, 30)];
    let b = [(3u64, 20u8), (2, 99), (2, 30), (1, 70)];
    let mut ra = MovieRating::new();
    for (u, s) in a.iter() {
        ra.add_rating(*u, *s);
    }
    let mut rb = MovieRating::new();
    for (u, s) in b.iter() {
        rb.add_rating(*u, *s);
    }
    assert_eq!(ra.average(), 40);
    assert_eq!(rb.average(), 40);
    assert_eq!(ra.len(), 3);
    for u in 1..=3u64 {
        assert_eq!(ra.score_of(u), rb.score_of(u));
    }
}

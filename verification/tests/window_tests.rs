use sentiment_server::window::{SentimentData, Tweet};

fn tweet(id: u64, text: &str) -> Tweet {
    Tweet { id, text: text.to_string() }
}

fn ids(items: &[Tweet]) -> Vec<u64> {
    items.iter().map(|t| t.id).collect()
}

#[test]
fn new_window_is_empty() {
    let w = SentimentData::new(8);
    assert_eq!(w.total_tweets, 0);
    assert_eq!(w.tweets.len(), 0);
    assert_eq!(w.capacity, 8);
}

#[test]
fn appends_within_capacity_keep_everything_in_order() {
    let mut w = SentimentData::new(5);
    for id in 1..=3u64 {
        w.append(tweet(id, "t"));
    }
    assert_eq!(w.total_tweets, 3);
    assert_eq!(ids(&w.tweets), vec![1, 2, 3]);
}

#[test]
fn eviction_keeps_last_capacity_events() {
    // capacity 3, ids 1,2,3,4 in order: window [2,3,4], total 4
    let mut w = SentimentData::new(3);
    for id in 1..=4u64 {
        w.append(tweet(id, "t"));
    }
    assert_eq!(w.total_tweets, 4);
    assert_eq!(ids(&w.tweets), vec![2, 3, 4]);
}

#[test]
fn many_appends_hold_min_of_n_and_capacity() {
    let mut w = SentimentData::new(4);
    for id in 0..10u64 {
        w.append(tweet(id, "t"));
    }
    assert_eq!(w.total_tweets, 10);
    assert_eq!(w.tweets.len(), 4);
    assert_eq!(ids(&w.tweets), vec![6, 7, 8, 9]);
}

#[test]
fn capacity_zero_window_stays_empty_but_counts() {
    let mut w = SentimentData::new(0);
    w.append(tweet(1, "t"));
    w.append(tweet(2, "t"));
    assert_eq!(w.total_tweets, 2);
    assert_eq!(w.tweets.len(), 0);
}

#[test]
fn snapshot_returns_count_and_copy() {
    let mut w = SentimentData::new(3);
    w.append(tweet(1, "one"));
    w.append(tweet(2, "two"));
    let (total, items) = w.snapshot();
    assert_eq!(total, 2);
    assert_eq!(ids(&items), vec![1, 2]);
    assert_eq!(items[0].text, "one");
    assert_eq!(items[1].text, "two");
}

#[test]
fn snapshot_is_decoupled_from_later_appends() {
    let mut w = SentimentData::new(2);
    w.append(tweet(1, "a"));
    let (total, items) = w.snapshot();
    w.append(tweet(2, "b"));
    w.append(tweet(3, "c"));
    assert_eq!(total, 1);
    assert_eq!(ids(&items), vec![1]);
    assert_eq!(ids(&w.tweets), vec![2, 3]);
}

#[test]
fn tweet_clone_copies_both_fields() {
    let t = tweet(42, "hello");
    let c = t.clone();
    assert_eq!(c.id, 42);
    assert_eq!(c.text, "hello");
}

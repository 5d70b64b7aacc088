//! The bounded event window: the most recent events, oldest first, together
//! with an all-time count of everything ever ingested.
use vstd::prelude::*;

verus! {

/// One ingested event: an identifier and the sentiment-bearing text.
pub struct Tweet {
    pub id: u64,
    pub text: String,
}

impl Clone for Tweet {
    fn clone(&self) -> (r: Self)
        ensures
            r == *self,
    {
        Tweet { id: self.id, text: self.text.clone() }
    }
}

/// The window that results from appending `t` to `items` under `capacity`:
/// `t` goes to the back, and the front is dropped if the result would
/// exceed the capacity.
pub open spec fn appended(items: Seq<Tweet>, t: Tweet, capacity: nat) -> Seq<Tweet> {
    let pushed = items.push(t);
    if pushed.len() <= capacity {
        pushed
    } else {
        pushed.skip(pushed.len() - capacity)
    }
}

/// The window after appending every element of `events` in order into an
/// empty window of the given capacity.
pub open spec fn window_of(events: Seq<Tweet>, capacity: nat) -> Seq<Tweet>
    decreases events.len(),
{
    if events.len() == 0 {
        Seq::<Tweet>::empty()
    } else {
        appended(window_of(events.drop_last(), capacity), events.last(), capacity)
    }
}

pub open spec fn min_nat(a: nat, b: nat) -> nat {
    if a <= b {
        a
    } else {
        b
    }
}

/// Law: after appending any sequence of events, in order, into an empty
/// window of capacity `capacity`, the window holds exactly the last
/// `min(N, capacity)` of the `N` appended events, in their original order.
pub proof fn lemma_window_of_appends(events: Seq<Tweet>, capacity: nat)
    ensures
        window_of(events, capacity).len() == min_nat(events.len(), capacity),
        window_of(events, capacity) == events.skip(
            events.len() - min_nat(events.len(), capacity),
        ),
    decreases events.len(),
{
    let n = events.len();
    let m = min_nat(n, capacity);
    if n == 0 {
        assert(window_of(events, capacity) =~= events.skip(0));
    } else {
        let prefix = events.drop_last();
        lemma_window_of_appends(prefix, capacity);
        let w = window_of(prefix, capacity);
        let k = min_nat(prefix.len(), capacity);
        assert(w =~= prefix.skip(prefix.len() - k));
        if n <= capacity {
            assert(window_of(events, capacity) =~= events.skip(n - m));
        } else {
            assert(w.len() == capacity);
            assert(window_of(events, capacity) =~= events.skip(n - m));
        }
    }
}

/// Law: what a snapshot observes is never torn. `snapshot` returns exactly
/// the pair `(total_tweets, tweets)`, so in a window that holds the outcome
/// of some sequence of appends — `total_tweets` its length, `tweets` its
/// window — the observed pair is that sequence's all-time count together
/// with its last `capacity` events in their original order, never a mixture
/// of earlier and later states.
pub proof fn lemma_snapshot_consistent(w: SentimentData, events: Seq<Tweet>)
    requires
        w.total_tweets == events.len(),
        w.tweets@ == window_of(events, w.capacity as nat),
    ensures
        w.tweets@.len() == min_nat(events.len(), w.capacity as nat),
        w.tweets@ == events.skip(events.len() - min_nat(events.len(), w.capacity as nat)),
{
    lemma_window_of_appends(events, w.capacity as nat);
}

/// The bounded store of recent events shared by the ingestion side and the
/// page-serving side. `total_tweets` counts every event ever appended;
/// `tweets` holds at most `capacity` of the most recent ones, oldest first.
pub struct SentimentData {
    pub total_tweets: usize,
    pub tweets: Vec<Tweet>,
    pub capacity: usize,
}

impl SentimentData {
    /// The window never holds more than its capacity.
    pub open spec fn wf(self) -> bool {
        self.tweets@.len() <= self.capacity
    }

    pub fn new(capacity: usize) -> (r: SentimentData)
        ensures
            r.wf(),
            r.total_tweets == 0,
            r.tweets@ == Seq::<Tweet>::empty(),
            r.capacity == capacity,
    {
        SentimentData { total_tweets: 0, tweets: Vec::new(), capacity }
    }

    /// Appends one event: the all-time count rises by one, the event goes to
    /// the back of the window, and the oldest event is evicted if the window
    /// would otherwise exceed its capacity.
    pub fn append(&mut self, t: Tweet)
        requires
            old(self).wf(),
            old(self).total_tweets < usize::MAX,
        ensures
            final(self).wf(),
            final(self).capacity == old(self).capacity,
            final(self).total_tweets == old(self).total_tweets + 1,
            final(self).tweets@ == appended(old(self).tweets@, t, old(self).capacity as nat),
    {
        self.total_tweets = self.total_tweets + 1;
        self.tweets.push(t);
        if self.tweets.len() > self.capacity {
            self.tweets.remove(0);
            proof {
                assert(self.tweets@ =~= appended(
                    old(self).tweets@,
                    t,
                    old(self).capacity as nat,
                ));
            }
        }
    }

    /// Returns the all-time count and a copy of the window, so that a
    /// renderer can work without holding any lock on the live store.
    pub fn snapshot(&self) -> (r: (usize, Vec<Tweet>))
        ensures
            r.0 == self.total_tweets,
            r.1@ == self.tweets@,
    {
        let mut copy: Vec<Tweet> = Vec::new();
        let mut i: usize = 0;
        while i < self.tweets.len()
            invariant
                i <= self.tweets@.len(),
                copy@ =~= self.tweets@.subrange(0, i as int),
            decreases self.tweets@.len() - i,
        {
            copy.push(self.tweets[i].clone());
            i = i + 1;
        }
        proof {
            assert(copy@ =~= self.tweets@);
        }
        (self.total_tweets, copy)
    }
}

} // verus!

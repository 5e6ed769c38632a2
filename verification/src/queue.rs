//! The rolling window of rows that the collector keeps for each pair.
use vstd::prelude::*;
use crate::assoc::{assoc_map, lemma_assoc_map, lemma_assoc_map_push};
use crate::config::{
    Configuration, choose_config, chosen_interval, chosen_pairs, chosen_window, pair_texts,
};
use crate::decimal::{law_decimal_parse_roundtrip, parse_i64, parse_i64_spec, signed_decimal};
use crate::frame::Frame;
use crate::record::{arrange_vec, row_spec, row_text};

verus! {

/// The text of each row of a list of rows.
pub open spec fn steps_text(steps: Seq<Vec<String>>) -> Seq<Seq<Seq<char>>> {
    steps.map_values(|r: Vec<String>| row_text(r@))
}

/// `interval` divides `v`: what `v % interval == 0` tests in Rust.
pub open spec fn time_divisible(interval: int, v: int) -> bool {
    (if v < 0 { -v } else { v }) % interval == 0
}

/// A row whose first value reads as an `i64`.
pub open spec fn step_readable(step: Seq<Seq<char>>) -> bool {
    step.len() > 0 && parse_i64_spec(step[0]) is Some
}

/// The time of a row: its first value read as an `i64`.
pub open spec fn step_time(step: Seq<Seq<char>>) -> int {
    parse_i64_spec(step[0])->0
}

/// A row taken on the interval.
pub open spec fn on_interval(step: Seq<Seq<char>>, interval: int) -> bool {
    time_divisible(interval, step_time(step))
}

/// The rows taken on the interval, in their order.
pub open spec fn kept_steps(steps: Seq<Seq<Seq<char>>>, interval: int) -> Seq<Seq<Seq<char>>>
    decreases steps.len(),
{
    if steps.len() == 0 {
        Seq::empty()
    } else {
        let before = kept_steps(steps.drop_last(), interval);
        if on_interval(steps.last(), interval) {
            before.push(steps.last())
        } else {
            before
        }
    }
}

/// `t` as `t as i64` reads it.
pub open spec fn as_signed(t: u64) -> int {
    if t <= i64::MAX {
        t as int
    } else {
        t - 0x1_0000_0000_0000_0000
    }
}

/// The rows of a pair after one frame: the rows off the interval are dropped,
/// the oldest are dropped so that at most `window` remain with the new one, and
/// the new row is added last when the frame is on the interval (`due`).
pub open spec fn advance(
    steps: Seq<Seq<Seq<char>>>,
    row: Seq<Seq<char>>,
    due: bool,
    window: int,
    interval: int,
) -> Seq<Seq<Seq<char>>> {
    let kept = kept_steps(steps, interval);
    let excess = if due { kept.len() - window + 1 } else { kept.len() - window };
    let trimmed = if kept.len() >= window { kept.skip(excess) } else { kept };
    if due {
        trimmed.push(row)
    } else {
        trimmed
    }
}

/// Every row of every pair reads its time.
pub open spec fn queue_readable(q: Map<Seq<char>, Seq<Seq<Seq<char>>>>) -> bool {
    forall|k: Seq<char>, j: int|
        q.contains_key(k) && 0 <= j < q[k].len() ==> #[trigger] step_readable(q[k][j])
}

/// The rows of pair `k` before a frame: none for a pair not yet kept.
pub open spec fn base_steps(q: Map<Seq<char>, Seq<Seq<Seq<char>>>>, k: Seq<char>) -> Seq<
    Seq<Seq<char>>,
> {
    if q.contains_key(k) {
        q[k]
    } else {
        Seq::empty()
    }
}

/// The rows kept for each pair, oldest first; each pair once.
pub struct Queue {
    entries: Vec<(String, Vec<Vec<String>>)>,
}

/// The keys of a list of queue entries.
pub open spec fn queue_keys(es: Seq<(String, Vec<Vec<String>>)>) -> Seq<Seq<char>> {
    es.map_values(|e: (String, Vec<Vec<String>>)| e.0@)
}

/// The rows of a list of queue entries.
pub open spec fn queue_rows(es: Seq<(String, Vec<Vec<String>>)>) -> Seq<Seq<Seq<Seq<char>>>> {
    es.map_values(|e: (String, Vec<Vec<String>>)| steps_text(e.1@))
}

impl View for Queue {
    type V = Map<Seq<char>, Seq<Seq<Seq<char>>>>;

    /// The rows of each pair.
    closed spec fn view(&self) -> Map<Seq<char>, Seq<Seq<Seq<char>>>> {
        assoc_map(queue_keys(self.entries@), queue_rows(self.entries@))
    }
}

impl Queue {
    #[verifier::type_invariant]
    spec fn keys_distinct(self) -> bool {
        queue_keys(self.entries@).no_duplicates()
    }

    /// An empty queue.
    pub fn new() -> (r: Queue)
        ensures
            r@ == Map::<Seq<char>, Seq<Seq<Seq<char>>>>::empty(),
    {
        let r = Queue { entries: Vec::new() };
        assert(queue_keys(r.entries@) =~= Seq::<Seq<char>>::empty());
        r
    }

    fn find(&self, key: &String) -> (r: Option<usize>)
        ensures
            match r {
                Some(i) => i < self.entries@.len() && self.entries@[i as int].0@ == key@,
                None => !queue_keys(self.entries@).contains(key@),
            },
    {
        let mut i: usize = 0;
        while i < self.entries.len()
            invariant
                i <= self.entries@.len(),
                forall|j: int| 0 <= j < i ==> self.entries@[j].0@ != key@,
            decreases self.entries@.len() - i,
        {
            if self.entries[i].0 == *key {
                return Some(i);
            }
            i = i + 1;
        }
        proof {
            if queue_keys(self.entries@).contains(key@) {
                let j = choose|j: int|
                    0 <= j < queue_keys(self.entries@).len() && queue_keys(self.entries@)[j]
                        == key@;
                assert(self.entries@[j].0@ == key@);
            }
        }
        None
    }

    /// The rows of pair `key`, oldest first, if the queue keeps that pair.
    pub fn get(&self, key: &str) -> (r: Option<&Vec<Vec<String>>>)
        ensures
            match r {
                Some(steps) => self@.contains_key(key@) && steps_text(steps@) == self@[key@],
                None => !self@.contains_key(key@),
            },
    {
        proof {
            use_type_invariant(self);
            lemma_assoc_map(queue_keys(self.entries@), queue_rows(self.entries@));
        }
        let k = String::from_str(key);
        match self.find(&k) {
            Some(i) => {
                assert(queue_keys(self.entries@)[i as int] == key@);
                Some(&self.entries[i].1)
            },
            None => None,
        }
    }

    /// The pairs that the queue keeps, in the order in which they were added.
    pub fn keys(&self) -> (r: Vec<String>)
        ensures
            r@.map_values(|s: String| s@).no_duplicates(),
            forall|k: Seq<char>| #[trigger]
                self@.contains_key(k) <==> r@.map_values(|s: String| s@).contains(k),
    {
        proof {
            use_type_invariant(self);
            lemma_assoc_map(queue_keys(self.entries@), queue_rows(self.entries@));
        }
        let mut r: Vec<String> = Vec::new();
        let mut i: usize = 0;
        while i < self.entries.len()
            invariant
                i <= self.entries@.len(),
                r@.map_values(|s: String| s@) =~= queue_keys(self.entries@).take(i as int),
            decreases self.entries@.len() - i,
        {
            r.push(self.entries[i].0.clone());
            assert(queue_keys(self.entries@).take(i + 1) =~= queue_keys(self.entries@).take(
                i as int,
            ).push(self.entries@[i as int].0@));
            i = i + 1;
        }
        assert(queue_keys(self.entries@).take(i as int) =~= queue_keys(self.entries@));
        r
    }

    /// The number of pairs that the queue keeps.
    pub fn len(&self) -> (r: usize)
        ensures
            r == self@.dom().len(),
    {
        proof {
            use_type_invariant(self);
            lemma_assoc_map(queue_keys(self.entries@), queue_rows(self.entries@));
            queue_keys(self.entries@).unique_seq_to_set();
            assert(self@.dom() =~= queue_keys(self.entries@).to_set());
        }
        self.entries.len()
    }

    /// Adds pair `key` with no rows, unless the queue keeps it already.
    fn add_pair(&mut self, key: String)
        ensures
            final(self)@ == (if old(self)@.contains_key(key@) {
                old(self)@
            } else {
                old(self)@.insert(key@, Seq::empty())
            }),
    {
        proof {
            use_type_invariant(&*self);
            lemma_assoc_map(queue_keys(self.entries@), queue_rows(self.entries@));
        }
        match self.find(&key) {
            Some(i) => {
                assert(queue_keys(self.entries@)[i as int] == key@);
            },
            None => {
                let ghost old_entries = self.entries@;
                let mut entries: Vec<(String, Vec<Vec<String>>)> = Vec::new();
                std::mem::swap(&mut entries, &mut self.entries);
                let ghost kv = key@;
                let steps: Vec<Vec<String>> = Vec::new();
                entries.push((key, steps));
                proof {
                    let ks = queue_keys(entries@);
                    let olds = queue_keys(old_entries);
                    assert(ks =~= olds.push(kv));
                    assert(steps_text(steps@) =~= Seq::<Seq<Seq<char>>>::empty());
                    assert(queue_rows(entries@) =~= queue_rows(old_entries).push(Seq::empty()));
                    lemma_assoc_map_push(olds, queue_rows(old_entries), kv, Seq::empty());
                    assert forall|a: int, b: int|
                        0 <= a < ks.len() && 0 <= b < ks.len() && a != b implies ks[a]
                        != ks[b] by {
                        if a == ks.len() - 1 {
                            assert(olds[b] == ks[b]);
                            assert(olds.contains(olds[b]));
                        } else if b == ks.len() - 1 {
                            assert(olds[a] == ks[a]);
                            assert(olds.contains(olds[a]));
                        } else {
                            assert(olds[a] == ks[a]);
                            assert(olds[b] == ks[b]);
                        }
                    }
                }
                self.entries = entries;
            },
        }
    }

    /// The entries of the queue, each key once.
    fn into_entries(self) -> (r: Vec<(String, Vec<Vec<String>>)>)
        ensures
            queue_keys(r@).no_duplicates(),
            assoc_map(queue_keys(r@), queue_rows(r@)) == self@,
    {
        proof {
            use_type_invariant(&self);
        }
        self.entries
    }
}

/// Whether `interval` divides `v`, as `v % interval == 0` does.
fn divisible(interval: i64, v: i64) -> (r: bool)
    requires
        interval > 0,
    ensures
        r == time_divisible(interval as int, v as int),
{
    let magnitude: u64 = if v < 0 {
        ((-(v + 1)) as u64) + 1
    } else {
        v as u64
    };
    magnitude % (interval as u64) == 0
}

/// Whether `interval` divides `t as i64`.
fn timestamp_divisible(interval: i64, t: u64) -> (r: bool)
    requires
        interval > 0,
    ensures
        r == time_divisible(interval as int, as_signed(t)),
{
    let magnitude: u64 = if t <= 9223372036854775807 {
        t
    } else {
        (u64::MAX - t) + 1
    };
    magnitude % (interval as u64) == 0
}

proof fn lemma_kept_steps_push(steps: Seq<Seq<Seq<char>>>, s: Seq<Seq<char>>, interval: int)
    ensures
        kept_steps(steps.push(s), interval) == (if on_interval(s, interval) {
            kept_steps(steps, interval).push(s)
        } else {
            kept_steps(steps, interval)
        }),
{
    assert(steps.push(s).drop_last() =~= steps);
}

proof fn lemma_kept_steps_on_interval(steps: Seq<Seq<Seq<char>>>, interval: int)
    ensures
        forall|j: int|
            #![trigger kept_steps(steps, interval)[j]]
            0 <= j < kept_steps(steps, interval).len() ==> on_interval(
                kept_steps(steps, interval)[j],
                interval,
            ) && steps.contains(kept_steps(steps, interval)[j]),
        kept_steps(steps, interval).len() <= steps.len(),
    decreases steps.len(),
{
    if steps.len() > 0 {
        let before = steps.drop_last();
        lemma_kept_steps_on_interval(before, interval);
        let k = kept_steps(steps, interval);
        assert forall|j: int| 0 <= j < k.len() implies on_interval(#[trigger] k[j], interval)
            && steps.contains(k[j]) by {
            if j < kept_steps(before, interval).len() {
                let s = kept_steps(before, interval)[j];
                assert(k[j] == s);
                assert(on_interval(s, interval));
                assert(before.contains(s));
                let m = choose|m: int| 0 <= m < before.len() && before[m] == s;
                assert(before[m] == steps[m]);
                assert(steps.contains(s));
            } else {
                assert(steps[steps.len() - 1] == k[j]);
                assert(steps.contains(k[j]));
            }
        }
    }
}

/// The rows of one pair after a frame (see `advance`).
fn advance_steps(steps: Vec<Vec<String>>, row: Vec<String>, due: bool, window: i64, interval: i64) -> (r:
    Vec<Vec<String>>)
    requires
        window > 0,
        interval > 0,
        forall|j: int| 0 <= j < steps@.len() ==> #[trigger] step_readable(steps_text(steps@)[j]),
    ensures
        steps_text(r@) == advance(
            steps_text(steps@),
            row_text(row@),
            due,
            window as int,
            interval as int,
        ),
{
    let ghost all = steps_text(steps@);
    let ghost all_rows = steps@;
    let total = steps.len();
    let mut steps = steps;
    let mut kept: Vec<Vec<String>> = Vec::new();
    let mut done: usize = 0;
    while steps.len() > 0
        invariant
            all == steps_text(all_rows),
            all_rows.len() == total,
            done + steps@.len() == total,
            steps@ == all_rows.skip(done as int),
            steps_text(kept@) == kept_steps(all.take(done as int), interval as int),
            interval > 0,
            forall|j: int| 0 <= j < all_rows.len() ==> #[trigger] step_readable(all[j]),
        decreases steps@.len(),
    {
        let step = steps.remove(0);
        proof {
            assert(all_rows[done as int] == step);
            assert(all[done as int] == row_text(step@));
            assert(step_readable(all[done as int]));
            assert(all.take(done + 1) =~= all.take(done as int).push(all[done as int]));
            lemma_kept_steps_push(all.take(done as int), all[done as int], interval as int);
        }
        let keep = match parse_i64(step[0].as_str()) {
            Some(v) => divisible(interval, v),
            None => false,
        };
        if keep {
            let ghost before = kept@;
            kept.push(step);
            assert(steps_text(kept@) =~= steps_text(before).push(all[done as int]));
        }
        done = done + 1;
        assert(steps@ =~= all_rows.skip(done as int));
    }
    assert(all.take(done as int) =~= all);
    let ghost k = steps_text(kept@);
    let len = kept.len();
    if (len as u64) >= (window as u64) {
        let excess: u64 = if due {
            (len as u64) - (window as u64) + 1
        } else {
            (len as u64) - (window as u64)
        };
        let mut removed: u64 = 0;
        while removed < excess
            invariant
                removed <= excess,
                excess <= len,
                len == k.len(),
                steps_text(kept@) == k.skip(removed as int),
            decreases excess - removed,
        {
            assert(kept@.len() == steps_text(kept@).len());
            kept.remove(0);
            assert(k.skip(removed as int + 1) =~= k.skip(removed as int).drop_first());
            removed = removed + 1;
        }
    }
    if due {
        let ghost before = kept@;
        kept.push(row);
        assert(steps_text(kept@) =~= steps_text(before).push(row_text(row@)));
    }
    kept
}

/// The rows after a frame keep to the window, are all on the interval, and the
/// newest is the frame's row, last, when the frame is on the interval.
pub proof fn law_advance_window(
    steps: Seq<Seq<Seq<char>>>,
    row: Seq<Seq<char>>,
    due: bool,
    window: int,
    interval: int,
)
    requires
        window > 0,
    ensures
        advance(steps, row, due, window, interval).len() <= window,
        forall|j: int|
            #![trigger advance(steps, row, due, window, interval)[j]]
            0 <= j < advance(steps, row, due, window, interval).len() - (if due {
                1int
            } else {
                0
            }) ==> on_interval(advance(steps, row, due, window, interval)[j], interval)
                && steps.contains(advance(steps, row, due, window, interval)[j]),
        due ==> advance(steps, row, due, window, interval).last() == row,
{
    lemma_kept_steps_on_interval(steps, interval);
    let kept = kept_steps(steps, interval);
    let r = advance(steps, row, due, window, interval);
    let excess = if due { kept.len() - window + 1 } else { kept.len() - window };
    let trimmed = if kept.len() >= window { kept.skip(excess) } else { kept };
    assert forall|j: int| 0 <= j < trimmed.len() implies on_interval(#[trigger] trimmed[j], interval)
        && steps.contains(trimmed[j]) by {
        if kept.len() >= window {
            assert(trimmed[j] == kept[j + excess]);
            assert(on_interval(kept[j + excess], interval));
        } else {
            assert(on_interval(kept[j], interval));
        }
    }
    assert forall|j: int|
        0 <= j < r.len() - (if due { 1int } else { 0 }) implies on_interval(#[trigger] r[j], interval)
        && steps.contains(r[j]) by {
        assert(r[j] == trimmed[j]);
    }
}

/// Updates the rolling window of rows with a new frame, as the collector does
/// each time it takes one.
///
/// The settings in use are `parsed` where it is given (`Some`) and valid for
/// the frame, the default ones otherwise (see `choose_config`). Each pair of the
/// frame that the settings name is kept from now on; for every pair kept, the
/// rows off the interval are dropped, the oldest are dropped so that at most
/// `window` rows remain, and the frame's row is added last when `timestamp as
/// i64` is on the interval.
///
/// Every pair already kept must be quoted by the frame, and every row kept must
/// start with a time that reads as an `i64`.
pub fn queue_frames(queue: Queue, frame: &Frame, timestamp: &u64, parsed: Option<Configuration>) -> (r:
    Queue)
    requires
        forall|k: Seq<char>| #[trigger] queue@.contains_key(k) ==> frame@.contains_key(k),
        queue_readable(queue@),
    ensures
        forall|k: Seq<char>| #[trigger]
            r@.contains_key(k) <==> (queue@.contains_key(k) || (frame@.contains_key(k)
                && chosen_pairs(parsed, frame@).contains(k))),
        forall|k: Seq<char>| #[trigger]
            r@.contains_key(k) ==> r@[k] == advance(
                base_steps(queue@, k),
                row_spec(frame@[k], *timestamp),
                time_divisible(chosen_interval(parsed, frame@), as_signed(*timestamp)),
                chosen_window(parsed, frame@),
                chosen_interval(parsed, frame@),
            ),
        forall|k: Seq<char>| #[trigger]
            r@.contains_key(k) ==> r@[k].len() <= chosen_window(parsed, frame@),
        *timestamp <= i64::MAX ==> queue_readable(r@),
{
    let ghost parsed_ghost = parsed;
    let conf = choose_config(parsed, frame);
    let due = timestamp_divisible(conf.interval, *timestamp);
    let ghost pairs = pair_texts(conf.pairs@);
    // Every pair of the frame that the settings name is kept from now on.
    let keys = frame.keys();
    let mut q = queue;
    let mut i: usize = 0;
    while i < keys.len()
        invariant
            i <= keys@.len(),
            pairs == pair_texts(conf.pairs@),
            keys@.map_values(|s: String| s@) == frame.key_order(),
            forall|k: Seq<char>| #[trigger]
                frame@.contains_key(k) <==> frame.key_order().contains(k),
            forall|k: Seq<char>| #[trigger]
                q@.contains_key(k) <==> (queue@.contains_key(k) || (pairs.contains(k) && exists|j: int|
                    0 <= j < i && keys@[j]@ == k)),
            forall|k: Seq<char>| #[trigger] q@.contains_key(k) ==> q@[k] == base_steps(queue@, k),
        decreases keys@.len() - i,
    {
        let key = &keys[i];
        let mut named = false;
        let mut p: usize = 0;
        while p < conf.pairs.len()
            invariant
                p <= conf.pairs@.len(),
                pairs == pair_texts(conf.pairs@),
                named <==> exists|m: int| 0 <= m < p && pairs[m] == key@,
            decreases conf.pairs@.len() - p,
        {
            assert(pairs[p as int] == conf.pairs@[p as int]@);
            if conf.pairs[p] == *key {
                named = true;
            }
            p = p + 1;
        }
        proof {
            if pairs.contains(key@) {
                let m = choose|m: int| 0 <= m < pairs.len() && pairs[m] == key@;
                assert(pairs[m] == key@);
            }
            if named {
                let m = choose|m: int| 0 <= m < p && pairs[m] == key@;
                assert(pairs.contains(key@));
            }
        }
        if named {
            q.add_pair(key.clone());
        }
        proof {
            assert forall|k: Seq<char>| #[trigger]
                q@.contains_key(k) <==> (queue@.contains_key(k) || (pairs.contains(k) && exists|j: int|
                    0 <= j < i + 1 && keys@[j]@ == k)) by {
                if k == key@ && pairs.contains(k) {
                    assert(0 <= i < i + 1 && keys@[i as int]@ == k);
                }
                if (exists|j: int| 0 <= j < i + 1 && keys@[j]@ == k) && !(exists|j: int|
                    0 <= j < i && keys@[j]@ == k) {
                    let j = choose|j: int| 0 <= j < i + 1 && keys@[j]@ == k;
                    assert(j == i);
                }
            }
        }
        i = i + 1;
    }
    proof {
        assert forall|k: Seq<char>| #[trigger]
            q@.contains_key(k) <==> (queue@.contains_key(k) || (frame@.contains_key(k)
                && pairs.contains(k))) by {
            if frame@.contains_key(k) {
                let j = choose|j: int|
                    0 <= j < frame.key_order().len() && frame.key_order()[j] == k;
                assert(keys@.map_values(|s: String| s@)[j] == k);
            }
            if exists|j: int| 0 <= j < i && keys@[j]@ == k {
                let j = choose|j: int| 0 <= j < i && keys@[j]@ == k;
                assert(keys@.map_values(|s: String| s@)[j] == k);
                assert(frame.key_order().contains(k));
            }
        }
    }
    proof {
        assert forall|k: Seq<char>| #[trigger] q@.contains_key(k) implies frame@.contains_key(k) by {
            if queue@.contains_key(k) {
            }
        }
        assert forall|k: Seq<char>, j: int|
            q@.contains_key(k) && 0 <= j < q@[k].len() implies #[trigger] step_readable(q@[k][j]) by {
            assert(q@[k] == base_steps(queue@, k));
            if queue@.contains_key(k) {
                assert(step_readable(queue@[k][j]));
            }
        }
    }
    // Every pair kept takes the frame's row.
    let ghost qv = q@;
    let mut entries = q.into_entries();
    let ghost es = entries@;
    let ghost ks = queue_keys(es);
    let ghost vs = queue_rows(es);
    proof {
        lemma_assoc_map(ks, vs);
    }
    let total = entries.len();
    let mut out: Vec<(String, Vec<Vec<String>>)> = Vec::new();
    let mut done: usize = 0;
    while entries.len() > 0
        invariant
            es.len() == total,
            done + entries@.len() == total,
            entries@ == es.skip(done as int),
            ks == queue_keys(es),
            vs == queue_rows(es),
            ks.no_duplicates(),
            assoc_map(ks, vs) == qv,
            forall|k: Seq<char>| #[trigger] qv.contains_key(k) <==> ks.contains(k),
            forall|j: int| 0 <= j < ks.len() ==> #[trigger] qv[ks[j]] == vs[j],
            forall|k: Seq<char>| #[trigger] qv.contains_key(k) ==> frame@.contains_key(k),
            queue_readable(qv),
            queue_keys(out@) == ks.take(done as int),
            forall|j: int|
                0 <= j < done ==> #[trigger] queue_rows(out@)[j] == advance(
                    vs[j],
                    row_spec(frame@[ks[j]], *timestamp),
                    due,
                    conf.window as int,
                    conf.interval as int,
                ),
            out@.len() == done,
            conf.window > 0,
            conf.interval > 0,
        decreases entries@.len(),
    {
        let (key, steps) = entries.remove(0);
        proof {
            assert(es[done as int] == (key, steps));
            assert(ks[done as int] == key@);
            assert(vs[done as int] == steps_text(steps@));
            assert(ks.contains(key@));
            assert forall|j: int| 0 <= j < steps@.len() implies #[trigger] step_readable(
                steps_text(steps@)[j],
            ) by {
                assert(qv[ks[done as int]] == vs[done as int]);
                assert(step_readable(qv[key@][j]));
            }
        }
        assert(qv.contains_key(key@));
        assert(frame@.contains_key(key@));
        let quote = frame.quote(key.as_str());
        let row = arrange_vec(quote, timestamp);
        let new_steps = advance_steps(steps, row, due, conf.window, conf.interval);
        let ghost before = out@;
        out.push((key, new_steps));
        proof {
            assert(queue_keys(out@) =~= ks.take(done + 1));
            assert forall|j: int| 0 <= j < done + 1 implies #[trigger] queue_rows(out@)[j] == advance(
                vs[j],
                row_spec(frame@[ks[j]], *timestamp),
                due,
                conf.window as int,
                conf.interval as int,
            ) by {
                if j < done {
                    assert(queue_rows(out@)[j] == queue_rows(before)[j]);
                }
            }
        }
        done = done + 1;
        assert(entries@ =~= es.skip(done as int));
    }
    proof {
        assert(ks.take(done as int) =~= ks);
        assert(queue_keys(out@) == ks);
        lemma_assoc_map(queue_keys(out@), queue_rows(out@));
    }
    let r = Queue { entries: out };
    proof {
        let m = r@;
        assert forall|k: Seq<char>| #[trigger]
            m.contains_key(k) <==> (queue@.contains_key(k) || (frame@.contains_key(k)
                && chosen_pairs(parsed_ghost, frame@).contains(k))) by {
            assert(m.contains_key(k) <==> queue_keys(out@).contains(k));
            assert(qv.contains_key(k) <==> ks.contains(k));
        }
        assert forall|k: Seq<char>| #[trigger] m.contains_key(k) implies m[k] == advance(
            base_steps(queue@, k),
            row_spec(frame@[k], *timestamp),
            due,
            conf.window as int,
            conf.interval as int,
        ) by {
            assert(queue_keys(out@).contains(k));
            assert(ks.contains(k));
            let j = choose|j: int| 0 <= j < ks.len() && ks[j] == k;
            assert(queue_keys(out@)[j] == k);
            assert(m[queue_keys(out@)[j]] == queue_rows(out@)[j]);
            assert(qv[ks[j]] == vs[j]);
            assert(qv.contains_key(k));
            assert(qv[k] == base_steps(queue@, k));
        }
        assert forall|k: Seq<char>| #[trigger] m.contains_key(k) implies m[k].len()
            <= chosen_window(parsed_ghost, frame@) by {
            law_advance_window(
                base_steps(queue@, k),
                row_spec(frame@[k], *timestamp),
                due,
                conf.window as int,
                conf.interval as int,
            );
        }
        if *timestamp <= i64::MAX {
            law_decimal_parse_roundtrip(*timestamp as int);
            assert forall|k: Seq<char>, j: int|
                m.contains_key(k) && 0 <= j < m[k].len() implies #[trigger] step_readable(
                m[k][j],
            ) by {
                let steps = base_steps(queue@, k);
                let row = row_spec(frame@[k], *timestamp);
                law_advance_window(steps, row, due, conf.window as int, conf.interval as int);
                let a = advance(steps, row, due, conf.window as int, conf.interval as int);
                if due && j == a.len() - 1 {
                    assert(a[j] == row);
                    assert(row[0] == signed_decimal(*timestamp as int));
                } else {
                    assert(steps.contains(a[j]));
                    let n = choose|n: int| 0 <= n < steps.len() && steps[n] == a[j];
                    assert(queue_keys(out@).contains(k));
                    assert(ks.contains(k));
                    assert(qv.contains_key(k));
                    assert(qv[k] == steps);
                    assert(step_readable(qv[k][n]));
                }
            }
        }
    }
    r
}

/// The rows on the interval are exactly those that `Seq::filter` keeps.
proof fn lemma_kept_steps_filter(steps: Seq<Seq<Seq<char>>>, interval: int)
    ensures
        kept_steps(steps, interval) == steps.filter(|s: Seq<Seq<char>>| on_interval(s, interval)),
    decreases steps.len(),
{
    reveal_with_fuel(Seq::filter, 1);
    if steps.len() > 0 {
        lemma_kept_steps_filter(steps.drop_last(), interval);
    }
}

/// A frame keeps the newest rows on the interval and drops the rest: when the
/// frame is due, the rows after it are the newest `window - 1` rows on the
/// interval (all of them, if fewer) followed by the new row; otherwise they are
/// the newest `window` rows on the interval (all of them, if fewer). So a full
/// window stays full: `window` rows.
pub proof fn law_advance_keeps_newest(
    steps: Seq<Seq<Seq<char>>>,
    row: Seq<Seq<char>>,
    due: bool,
    window: int,
    interval: int,
)
    requires
        window > 0,
    ensures
        ({
            let on = steps.filter(|s: Seq<Seq<char>>| on_interval(s, interval));
            let a = advance(steps, row, due, window, interval);
            let room = if due { window - 1 } else { window };
            let keep = if on.len() < room { on.len() as int } else { room };
            &&& a.len() == keep + (if due { 1int } else { 0 })
            &&& forall|j: int| 0 <= j < keep ==> #[trigger] a[j] == on[on.len() - keep + j]
            &&& due ==> a[keep] == row
        }),
{
    lemma_kept_steps_filter(steps, interval);
    let on = steps.filter(|s: Seq<Seq<char>>| on_interval(s, interval));
    let a = advance(steps, row, due, window, interval);
    let room = if due { window - 1 } else { window };
    let keep = if on.len() < room { on.len() as int } else { room };
    let excess = if due { on.len() - window + 1 } else { on.len() - window };
    let trimmed = if on.len() >= window { on.skip(excess) } else { on };
    assert(trimmed.len() == keep);
    assert forall|j: int| 0 <= j < keep implies #[trigger] a[j] == on[on.len() - keep + j] by {
        assert(a[j] == trimmed[j]);
    }
}

} // verus!

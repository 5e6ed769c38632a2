//! A frame: the quotes of every crypto/fiat pair taken at one moment, keyed by pair.
use vstd::prelude::*;
use crate::assoc::{assoc_map, lemma_assoc_map, lemma_assoc_map_push};
use crate::record::{CryptoFiat, pair_key, pair_key_spec};

verus! {

/// The quotes of one moment, keyed by pair (such as `BTCandUSD`); each key once.
pub struct Frame {
    entries: Vec<(String, CryptoFiat)>,
}

/// The keys of a list of frame entries, in order.
pub open spec fn entry_keys(es: Seq<(String, CryptoFiat)>) -> Seq<Seq<char>> {
    es.map_values(|e: (String, CryptoFiat)| e.0@)
}

/// The quotes of a list of frame entries, in order.
pub open spec fn entry_quotes(es: Seq<(String, CryptoFiat)>) -> Seq<CryptoFiat> {
    es.map_values(|e: (String, CryptoFiat)| e.1)
}

impl Frame {
    #[verifier::type_invariant]
    spec fn keys_distinct(self) -> bool {
        entry_keys(self.entries@).no_duplicates()
    }

    /// The keys of the frame in the order in which they were added.
    pub closed spec fn key_order(&self) -> Seq<Seq<char>> {
        entry_keys(self.entries@)
    }

    /// An empty frame.
    pub fn new() -> (r: Frame)
        ensures
            r@ == Map::<Seq<char>, CryptoFiat>::empty(),
            r.key_order() == Seq::<Seq<char>>::empty(),
    {
        let r = Frame { entries: Vec::new() };
        assert(entry_keys(r.entries@) =~= Seq::<Seq<char>>::empty());
        r
    }

    /// The number of pairs in the frame.
    pub fn len(&self) -> (r: usize)
        ensures
            r == self@.dom().len(),
            r == self.key_order().len(),
    {
        proof {
            use_type_invariant(self);
            lemma_assoc_map(entry_keys(self.entries@), entry_quotes(self.entries@));
            entry_keys(self.entries@).unique_seq_to_set();
            assert(self@.dom() =~= entry_keys(self.entries@).to_set());
        }
        self.entries.len()
    }

    /// The position of `key` among the entries, if it is there.
    fn find(&self, key: &String) -> (r: Option<usize>)
        ensures
            match r {
                Some(i) => i < self.entries@.len() && self.entries@[i as int].0@ == key@,
                None => !entry_keys(self.entries@).contains(key@),
            },
    {
        let mut i: usize = 0;
        while i < self.entries.len()
            invariant
                i <= self.entries@.len(),
                forall|j: int| 0 <= j < i ==> self.entries@[j].0@ != key@,
            decreases self.entries@.len() - i,
        {
            if self.entries[i].0 == *key {
                return Some(i);
            }
            i = i + 1;
        }
        proof {
            if entry_keys(self.entries@).contains(key@) {
                let j = choose|j: int|
                    0 <= j < entry_keys(self.entries@).len() && entry_keys(self.entries@)[j]
                        == key@;
                assert(self.entries@[j].0@ == key@);
            }
        }
        None
    }

    /// The quote of pair `key`, if the frame has one.
    pub fn get(&self, key: &str) -> (r: Option<&CryptoFiat>)
        ensures
            match r {
                Some(q) => self@.contains_key(key@) && *q == self@[key@],
                None => !self@.contains_key(key@),
            },
    {
        proof {
            use_type_invariant(self);
            lemma_assoc_map(entry_keys(self.entries@), entry_quotes(self.entries@));
        }
        let k = String::from_str(key);
        match self.find(&k) {
            Some(i) => {
                assert(entry_keys(self.entries@)[i as int] == key@);
                Some(&self.entries[i].1)
            },
            None => None,
        }
    }

    /// The quote of pair `key`, which the frame must have.
    pub(crate) fn quote(&self, key: &str) -> (r: &CryptoFiat)
        requires
            self@.contains_key(key@),
        ensures
            *r == self@[key@],
    {
        proof {
            use_type_invariant(self);
            lemma_assoc_map(entry_keys(self.entries@), entry_quotes(self.entries@));
        }
        let k = String::from_str(key);
        match self.find(&k) {
            Some(i) => {
                assert(entry_keys(self.entries@)[i as int] == key@);
                &self.entries[i].1
            },
            None => {
                proof {
                    assert(false);
                }
                &self.entries[0].1
            },
        }
    }

    /// Adds `quote` under `key` unless the frame has that key already, in which
    /// case the frame is left as it is.
    pub fn insert_if_absent(&mut self, key: String, quote: CryptoFiat)
        ensures
            final(self)@ == (if old(self)@.contains_key(key@) {
                old(self)@
            } else {
                old(self)@.insert(key@, quote)
            }),
            final(self).key_order() == (if old(self)@.contains_key(key@) {
                old(self).key_order()
            } else {
                old(self).key_order().push(key@)
            }),
    {
        proof {
            use_type_invariant(&*self);
            lemma_assoc_map(entry_keys(self.entries@), entry_quotes(self.entries@));
        }
        match self.find(&key) {
            Some(i) => {
                assert(entry_keys(self.entries@)[i as int] == key@);
            },
            None => {
                let ghost old_entries = self.entries@;
                let mut entries: Vec<(String, CryptoFiat)> = Vec::new();
                std::mem::swap(&mut entries, &mut self.entries);
                let ghost kv = key@;
                let ghost qv = quote;
                entries.push((key, quote));
                proof {
                    assert(entry_keys(entries@) =~= entry_keys(old_entries).push(kv));
                    assert(entry_quotes(entries@) =~= entry_quotes(old_entries).push(qv));
                    lemma_assoc_map_push(entry_keys(old_entries), entry_quotes(old_entries), kv, qv);
                    assert forall|a: int, b: int|
                        0 <= a < entry_keys(entries@).len() && 0 <= b < entry_keys(
                            entries@,
                        ).len() && a != b implies entry_keys(entries@)[a] != entry_keys(
                        entries@,
                    )[b] by {
                        if a == entry_keys(entries@).len() - 1 {
                            assert(entry_keys(old_entries)[b] == entry_keys(entries@)[b]);
                            assert(entry_keys(old_entries).contains(entry_keys(old_entries)[b]));
                        } else if b == entry_keys(entries@).len() - 1 {
                            assert(entry_keys(old_entries)[a] == entry_keys(entries@)[a]);
                            assert(entry_keys(old_entries).contains(entry_keys(old_entries)[a]));
                        } else {
                            assert(entry_keys(old_entries)[a] == entry_keys(entries@)[a]);
                            assert(entry_keys(old_entries)[b] == entry_keys(entries@)[b]);
                        }
                    }
                }
                self.entries = entries;
            },
        }
    }

    /// The keys of the frame, in the order in which they were added.
    pub fn keys(&self) -> (r: Vec<String>)
        ensures
            r@.map_values(|s: String| s@) == self.key_order(),
            self.key_order().no_duplicates(),
            forall|k: Seq<char>| #[trigger] self@.contains_key(k) <==> self.key_order().contains(k),
    {
        proof {
            use_type_invariant(self);
            lemma_assoc_map(entry_keys(self.entries@), entry_quotes(self.entries@));
        }
        let mut r: Vec<String> = Vec::new();
        let mut i: usize = 0;
        while i < self.entries.len()
            invariant
                i <= self.entries@.len(),
                r@.map_values(|s: String| s@) =~= entry_keys(self.entries@).take(i as int),
            decreases self.entries@.len() - i,
        {
            r.push(self.entries[i].0.clone());
            assert(entry_keys(self.entries@).take(i + 1) =~= entry_keys(self.entries@).take(
                i as int,
            ).push(self.entries@[i as int].0@));
            i = i + 1;
        }
        assert(entry_keys(self.entries@).take(i as int) =~= entry_keys(self.entries@));
        r
    }
}

impl View for Frame {
    type V = Map<Seq<char>, CryptoFiat>;

    /// The quote of each pair of the frame.
    closed spec fn view(&self) -> Map<Seq<char>, CryptoFiat> {
        assoc_map(entry_keys(self.entries@), entry_quotes(self.entries@))
    }
}

/// Whether the collector fetches at `timestamp` (seconds since the epoch):
/// quotes are requested on the round half-minute only.
pub fn fetch_due(timestamp: u64) -> (r: bool)
    ensures
        r == (timestamp % 30 == 0),
{
    timestamp % 30 == 0
}

/// The frame key of a reported quote `(crypto symbol, fiat symbol, quote)`.
pub open spec fn block_key(b: (String, String, CryptoFiat)) -> Seq<char> {
    pair_key_spec(b.0@, b.1@)
}

/// The frame that a list of reported quotes makes, taken in the order in which
/// the source reported them: each quote under the key of its pair, and where a
/// key comes twice, the first quote for it.
pub open spec fn frame_of(blocks: Seq<(String, String, CryptoFiat)>) -> Map<Seq<char>, CryptoFiat>
    decreases blocks.len(),
{
    if blocks.len() == 0 {
        Map::empty()
    } else {
        let before = frame_of(blocks.drop_last());
        let k = block_key(blocks.last());
        if before.contains_key(k) {
            before
        } else {
            before.insert(k, blocks.last().2)
        }
    }
}

/// Makes the frame of the quotes that the source reported: quote `(crypto,
/// fiat, q)` goes under `<crypto>and<fiat>`, and the first quote of a key wins.
pub fn build_frame(blocks: Vec<(String, String, CryptoFiat)>) -> (r: Frame)
    ensures
        r@ == frame_of(blocks@),
{
    let ghost all = blocks@;
    let mut blocks = blocks;
    let mut frame = Frame::new();
    let mut done: usize = 0;
    let total = blocks.len();
    while blocks.len() > 0
        invariant
            all.len() == total,
            done + blocks@.len() == all.len(),
            blocks@ == all.skip(done as int),
            frame@ == frame_of(all.take(done as int)),
        decreases blocks@.len(),
    {
        let (crypto, fiat, quote) = blocks.remove(0);
        proof {
            assert(all.take(done + 1).drop_last() =~= all.take(done as int));
            assert(all[done as int] == (crypto, fiat, quote));
        }
        let key = pair_key(crypto.as_str(), fiat.as_str());
        frame.insert_if_absent(key, quote);
        done = done + 1;
        assert(blocks@ =~= all.skip(done as int));
    }
    assert(all.take(done as int) =~= all);
    frame
}

/// Every reported pair is in the frame, and under each key stands the quote
/// that was reported first for that key.
pub proof fn law_frame_first_quote_wins(blocks: Seq<(String, String, CryptoFiat)>, i: int)
    requires
        0 <= i < blocks.len(),
    ensures
        frame_of(blocks).contains_key(block_key(blocks[i])),
        (forall|j: int| 0 <= j < i ==> block_key(#[trigger] blocks[j]) != block_key(blocks[i]))
            ==> frame_of(blocks)[block_key(blocks[i])] == blocks[i].2,
    decreases blocks.len(),
{
    let last = blocks.len() - 1;
    let k = block_key(blocks[i]);
    if i < last {
        let before = blocks.drop_last();
        assert(before[i] == blocks[i]);
        law_frame_first_quote_wins(before, i);
        if forall|j: int| 0 <= j < i ==> block_key(#[trigger] blocks[j]) != k {
            assert forall|j: int| 0 <= j < i implies block_key(#[trigger] before[j]) != k by {
                assert(before[j] == blocks[j]);
            }
        }
    } else {
        let before = blocks.drop_last();
        if frame_of(before).contains_key(k) {
            lemma_frame_of_keys(before, k);
            let j = choose|j: int| 0 <= j < before.len() && block_key(before[j]) == k;
            assert(before[j] == blocks[j]);
        }
    }
}

proof fn lemma_frame_of_keys(blocks: Seq<(String, String, CryptoFiat)>, k: Seq<char>)
    requires
        frame_of(blocks).contains_key(k),
    ensures
        exists|j: int| 0 <= j < blocks.len() && block_key(blocks[j]) == k,
    decreases blocks.len(),
{
    let before = blocks.drop_last();
    if frame_of(before).contains_key(k) {
        lemma_frame_of_keys(before, k);
        let j = choose|j: int| 0 <= j < before.len() && block_key(before[j]) == k;
        assert(before[j] == blocks[j]);
    } else {
        assert(block_key(blocks[blocks.len() - 1]) == k);
    }
}

} // verus!

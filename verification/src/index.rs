use vstd::prelude::*;
use vstd::utf8::encode_utf8;

use crate::text::texts;

verus! {

/// The hash of a list of bytes.
pub open spec fn hash_bytes(bytes: Seq<u8>) -> nat
    decreases bytes.len(),
{
    if bytes.len() == 0 {
        7
    } else {
        (hash_bytes(bytes.drop_last()) * 257 + bytes.last() as nat) % 1_000_000_007
    }
}

/// The hash of a text: that of its bytes in UTF-8.
pub open spec fn text_hash(s: Seq<char>) -> nat {
    hash_bytes(encode_utf8(s))
}

/// The places of `key` among `keys`, in rising order.
pub open spec fn positions_of(keys: Seq<Seq<char>>, key: Seq<char>) -> Seq<usize>
    decreases keys.len(),
{
    if keys.len() == 0 {
        Seq::empty()
    } else if keys.last() == key {
        positions_of(keys.drop_last(), key).push((keys.len() - 1) as usize)
    } else {
        positions_of(keys.drop_last(), key)
    }
}

/// The places among `keys` of the keys whose hash falls into `slot` of
/// `slots`, in rising order.
pub open spec fn slot_positions(keys: Seq<Seq<char>>, slots: nat, slot: nat) -> Seq<usize>
    decreases keys.len(),
{
    if keys.len() == 0 {
        Seq::empty()
    } else if text_hash(keys.last()) % slots == slot {
        slot_positions(keys.drop_last(), slots, slot).push((keys.len() - 1) as usize)
    } else {
        slot_positions(keys.drop_last(), slots, slot)
    }
}

/// The members of `places` at which `keys` has `key`, in their order.
pub open spec fn matching(keys: Seq<Seq<char>>, places: Seq<usize>, key: Seq<char>) -> Seq<usize>
    decreases places.len(),
{
    if places.len() == 0 {
        Seq::empty()
    } else if places.last() < keys.len() && keys[places.last() as int] == key {
        matching(keys, places.drop_last(), key).push(places.last())
    } else {
        matching(keys, places.drop_last(), key)
    }
}

/// The places in a slot are places of `keys`.
pub proof fn lemma_slot_positions(keys: Seq<Seq<char>>, slots: nat, slot: nat)
    requires
        keys.len() <= usize::MAX,
    ensures
        forall|i: int|
            0 <= i < slot_positions(keys, slots, slot).len() ==> (#[trigger] slot_positions(
                keys,
                slots,
                slot,
            )[i]) < keys.len(),
    decreases keys.len(),
{
    if keys.len() > 0 {
        let rest = keys.drop_last();
        lemma_slot_positions(rest, slots, slot);
        let places = slot_positions(keys, slots, slot);
        let before = slot_positions(rest, slots, slot);
        assert forall|i: int| 0 <= i < places.len() implies (#[trigger] places[i]) < keys.len() by {
            if i < before.len() {
                assert(places[i] == before[i]);
            }
        }
    }
}

/// Among the places in the slot of `key`, those at which `keys` has `key` are
/// the places of `key`.
pub proof fn lemma_matching_slot(keys: Seq<Seq<char>>, slots: nat, key: Seq<char>, n: int)
    requires
        0 <= n <= keys.len() <= usize::MAX,
        slots > 0,
    ensures
        matching(keys, slot_positions(keys.take(n), slots, text_hash(key) % slots), key)
            == positions_of(keys.take(n), key),
    decreases n,
{
    let slot = text_hash(key) % slots;
    if n > 0 {
        lemma_matching_slot(keys, slots, key, n - 1);
        let prefix = keys.take(n);
        assert(prefix.drop_last() =~= keys.take(n - 1));
        assert(prefix.last() == keys[n - 1]);
        let before = slot_positions(keys.take(n - 1), slots, slot);
        if text_hash(keys[n - 1]) % slots == slot {
            let places = before.push((n - 1) as usize);
            assert(places.drop_last() =~= before);
            assert(places.last() == (n - 1) as usize);
        }
    }
}

/// The places of `key` are the places at which `keys` has `key`, each once, in
/// rising order.
pub proof fn lemma_positions(keys: Seq<Seq<char>>, key: Seq<char>)
    requires
        keys.len() <= usize::MAX,
    ensures
        forall|i: int|
            0 <= i < positions_of(keys, key).len() ==> (#[trigger] positions_of(keys, key)[i])
                < keys.len() && keys[positions_of(keys, key)[i] as int] == key,
        forall|p: int|
            0 <= p < keys.len() && keys[p] == key ==> #[trigger] positions_of(keys, key).contains(
                p as usize,
            ),
        forall|i: int, j: int|
            0 <= i < j < positions_of(keys, key).len() ==> (#[trigger] positions_of(keys, key)[i])
                < (#[trigger] positions_of(keys, key)[j]),
    decreases keys.len(),
{
    if keys.len() > 0 {
        let rest = keys.drop_last();
        lemma_positions(rest, key);
        let found = positions_of(keys, key);
        let before = positions_of(rest, key);
        assert forall|p: int| 0 <= p < keys.len() && keys[p] == key implies #[trigger] found.contains(
            p as usize,
        ) by {
            if p < keys.len() - 1 {
                assert(rest[p] == key);
                assert(before.contains(p as usize));
                let i = choose|i: int| 0 <= i < before.len() && before[i] == p as usize;
                assert(found[i] == p as usize);
            } else {
                assert(found[found.len() - 1] == p as usize);
            }
        }
        assert forall|i: int| 0 <= i < found.len() implies (#[trigger] found[i]) < keys.len()
            && keys[found[i] as int] == key by {
            if i < before.len() {
                assert(found[i] == before[i]);
                assert(rest[before[i] as int] == key);
            }
        }
        assert forall|i: int, j: int| 0 <= i < j < found.len() implies (#[trigger] found[i]) < (
        #[trigger] found[j]) by {
            assert(found[i] == before[i]);
            if j < before.len() {
                assert(found[j] == before[j]);
            }
        }
    }
}

/// Computes the hash of a text.
fn hash_text(s: &String) -> (h: u64)
    ensures
        h == text_hash(s@),
{
    let bytes = s.as_str().as_bytes();
    let mut h: u64 = 7;
    let mut i: usize = 0;
    assert(bytes@.take(0) =~= Seq::<u8>::empty());
    while i < bytes.len()
        invariant
            i <= bytes.len(),
            h < 1_000_000_007,
            h == hash_bytes(bytes@.take(i as int)),
        decreases bytes.len() - i,
    {
        proof {
            assert(bytes@.take(i + 1).drop_last() =~= bytes@.take(i as int));
            assert(bytes@.take(i + 1).last() == bytes@[i as int]);
        }
        h = (h * 257 + bytes[i] as u64) % 1_000_000_007;
        i = i + 1;
    }
    assert(bytes@.take(bytes.len() as int) =~= bytes@);
    h
}

/// A list of keys with a table of hashes, which finds the places of a key
/// among them without going through the list.
pub struct TextIndex {
    keys: Vec<String>,
    buckets: Vec<Vec<usize>>,
}

impl View for TextIndex {
    type V = Seq<Seq<char>>;

    /// The keys of the index, in the order in which they came.
    closed spec fn view(&self) -> Seq<Seq<char>> {
        texts(self.keys@)
    }
}

impl TextIndex {
    /// Whether the table of the index is in order: each of its slots holds
    /// the places of the keys whose hash falls into it.
    pub closed spec fn wf(&self) -> bool {
        &&& self.buckets@.len() > 0
        &&& forall|b: int|
            0 <= b < self.buckets@.len() ==> (#[trigger] self.buckets@[b])@ == slot_positions(
                texts(self.keys@),
                self.buckets@.len() as nat,
                b as nat,
            )
    }

    /// An index without keys, with a table for about `slots` keys.
    pub fn new(slots: usize) -> (r: TextIndex)
        ensures
            r.wf(),
            r@ == Seq::<Seq<char>>::empty(),
    {
        let mut buckets: Vec<Vec<usize>> = Vec::new();
        buckets.push(Vec::new());
        let mut i: usize = 1;
        while i < slots
            invariant
                buckets@.len() > 0,
                forall|b: int| 0 <= b < buckets@.len() ==> (#[trigger] buckets@[b])@.len() == 0,
            decreases slots - i,
        {
            buckets.push(Vec::new());
            i = i + 1;
        }
        let r = TextIndex { keys: Vec::new(), buckets };
        assert(texts(r.keys@) =~= Seq::<Seq<char>>::empty());
        assert forall|b: int| 0 <= b < r.buckets@.len() implies (#[trigger] r.buckets@[b])@
            == slot_positions(texts(r.keys@), r.buckets@.len() as nat, b as nat) by {
            assert(r.buckets@[b]@ =~= Seq::<usize>::empty());
        }
        r
    }

    /// The number of keys.
    pub fn len(&self) -> (n: usize)
        ensures
            n == self@.len(),
    {
        self.keys.len()
    }

    /// Puts `key` behind the keys of the index.
    pub fn insert(&mut self, key: &String)
        requires
            old(self).wf(),
        ensures
            final(self).wf(),
            final(self)@ == old(self)@.push(key@),
    {
        let ghost before = texts(self.keys@);
        let slots = self.buckets.len();
        let slot = (hash_text(key) % (slots as u64)) as usize;
        let place = self.keys.len();
        self.keys.push(key.clone());
        self.buckets[slot].push(place);
        proof {
            let after = texts(self.keys@);
            assert(after =~= before.push(key@));
            assert(after.drop_last() =~= before);
            assert(after.last() == key@);
            assert forall|b: int| 0 <= b < self.buckets@.len() implies (
            #[trigger] self.buckets@[b])@ == slot_positions(after, slots as nat, b as nat) by {}
        }
    }

    /// Finds the places of `key` among the keys, in rising order.
    pub fn positions(&self, key: &String) -> (r: Vec<usize>)
        requires
            self.wf(),
        ensures
            r@ == positions_of(self@, key@),
            self@.len() <= usize::MAX,
    {
        let ghost keys = texts(self.keys@);
        let slots = self.buckets.len();
        let slot = (hash_text(key) % (slots as u64)) as usize;
        let bucket = &self.buckets[slot];
        proof {
            assert(keys.len() == self.keys.len());
            lemma_slot_positions(keys, slots as nat, slot as nat);
            lemma_matching_slot(keys, slots as nat, key@, keys.len() as int);
            assert(keys.take(keys.len() as int) =~= keys);
        }
        let mut found: Vec<usize> = Vec::new();
        let mut i: usize = 0;
        assert(bucket@.take(0) =~= Seq::<usize>::empty());
        while i < bucket.len()
            invariant
                i <= bucket.len(),
                keys == texts(self.keys@),
                forall|j: int| 0 <= j < bucket.len() ==> bucket@[j] < keys.len(),
                found@ == matching(keys, bucket@.take(i as int), key@),
            decreases bucket.len() - i,
        {
            proof {
                assert(bucket@.take(i + 1).drop_last() =~= bucket@.take(i as int));
                assert(bucket@.take(i + 1).last() == bucket@[i as int]);
            }
            let place = bucket[i];
            if self.keys[place] == *key {
                found.push(place);
            }
            i = i + 1;
        }
        assert(bucket@.take(bucket.len() as int) =~= bucket@);
        found
    }

    /// Whether `key` is among the keys.
    pub fn contains(&self, key: &String) -> (b: bool)
        requires
            self.wf(),
        ensures
            b == self@.contains(key@),
    {
        let found = self.positions(key);
        proof {
            lemma_positions(self@, key@);
            if found.len() > 0 {
                assert(self@[found@[0] as int] == key@);
            }
            if self@.contains(key@) {
                let p = choose|p: int| 0 <= p < self@.len() && self@[p] == key@;
                assert(found@.contains(p as usize));
            }
        }
        found.len() > 0
    }

    /// Finds the last place of `key` among the keys.
    pub fn last(&self, key: &String) -> (r: Option<usize>)
        requires
            self.wf(),
        ensures
            match r {
                Some(p) => p < self@.len() && self@[p as int] == key@ && forall|q: int|
                    p < q < self@.len() ==> self@[q] != key@,
                None => !self@.contains(key@),
            },
    {
        let found = self.positions(key);
        proof {
            lemma_positions(self@, key@);
        }
        if found.len() == 0 {
            proof {
                if self@.contains(key@) {
                    let p = choose|p: int| 0 <= p < self@.len() && self@[p] == key@;
                    assert(found@.contains(p as usize));
                }
            }
            None
        } else {
            let p = found[found.len() - 1];
            proof {
                assert forall|q: int| p < q < self@.len() implies self@[q] != key@ by {
                    if self@[q] == key@ {
                        assert(found@.contains(q as usize));
                        let i = choose|i: int| 0 <= i < found@.len() && found@[i] == q as usize;
                        if i < found@.len() - 1 {
                            assert(found@[i] < found@[found@.len() - 1]);
                        }
                    }
                }
            }
            Some(p)
        }
    }
}

} // verus!

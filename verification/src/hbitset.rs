//! A dense set of keys, kept as a bitset on two levels.
//!
//! The bottom level holds one bit for each key. The top level holds one bit for
//! each 64-bit word of the bottom level, set exactly when that word is not
//! zero, so that a walk over the set skips empty regions 4096 keys at a time.

use vstd::prelude::*;
use vstd::std_specs::bits::{axiom_u64_trailing_zeros, u64_trailing_zeros};

verus! {

/// Number of keys that the set ranges over: a key is below this bound.
pub const SIZE: usize = 0x4000_0000;

/// Number of 64-bit words of the bottom level.
pub const L0_WORDS: usize = 0x100_0000;

/// Number of 64-bit words of the top level.
pub const L1_WORDS: usize = 0x4_0000;

/// Whether bit number `bit` of `word` is set.
pub open spec fn bit_is_set(word: u64, bit: u64) -> bool {
    (word >> bit) & 1 == 1
}

/// Whether the bottom level `l0` holds `key`.
pub open spec fn holds(l0: Seq<u64>, key: usize) -> bool {
    bit_is_set(l0[(key / 64) as int], (key % 64) as u64)
}

/// Whether each word of `l0` is marked in `l1` exactly when it is not zero.
pub open spec fn levels_agree(l0: Seq<u64>, l1: Seq<u64>) -> bool {
    forall|w: int|
        0 <= w < l0.len() ==> ((#[trigger] l0[w] != 0) <==> bit_is_set(
            l1[w / 64],
            (w % 64) as u64,
        ))
}

/// Whether every element of `s` is smaller than all that follow it.
pub open spec fn strictly_increasing(s: Seq<usize>) -> bool {
    forall|i: int, j: int| 0 <= i < j < s.len() ==> s[i] < s[j]
}

proof fn lemma_bit_after_or(word: u64, bit: u64, other: u64)
    by (bit_vector)
    requires
        bit < 64,
        other < 64,
    ensures
        bit_is_set(word | (1u64 << bit), other) == (bit_is_set(word, other) || other == bit),
        word | (1u64 << bit) != 0,
{
}

proof fn lemma_zero_has_no_bit(bit: u64)
    by (bit_vector)
    requires
        bit < 64,
    ensures
        !bit_is_set(0, bit),
{
}

proof fn lemma_push_contains(s: Seq<usize>, x: usize, k: usize)
    ensures
        s.push(x).contains(k) <==> (s.contains(k) || k == x),
{
    if s.contains(k) {
        let i = choose|i: int| 0 <= i < s.len() && s[i] == k;
        assert(s.push(x)[i] == k);
    }
    if k == x {
        assert(s.push(x)[s.len() as int] == k);
    }
}

/// The keys of `s` that are below `bound`, smallest first.
pub open spec fn keys_below(s: Set<usize>, bound: nat) -> Seq<usize>
    decreases bound,
{
    if bound == 0 {
        Seq::empty()
    } else {
        let rest = keys_below(s, (bound - 1) as nat);
        if s.contains((bound - 1) as usize) {
            rest.push((bound - 1) as usize)
        } else {
            rest
        }
    }
}

/// The set that `start` becomes when each of `keys` is added to it in turn.
pub open spec fn insert_all(start: Set<usize>, keys: Seq<usize>) -> Set<usize>
    decreases keys.len(),
{
    if keys.len() == 0 {
        start
    } else {
        insert_all(start, keys.drop_last()).insert(keys.last())
    }
}

/// `keys_below(s, bound)` is strictly increasing and holds exactly the keys of
/// `s` that are below `bound`.
pub proof fn lemma_keys_below(s: Set<usize>, bound: nat)
    requires
        bound <= usize::MAX + 1,
    ensures
        strictly_increasing(keys_below(s, bound)),
        keys_below(s, bound).no_duplicates(),
        forall|i: int| 0 <= i < keys_below(s, bound).len() ==> keys_below(s, bound)[i] < bound,
        forall|k: usize| #[trigger]
            keys_below(s, bound).contains(k) <==> (k < bound && s.contains(k)),
    decreases bound,
{
    if bound > 0 {
        let rest = keys_below(s, (bound - 1) as nat);
        lemma_keys_below(s, (bound - 1) as nat);
        let top = (bound - 1) as usize;
        assert forall|k: usize| #[trigger]
            keys_below(s, bound).contains(k) <==> (k < bound && s.contains(k)) by {
            lemma_push_contains(rest, top, k);
            assert(rest.contains(k) <==> (k < bound - 1 && s.contains(k)));
        }
    }
}

/// A strictly increasing sequence that holds exactly the keys of `s` below
/// `bound` is `keys_below(s, bound)`.
pub proof fn lemma_keys_below_unique(s: Set<usize>, bound: nat, keys: Seq<usize>)
    requires
        bound <= usize::MAX + 1,
        strictly_increasing(keys),
        forall|k: usize| #[trigger] keys.contains(k) <==> (k < bound && s.contains(k)),
    ensures
        keys == keys_below(s, bound),
    decreases bound,
{
    if bound == 0 {
        if keys.len() > 0 {
            assert(keys.contains(keys[0]));
        }
        assert(keys =~= Seq::<usize>::empty());
    } else {
        let top = (bound - 1) as usize;
        if s.contains(top) {
            assert(keys.contains(top));
            let i = choose|i: int| 0 <= i < keys.len() && keys[i] == top;
            let last = keys.len() - 1;
            assert(keys.contains(keys[last]));
            assert(i == last);
            let front = keys.drop_last();
            assert forall|k: usize| #[trigger]
                front.contains(k) <==> (k < bound - 1 && s.contains(k)) by {
                if front.contains(k) {
                    let j = choose|j: int| 0 <= j < front.len() && front[j] == k;
                    assert(keys[j] == k);
                    assert(keys.contains(k));
                    assert(keys[j] < keys[last]);
                }
                if k < bound - 1 && s.contains(k) {
                    assert(keys.contains(k));
                    let j = choose|j: int| 0 <= j < keys.len() && keys[j] == k;
                    assert(front[j] == k);
                }
            }
            lemma_keys_below_unique(s, (bound - 1) as nat, front);
            assert(keys =~= front.push(top));
        } else {
            lemma_keys_below_unique(s, (bound - 1) as nat, keys);
        }
    }
}

/// Adding each of `keys` to the empty set gives the set of the keys.
pub proof fn lemma_insert_all(keys: Seq<usize>)
    ensures
        insert_all(Set::empty(), keys) == keys.to_set(),
    decreases keys.len(),
{
    if keys.len() == 0 {
        assert(keys.to_set() =~= Set::<usize>::empty());
    } else {
        let front = keys.drop_last();
        lemma_insert_all(front);
        assert forall|k: usize| #[trigger]
            keys.to_set().contains(k) <==> front.to_set().insert(keys.last()).contains(k) by {
            assert(keys =~= front.push(keys.last()));
            lemma_push_contains(front, keys.last(), k);
        }
        assert(keys.to_set() =~= front.to_set().insert(keys.last()));
    }
}

/// A set filled key by key and then drained gives each of its keys back once:
/// when every one of `keys` is below [`SIZE`] and each is added to an empty
/// set, in any order and any number of times, the keys that the set then hands
/// out hold each of them exactly once and nothing else.
pub proof fn lemma_set_then_drain_round_trip(keys: Seq<usize>)
    requires
        forall|i: int| 0 <= i < keys.len() ==> keys[i] < SIZE,
    ensures
        keys_below(insert_all(Set::empty(), keys), SIZE as nat).no_duplicates(),
        keys_below(insert_all(Set::empty(), keys), SIZE as nat).to_set() == keys.to_set(),
        forall|k: usize|
            keys_below(insert_all(Set::empty(), keys), SIZE as nat).to_multiset().count(k) == (
            if keys.contains(k) {
                1nat
            } else {
                0nat
            }),
{
    let s = insert_all(Set::empty(), keys);
    let drained = keys_below(s, SIZE as nat);
    lemma_insert_all(keys);
    lemma_keys_below(s, SIZE as nat);
    assert forall|k: usize| #[trigger] drained.contains(k) <==> keys.contains(k) by {
        if keys.contains(k) {
            let i = choose|i: int| 0 <= i < keys.len() && keys[i] == k;
            assert(k < SIZE);
        }
    }
    assert(drained.to_set() =~= keys.to_set());
    drained.to_multiset_ensures();
    drained.lemma_multiset_has_no_duplicates();
    assert forall|k: usize|
        drained.to_multiset().count(k) == (if keys.contains(k) {
            1nat
        } else {
            0nat
        }) by {
        if keys.contains(k) {
            assert(drained.contains(k));
            assert(drained.to_multiset().contains(k));
        }
    }
}

/// What a walk over the bottom level has reached when its first `done` words
/// are dealt with: those words are cleared, the others are as in `before`, and
/// `keys` lists, in increasing order, the keys that `before` held in them.
spec fn drained_to(before: Seq<u64>, l0: Seq<u64>, keys: Seq<usize>, done: int) -> bool {
    &&& l0.len() == L0_WORDS
    &&& before.len() == L0_WORDS
    &&& 0 <= done <= L0_WORDS
    &&& forall|w: int| 0 <= w < done ==> #[trigger] l0[w] == 0
    &&& forall|w: int| done <= w < L0_WORDS ==> #[trigger] l0[w] == before[w]
    &&& strictly_increasing(keys)
    &&& forall|i: int| 0 <= i < keys.len() ==> #[trigger] keys[i] < done * 64
    &&& forall|k: usize| #[trigger] keys.contains(k) <==> (k < done * 64 && holds(before, k))
}

/// A set of keys below [`SIZE`].
pub struct HBitSet {
    l0: Vec<u64>,
    l1: Vec<u64>,
}

impl View for HBitSet {
    type V = Set<usize>;

    closed spec fn view(&self) -> Set<usize> {
        Set::new(|key: usize| key < SIZE && holds(self.l0@, key))
    }
}

impl HBitSet {
    /// The two levels have their sizes and agree with each other.
    pub closed spec fn wf(&self) -> bool {
        &&& self.l0@.len() == L0_WORDS
        &&& self.l1@.len() == L1_WORDS
        &&& levels_agree(self.l0@, self.l1@)
    }

    /// The empty set.
    pub fn new() -> (set: HBitSet)
        ensures
            set.wf(),
            set@ == Set::<usize>::empty(),
    {
        let set = HBitSet { l0: vec![0u64; L0_WORDS], l1: vec![0u64; L1_WORDS] };
        proof {
            assert forall|w: int| 0 <= w < set.l0@.len() implies ((#[trigger] set.l0@[w] != 0)
                <==> bit_is_set(set.l1@[w / 64], (w % 64) as u64)) by {
                lemma_zero_has_no_bit((w % 64) as u64);
            }
            assert forall|key: usize| !set@.contains(key) by {
                lemma_zero_has_no_bit((key % 64) as u64);
            }
            assert(set@ =~= Set::<usize>::empty());
        }
        set
    }

    /// Adds `key` to the set. Adding a key that is in the set changes nothing.
    pub fn set(&mut self, key: usize)
        requires
            old(self).wf(),
            key < SIZE,
        ensures
            final(self).wf(),
            final(self)@ == old(self)@.insert(key),
    {
        let w: usize = key / 64;
        let b: u64 = (key % 64) as u64;
        let t: usize = w / 64;
        let tb: u64 = (w % 64) as u64;
        let word: u64 = self.l0[w] | (1u64 << b);
        let top: u64 = self.l1[t] | (1u64 << tb);
        self.l0[w] = word;
        self.l1[t] = top;
        proof {
            let old_l0 = old(self).l0@;
            let old_l1 = old(self).l1@;
            assert forall|k: usize| #[trigger]
                self@.contains(k) <==> old(self)@.insert(key).contains(k) by {
                if k < SIZE && k / 64 == w {
                    lemma_bit_after_or(old_l0[w as int], b, (k % 64) as u64);
                }
            }
            assert(self@ =~= old(self)@.insert(key));
            assert forall|x: int| 0 <= x < self.l0@.len() implies ((#[trigger] self.l0@[x] != 0)
                <==> bit_is_set(self.l1@[x / 64], (x % 64) as u64)) by {
                if x / 64 == t {
                    lemma_bit_after_or(old_l1[t as int], tb, (x % 64) as u64);
                }
                if x == w {
                    lemma_bit_after_or(old_l0[w as int], b, b);
                } else {
                    assert(self.l0@[x] == old_l0[x]);
                }
            }
        }
    }

    /// Whether the set holds no key, found by a look at the top level alone.
    pub fn is_empty(&self) -> (empty: bool)
        requires
            self.wf(),
        ensures
            empty <==> self@ == Set::<usize>::empty(),
    {
        let mut t: usize = 0;
        while t < L1_WORDS
            invariant
                t <= L1_WORDS,
                self.wf(),
                forall|i: int| 0 <= i < t ==> self.l1@[i] == 0,
            decreases L1_WORDS - t,
        {
            if self.l1[t] != 0 {
                proof {
                    let top = self.l1@[t as int];
                    axiom_u64_trailing_zeros(top);
                    let j = u64_trailing_zeros(top) as int;
                    let w = t * 64 + j;
                    assert(w / 64 == t && w % 64 == j);
                    let word = self.l0@[w];
                    assert(word != 0);
                    axiom_u64_trailing_zeros(word);
                    let b = u64_trailing_zeros(word) as int;
                    let key = (w * 64 + b) as usize;
                    assert(key / 64 == w && key % 64 == b);
                    assert(holds(self.l0@, key));
                    assert(self@.contains(key));
                }
                return false;
            }
            t += 1;
        }
        proof {
            assert forall|key: usize| !self@.contains(key) by {
                if key < SIZE {
                    let w = (key / 64) as int;
                    lemma_zero_has_no_bit((w % 64) as u64);
                    assert(self.l1@[w / 64] == 0);
                    assert(self.l0@[w] == 0);
                    lemma_zero_has_no_bit((key % 64) as u64);
                }
            }
            assert(self@ =~= Set::<usize>::empty());
        }
        true
    }

    /// Appends to `keys` the keys that the word `word` holds when its lowest
    /// bit stands for the key `base`, smallest first.
    fn drain_word(word: u64, base: usize, keys: &mut Vec<usize>)
        requires
            base <= SIZE - 64,
            strictly_increasing(old(keys)@),
            forall|i: int| 0 <= i < old(keys)@.len() ==> old(keys)@[i] < base,
        ensures
            strictly_increasing(final(keys)@),
            forall|i: int| 0 <= i < final(keys)@.len() ==> final(keys)@[i] < base + 64,
            forall|k: usize| #[trigger]
                final(keys)@.contains(k) <==> (old(keys)@.contains(k) || (base <= k < base + 64
                    && bit_is_set(word, (k - base) as u64))),
    {
        let ghost before = keys@;
        let mut b: u64 = 0;
        while b < 64
            invariant
                b <= 64,
                base <= SIZE - 64,
                strictly_increasing(keys@),
                forall|i: int| 0 <= i < keys@.len() ==> keys@[i] < base + b,
                forall|k: usize| #[trigger]
                    keys@.contains(k) <==> (before.contains(k) || (base <= k < base + b
                        && bit_is_set(word, (k - base) as u64))),
            decreases 64 - b,
        {
            if (word >> b) & 1 == 1 {
                let key: usize = base + (b as usize);
                let ghost prev = keys@;
                keys.push(key);
                proof {
                    assert(keys@ == prev.push(key));
                    assert forall|k: usize| #[trigger]
                        keys@.contains(k) <==> (before.contains(k) || (base <= k < base + b + 1
                            && bit_is_set(word, (k - base) as u64))) by {
                        lemma_push_contains(prev, key, k);
                        assert(prev.contains(k) <==> (before.contains(k) || (base <= k < base + b
                            && bit_is_set(word, (k - base) as u64))));
                    }
                }
            } else {
                proof {
                    assert forall|k: usize| #[trigger]
                        keys@.contains(k) <==> (before.contains(k) || (base <= k < base + b + 1
                            && bit_is_set(word, (k - base) as u64))) by {
                        if k == base + b {
                            assert((k - base) as u64 == b);
                        }
                    }
                }
            }
            b += 1;
        }
    }

    /// Empties the set and returns the keys that it held, each once, smallest
    /// first.
    pub fn drain(&mut self) -> (keys: Vec<usize>)
        requires
            old(self).wf(),
        ensures
            final(self).wf(),
            final(self)@ == Set::<usize>::empty(),
            keys@ == keys_below(old(self)@, SIZE as nat),
    {
        let mut keys: Vec<usize> = Vec::new();
        let ghost before = self.l0@;
        let ghost before_top = self.l1@;
        let mut t: usize = 0;
        while t < L1_WORDS
            invariant
                t <= L1_WORDS,
                self.l1@.len() == L1_WORDS,
                before_top.len() == L1_WORDS,
                levels_agree(before, before_top),
                drained_to(before, self.l0@, keys@, t * 64),
                forall|i: int| 0 <= i < t ==> self.l1@[i] == 0,
                forall|i: int| t <= i < L1_WORDS ==> self.l1@[i] == before_top[i],
            decreases L1_WORDS - t,
        {
            let top: u64 = self.l1[t];
            if top != 0 {
                let mut j: u64 = 0;
                while j < 64
                    invariant
                        j <= 64,
                        t < L1_WORDS,
                        top == before_top[t as int],
                        self.l1@.len() == L1_WORDS,
                        before_top.len() == L1_WORDS,
                        levels_agree(before, before_top),
                        drained_to(before, self.l0@, keys@, t * 64 + j),
                        forall|i: int| 0 <= i < t ==> self.l1@[i] == 0,
                        forall|i: int| t <= i < L1_WORDS ==> self.l1@[i] == before_top[i],
                    decreases 64 - j,
                {
                    let w: usize = t * 64 + (j as usize);
                    assert(w / 64 == t && w % 64 == j);
                    let ghost prev = keys@;
                    if (top >> j) & 1 == 1 {
                        let word: u64 = self.l0[w];
                        HBitSet::drain_word(word, w * 64, &mut keys);
                        self.l0[w] = 0;
                        proof {
                            assert forall|k: usize| #[trigger]
                                keys@.contains(k) <==> (k < (w + 1) * 64 && holds(before, k)) by {
                                if w * 64 <= k < w * 64 + 64 {
                                    assert(k / 64 == w && k % 64 == k - w * 64);
                                }
                            }
                        }
                    } else {
                        proof {
                            assert(before[w as int] == 0);
                            assert forall|k: usize| #[trigger]
                                keys@.contains(k) <==> (k < (w + 1) * 64 && holds(before, k)) by {
                                if w * 64 <= k < w * 64 + 64 {
                                    assert(k / 64 == w);
                                    lemma_zero_has_no_bit((k % 64) as u64);
                                }
                            }
                        }
                    }
                    j += 1;
                }
                self.l1[t] = 0;
            } else {
                proof {
                    assert forall|w: int| t * 64 <= w < t * 64 + 64 implies #[trigger] before[w]
                        == 0 by {
                        assert(w / 64 == t);
                        lemma_zero_has_no_bit((w % 64) as u64);
                    }
                    assert forall|k: usize| #[trigger]
                        keys@.contains(k) <==> (k < (t * 64 + 64) * 64 && holds(before, k)) by {
                        if t * 64 * 64 <= k < (t * 64 + 64) * 64 {
                            let w = (k / 64) as int;
                            assert(t * 64 <= w < t * 64 + 64);
                            assert(before[w] == 0);
                            lemma_zero_has_no_bit((k % 64) as u64);
                        }
                    }
                }
            }
            t += 1;
        }
        proof {
            assert forall|w: int| 0 <= w < self.l0@.len() implies ((#[trigger] self.l0@[w] != 0)
                <==> bit_is_set(self.l1@[w / 64], (w % 64) as u64)) by {
                lemma_zero_has_no_bit((w % 64) as u64);
            }
            assert forall|key: usize| !self@.contains(key) by {
                if key < SIZE {
                    assert(self.l0@[(key / 64) as int] == 0);
                    lemma_zero_has_no_bit((key % 64) as u64);
                }
            }
            assert(self@ =~= Set::<usize>::empty());
            lemma_keys_below_unique(old(self)@, SIZE as nat, keys@);
        }
        keys
    }
}

} // verus!

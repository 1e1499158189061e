//! The table from keyboard keys to note frequencies (in millihertz).
use vstd::prelude::*;

verus! {

pub struct KeyTable {
    entries: Vec<(char, u32)>,
}

impl View for KeyTable {
    type V = Map<char, u32>;

    closed spec fn view(&self) -> Map<char, u32> {
        Map::new(
            |k: char| exists|i: int| 0 <= i < self.entries@.len() && self.entries@[i].0 == k,
            |k: char|
                self.entries@[choose|i: int|
                    0 <= i < self.entries@.len() && self.entries@[i].0 == k].1,
        )
    }
}

impl KeyTable {
    /// Each key once, each frequency positive.
    pub closed spec fn wf(&self) -> bool {
        &&& forall|i: int, j: int|
            0 <= i < self.entries@.len() && 0 <= j < self.entries@.len() && i != j
                ==> #[trigger] self.entries@[i].0 != #[trigger] self.entries@[j].0
        &&& forall|i: int| 0 <= i < self.entries@.len() ==> #[trigger] self.entries@[i].1 > 0
    }

    proof fn lemma_entry(&self, i: int)
        requires
            self.wf(),
            0 <= i < self.entries@.len(),
        ensures
            self@.contains_key(self.entries@[i].0),
            self@[self.entries@[i].0] == self.entries@[i].1,
    {
        let k = self.entries@[i].0;
        assert(self@.contains_key(k));
        let j = choose|j: int| 0 <= j < self.entries@.len() && self.entries@[j].0 == k;
        assert(j == i);
    }

    /// An empty table.
    pub fn new() -> (r: Self)
        ensures
            r.wf(),
            r@ == Map::<char, u32>::empty(),
    {
        let r = Self { entries: Vec::new() };
        assert(r@ =~= Map::<char, u32>::empty());
        r
    }

    fn position(&self, key: char) -> (r: Option<usize>)
        ensures
            r matches Some(i) ==> i < self.entries@.len() && self.entries@[i as int].0 == key,
            r is None ==> forall|i: int| 0 <= i < self.entries@.len() ==> self.entries@[i].0 != key,
    {
        let mut i: usize = 0;
        while i < self.entries.len()
            invariant
                i <= self.entries@.len(),
                forall|j: int| 0 <= j < i ==> self.entries@[j].0 != key,
            decreases self.entries@.len() - i,
        {
            if self.entries[i].0 == key {
                return Some(i);
            }
            i += 1;
        }
        None
    }

    /// Maps `key` to `freq`, in place of any frequency it had.
    pub fn insert(&mut self, key: char, freq: u32)
        requires
            old(self).wf(),
            freq > 0,
        ensures
            final(self).wf(),
            final(self)@ == old(self)@.insert(key, freq),
    {
        let ghost before = *self;
        match self.position(key) {
            Some(i) => {
                self.entries[i] = (key, freq);
            },
            None => {
                self.entries.push((key, freq));
            },
        }
        proof {
            assert forall|k: char| #[trigger] self@.contains_key(k) == before@.insert(
                key,
                freq,
            ).contains_key(k) by {
                if k != key && before@.contains_key(k) {
                    let j = choose|j: int|
                        0 <= j < before.entries@.len() && before.entries@[j].0 == k;
                    assert(self.entries@[j].0 == k);
                }
                if k != key && self@.contains_key(k) {
                    let j = choose|j: int|
                        0 <= j < self.entries@.len() && self.entries@[j].0 == k;
                    assert(before.entries@[j].0 == k);
                }
                if k == key {
                    let j = if self.entries@.len() > before.entries@.len() {
                        before.entries@.len() as int
                    } else {
                        choose|j: int| 0 <= j < self.entries@.len() && self.entries@[j] == (key, freq)
                    };
                    assert(self.entries@[j].0 == k);
                }
            }
            assert forall|k: char| #[trigger] self@.contains_key(k) implies self@[k] == before@.insert(
                key,
                freq,
            )[k] by {
                let j = choose|j: int| 0 <= j < self.entries@.len() && self.entries@[j].0 == k;
                self.lemma_entry(j);
                if k != key {
                    assert(before.entries@[j] == self.entries@[j]);
                    before.lemma_entry(j);
                }
            }
            assert(self@ =~= before@.insert(key, freq));
        }
    }

    /// The frequency of `key`, if the table has it.
    pub fn get(&self, key: char) -> (r: Option<u32>)
        requires
            self.wf(),
        ensures
            r == (if self@.contains_key(key) {
                Some(self@[key])
            } else {
                None::<u32>
            }),
            r matches Some(f) ==> f > 0,
    {
        match self.position(key) {
            Some(i) => {
                proof {
                    self.lemma_entry(i as int);
                }
                Some(self.entries[i].1)
            },
            None => None,
        }
    }
}

/// The keys of the keyboard, one per semitone up from its root.
pub open spec fn keyboard_map(freqs: Seq<u32>) -> Map<char, u32> {
    map![
        'z' => freqs[0], 's' => freqs[1], 'x' => freqs[2], 'c' => freqs[3],
        'f' => freqs[4], 'v' => freqs[5], 'g' => freqs[6], 'b' => freqs[7],
        'n' => freqs[8], 'j' => freqs[9], 'm' => freqs[10], 'k' => freqs[11],
        ',' => freqs[12], 'l' => freqs[13], '.' => freqs[14], '/' => freqs[15],
    ]
}

/// The keyboard: `semitone_freqs[n]` is the frequency `n` semitones above the
/// root, from `'z'` up to `'/'`.
pub fn build_keyboard(semitone_freqs: &Vec<u32>) -> (r: KeyTable)
    requires
        semitone_freqs@.len() == 16,
        forall|i: int| 0 <= i < 16 ==> #[trigger] semitone_freqs@[i] > 0,
    ensures
        r.wf(),
        r@ == keyboard_map(semitone_freqs@),
{
    let f = semitone_freqs;
    let mut mapping = KeyTable::new();
    mapping.insert('z', f[0]);
    mapping.insert('s', f[1]);
    mapping.insert('x', f[2]);
    mapping.insert('c', f[3]);
    mapping.insert('f', f[4]);
    mapping.insert('v', f[5]);
    mapping.insert('g', f[6]);
    mapping.insert('b', f[7]);
    mapping.insert('n', f[8]);
    mapping.insert('j', f[9]);
    mapping.insert('m', f[10]);
    mapping.insert('k', f[11]);
    mapping.insert(',', f[12]);
    mapping.insert('l', f[13]);
    mapping.insert('.', f[14]);
    mapping.insert('/', f[15]);
    mapping
}

} // verus!

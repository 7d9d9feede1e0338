//! The key-press latch: the set of currently pressed key codes
//! (`0x0`–`0xF`), written by the host on physical key events and read
//! by the core while it executes key instructions.

use vstd::prelude::*;

verus! {

/// The predicate `key_up` filters with: keep every entry other than
/// the released key.
pub open spec fn keeps_other_keys(key: u8) -> spec_fn(u8) -> bool {
    |k: u8| k != key
}

/// Currently pressed key codes, oldest press first. A key held through
/// repeated key-down events may appear more than once; `key_up`
/// removes every occurrence.
pub struct Keyboard {
    pub keys_pressed: Vec<u8>,
}

impl View for Keyboard {
    type V = Seq<u8>;

    open spec fn view(&self) -> Seq<u8> {
        self.keys_pressed@
    }
}

proof fn lemma_filter_one_more(s: Seq<u8>, pred: spec_fn(u8) -> bool, i: int)
    requires
        0 <= i < s.len(),
    ensures
        s.subrange(0, i + 1).filter(pred) == if pred(s[i]) {
            s.subrange(0, i).filter(pred).push(s[i])
        } else {
            s.subrange(0, i).filter(pred)
        },
{
    reveal(Seq::filter);
    let t = s.subrange(0, i + 1);
    assert(t.drop_last() =~= s.subrange(0, i));
    assert(t.last() == s[i]);
}

impl Keyboard {
    pub fn new() -> (kb: Keyboard)
        ensures
            kb@ == Seq::<u8>::empty(),
    {
        Keyboard { keys_pressed: Vec::new() }
    }

    /// Record a press of `key`. Later presses queue behind earlier
    /// ones, so the wait-for-key instruction observes the oldest press.
    pub fn key_down(&mut self, key: u8)
        ensures
            final(self)@ == old(self)@.push(key),
    {
        self.keys_pressed.push(key);
    }

    /// Remove every recorded press of `key`, keeping the order of the
    /// other entries.
    pub fn key_up(&mut self, key: u8)
        ensures
            final(self)@ == old(self)@.filter(keeps_other_keys(key)),
    {
        let mut kept: Vec<u8> = Vec::new();
        let mut idx: usize = 0;
        while idx < self.keys_pressed.len()
            invariant
                idx <= self.keys_pressed.len(),
                kept@ == self.keys_pressed@.subrange(0, idx as int).filter(keeps_other_keys(key)),
            decreases self.keys_pressed.len() - idx,
        {
            let k = self.keys_pressed[idx];
            proof {
                lemma_filter_one_more(self.keys_pressed@, keeps_other_keys(key), idx as int);
            }
            if k != key {
                kept.push(k);
            }
            idx += 1;
        }
        proof {
            assert(self.keys_pressed@.subrange(0, self.keys_pressed@.len() as int)
                =~= self.keys_pressed@);
        }
        self.keys_pressed = kept;
    }

    /// Whether `key` is currently pressed.
    pub fn is_key_pressed(&self, key: u8) -> (r: bool)
        ensures
            r <==> self@.contains(key),
    {
        let mut idx: usize = 0;
        while idx < self.keys_pressed.len()
            invariant
                idx <= self.keys_pressed.len(),
                forall|j: int| 0 <= j < idx ==> self.keys_pressed@[j] != key,
            decreases self.keys_pressed.len() - idx,
        {
            if self.keys_pressed[idx] == key {
                return true;
            }
            idx += 1;
        }
        false
    }
}

} // verus!

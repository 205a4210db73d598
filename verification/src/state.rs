//! The keys that are held down, and the size of the surface.

use vstd::prelude::*;

verus! {

/// The code of a key of the keyboard.
pub type KeyCode = u32;

/// The first place at which `keys` holds `key`, or the length of `keys` if
/// it holds it nowhere.
pub open spec fn first_index(keys: Seq<KeyCode>, key: KeyCode) -> int
    decreases keys.len(),
{
    if keys.len() == 0 {
        0
    } else if keys[0] == key {
        0
    } else {
        1 + first_index(keys.drop_first(), key)
    }
}

/// `first_index` is the least place that holds the key.
pub proof fn lemma_first_index(keys: Seq<KeyCode>, key: KeyCode)
    ensures
        0 <= first_index(keys, key) <= keys.len(),
        forall|j: int| 0 <= j < first_index(keys, key) ==> keys[j] != key,
        first_index(keys, key) < keys.len() ==> keys[first_index(keys, key)] == key,
        first_index(keys, key) < keys.len() <==> keys.contains(key),
    decreases keys.len(),
{
    if keys.len() > 0 && keys[0] != key {
        let rest = keys.drop_first();
        lemma_first_index(rest, key);
        let i = first_index(rest, key);
        assert forall|j: int| 0 <= j < 1 + i implies keys[j] != key by {
            if j > 0 {
                assert(rest[j - 1] == keys[j]);
            }
        }
        if i < rest.len() {
            assert(keys[1 + i] == rest[i]);
        }
        if keys.contains(key) {
            let j = choose|j: int| 0 <= j < keys.len() && keys[j] == key;
            assert(rest[j - 1] == key);
        }
    } else if keys.len() > 0 {
        assert(keys[0] == key);
    }
}

/// Whether a surface of `width` by `height` pixels can be drawn to: whether
/// it has any pixels.
pub fn is_drawable(width: u32, height: u32) -> (drawable: bool)
    ensures
        drawable == (width > 0 && height > 0),
{
    width > 0 && height > 0
}

/// The keys that are held down, in the order in which they went down.
pub struct InputController {
    pub pressed: Vec<KeyCode>,
}

impl Default for InputController {
    fn default() -> (controller: InputController)
        ensures
            controller.pressed@ == Seq::<KeyCode>::empty(),
    {
        InputController { pressed: Vec::new() }
    }
}

impl InputController {
    /// Notes what happened to `key`: that it went down if `pressed`, else that
    /// it went up.
    pub fn key_event(&mut self, key: &KeyCode, pressed: bool)
        ensures
            final(self).pressed@ == if pressed {
                if old(self).pressed@.contains(*key) {
                    old(self).pressed@
                } else {
                    old(self).pressed@.push(*key)
                }
            } else {
                if old(self).pressed@.contains(*key) {
                    old(self).pressed@.remove(first_index(old(self).pressed@, *key))
                } else {
                    old(self).pressed@
                }
            },
            old(self).pressed@.no_duplicates() ==> final(self).pressed@.no_duplicates(),
            old(self).pressed@.no_duplicates() ==> final(self).pressed@.contains(*key) == pressed,
    {
        if pressed {
            self.add_key(key);
        } else {
            self.remove_key(key);
        }
    }

    /// Notes that `key` went down. A key that is held already is not noted
    /// again.
    pub fn add_key(&mut self, key: &KeyCode)
        ensures
            final(self).pressed@ == if old(self).pressed@.contains(*key) {
                old(self).pressed@
            } else {
                old(self).pressed@.push(*key)
            },
            final(self).pressed@.contains(*key),
            old(self).pressed@.no_duplicates() ==> final(self).pressed@.no_duplicates(),
    {
        if !self.key_pressed(key) {
            self.pressed.push(*key);
            assert(self.pressed@[self.pressed@.len() - 1] == *key);
        }
    }

    /// Notes that `key` went up: takes out the first place at which it is
    /// held. Where no key is noted twice, the key is then held no more.
    pub fn remove_key(&mut self, key: &KeyCode)
        ensures
            final(self).pressed@ == if old(self).pressed@.contains(*key) {
                old(self).pressed@.remove(first_index(old(self).pressed@, *key))
            } else {
                old(self).pressed@
            },
            old(self).pressed@.no_duplicates() ==> final(self).pressed@.no_duplicates(),
            old(self).pressed@.no_duplicates() ==> !final(self).pressed@.contains(*key),
    {
        if let Some(index) = self.check_key(key) {
            self.pressed.remove(index);
            proof {
                let before = old(self).pressed@;
                let after = self.pressed@;
                if before.no_duplicates() {
                    assert forall|i: int, j: int| 0 <= i < after.len() && 0 <= j < after.len() && i != j implies after[i]
                        != after[j] by {
                        let a = if i < index { i } else { i + 1 };
                        let b = if j < index { j } else { j + 1 };
                        assert(before[a] != before[b]);
                    }
                    if after.contains(*key) {
                        let i = choose|i: int| 0 <= i < after.len() && after[i] == *key;
                        let a = if i < index { i } else { i + 1 };
                        assert(before[a] == before[index as int]);
                    }
                }
            }
        }
    }

    /// The first place at which `key` is held, if it is held.
    pub fn check_key(&self, key: &KeyCode) -> (index: Option<usize>)
        ensures
            index is Some == self.pressed@.contains(*key),
            index is Some ==> index->0 == first_index(self.pressed@, *key) && index->0 < self.pressed.len()
                && self.pressed[index->0 as int] == *key,
    {
        let n = self.pressed.len();
        let mut x: usize = 0;
        while x < n
            invariant
                x <= n,
                n == self.pressed.len(),
                forall|j: int| 0 <= j < x ==> self.pressed[j] != *key,
            decreases n - x,
        {
            if *key == self.pressed[x] {
                proof {
                    lemma_first_index(self.pressed@, *key);
                }
                return Some(x);
            }
            x += 1;
        }
        return None;
    }

    /// Whether `key` is held.
    pub fn key_pressed(&self, key: &KeyCode) -> (held: bool)
        ensures
            held == self.pressed@.contains(*key),
    {
        let n = self.pressed.len();
        let mut x: usize = 0;
        while x < n
            invariant
                x <= n,
                n == self.pressed.len(),
                forall|j: int| 0 <= j < x ==> self.pressed[j] != *key,
            decreases n - x,
        {
            if self.pressed[x] == *key {
                return true;
            }
            x += 1;
        }
        return false;
    }
}

} // verus!

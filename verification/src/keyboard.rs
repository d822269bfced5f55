use vstd::prelude::*;

verus! {

/// Number of keys on the keypad.
pub const KEY_COUNT: usize = 16;

/// The keypad: which of the sixteen keys are down, and whether an
/// instruction is held up until one goes down.
#[derive(Debug, PartialEq, Eq)]
pub struct Keyboard {
    keys: [bool; 16],
    wait: bool,
}

/// The lowest key from `from` upwards that is down, if there is one.
pub open spec fn lowest_pressed_from(keys: Seq<bool>, from: int) -> Option<u8>
    decreases KEY_COUNT - from,
{
    if from < 0 || from >= KEY_COUNT {
        None
    } else if keys[from] {
        Some(from as u8)
    } else {
        lowest_pressed_from(keys, from + 1)
    }
}

/// The lowest key that is down, if there is one.
pub open spec fn lowest_pressed(keys: Seq<bool>) -> Option<u8> {
    lowest_pressed_from(keys, 0)
}

/// The lowest pressed key is a pressed key with no pressed key below it, and
/// there is none exactly when no key is down.
pub proof fn lemma_lowest_pressed(keys: Seq<bool>)
    requires
        keys.len() == KEY_COUNT,
    ensures
        match lowest_pressed(keys) {
            Some(k) => k < KEY_COUNT && keys[k as int] && forall|j: int| 0 <= j < k ==> !keys[j],
            None => forall|j: int| 0 <= j < KEY_COUNT ==> !keys[j],
        },
{
    lemma_lowest_pressed_from(keys, 0);
}

proof fn lemma_lowest_pressed_from(keys: Seq<bool>, from: int)
    requires
        keys.len() == KEY_COUNT,
        0 <= from <= KEY_COUNT,
    ensures
        match lowest_pressed_from(keys, from) {
            Some(k) => from <= k < KEY_COUNT && keys[k as int] && forall|j: int|
                from <= j < k ==> !keys[j],
            None => forall|j: int| from <= j < KEY_COUNT ==> !keys[j],
        },
    decreases KEY_COUNT - from,
{
    if from < KEY_COUNT && !keys[from] {
        lemma_lowest_pressed_from(keys, from + 1);
    }
}

impl Keyboard {
    /// The state of each key, by key number.
    pub closed spec fn view(&self) -> Seq<bool> {
        self.keys@
    }

    /// Whether the last request for a key found none down.
    pub closed spec fn waiting(&self) -> bool {
        self.wait
    }

    /// There are always sixteen keys.
    pub proof fn lemma_len(&self)
        ensures
            self@.len() == KEY_COUNT,
    {
    }

    /// A keypad with no key down that nothing waits for.
    pub fn new() -> (k: Self)
        ensures
            k@ == Seq::new(KEY_COUNT as nat, |i: int| false),
            !k.waiting(),
    {
        Self { keys: [false; 16], wait: false }
    }

    /// Whether key `key` is down.
    pub fn is_key_pressed(&self, key: u8) -> (pressed: bool)
        requires
            key < KEY_COUNT,
        ensures
            pressed == self@[key as int],
    {
        self.keys[key as usize]
    }

    /// Replaces the state of all keys at once.
    pub fn set_keys(&mut self, keys: [bool; 16])
        ensures
            final(self)@ == keys@,
            final(self).waiting() == old(self).waiting(),
    {
        self.keys = keys;
    }

    /// Whether the last request for a key found none down.
    pub fn is_waiting(&self) -> (w: bool)
        ensures
            w == self.waiting(),
    {
        self.wait
    }

    /// The lowest key that is down, if any. The keypad waits from then on
    /// exactly if there was none.
    pub fn get_next_key(&mut self) -> (key: Option<u8>)
        ensures
            key == lowest_pressed(old(self)@),
            final(self)@ == old(self)@,
            final(self).waiting() == (key is None),
    {
        let mut i: u8 = 0;
        while i < 16
            invariant
                i <= 16,
                self@ == old(self)@,
                lowest_pressed(self@) == lowest_pressed_from(self@, i as int),
            decreases 16 - i,
        {
            if self.keys[i as usize] {
                self.wait = false;
                return Some(i);
            }
            i += 1;
        }
        self.wait = true;
        None
    }
}

} // verus!

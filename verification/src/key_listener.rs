//! Keyboard shortcuts: which registered key combinations fire as keys are
//! pressed and released.
use vstd::prelude::*;

verus! {

/// A keyboard key: the keys the recorder's shortcuts name, and any other
/// key by a code of the caller's choosing.
#[derive(PartialEq, Eq, Structural, Clone, Copy, Debug)]
pub enum Key {
    Alt,
    ControlLeft,
    KeyM,
    KeyN,
    Other(u64),
}

/// A keyboard event.
#[derive(PartialEq, Eq, Structural, Clone, Copy, Debug)]
pub enum KeyEvent {
    KeyPress(Key),
    KeyRelease(Key),
    /// Any other input event (mouse, wheel, ...).
    Other,
}

/// Whether `k` occurs in `keys`.
fn contains_key(keys: &Vec<Key>, k: Key) -> (r: bool)
    ensures
        r == keys@.contains(k),
{
    let mut i: usize = 0;
    while i < keys.len()
        invariant
            i <= keys@.len(),
            forall|j: int| 0 <= j < i ==> keys@[j] != k,
        decreases keys@.len() - i,
    {
        if keys[i] == k {
            assert(keys@[i as int] == k);
            return true;
        }
        i = i + 1;
    }
    false
}

/// The indices, in increasing order, of the first `n` shortcuts whose keys
/// are all pressed.
pub open spec fn firing(shortcuts: Seq<Set<Key>>, pressed: Set<Key>, n: int) -> Seq<usize>
    decreases n,
{
    if n <= 0 {
        Seq::empty()
    } else if shortcuts[n - 1].subset_of(pressed) {
        firing(shortcuts, pressed, n - 1).push((n - 1) as usize)
    } else {
        firing(shortcuts, pressed, n - 1)
    }
}

/// Tracks the keys held down and fires every registered shortcut whose
/// keys are all held when a key goes down.
pub struct KeyListener {
    shortcuts: Vec<Vec<Key>>,
    pressed_keys: Vec<Key>,
}

impl KeyListener {
    /// The registered shortcuts, as key sets, in registration order.
    pub closed spec fn shortcuts(&self) -> Seq<Set<Key>> {
        self.shortcuts@.map_values(|s: Vec<Key>| s@.to_set())
    }

    /// The keys currently held down.
    pub closed spec fn pressed(&self) -> Set<Key> {
        self.pressed_keys@.to_set()
    }

    /// A listener with no shortcut and no key held.
    pub fn new() -> (l: Self)
        ensures
            l.shortcuts() == Seq::<Set<Key>>::empty(),
            l.pressed() == Set::<Key>::empty(),
    {
        let l = KeyListener { shortcuts: Vec::new(), pressed_keys: Vec::new() };
        assert(l.shortcuts() =~= Seq::<Set<Key>>::empty());
        assert(l.pressed() =~= Set::<Key>::empty());
        l
    }

    /// Registers the combination `keys` as the next shortcut.
    pub fn register_shortcut(&mut self, keys: &[Key])
        ensures
            final(self).shortcuts() == old(self).shortcuts().push(keys@.to_set()),
            final(self).pressed() == old(self).pressed(),
    {
        let mut set: Vec<Key> = Vec::new();
        let mut i: usize = 0;
        while i < keys.len()
            invariant
                i <= keys@.len(),
                set@.to_set() == keys@.take(i as int).to_set(),
            decreases keys@.len() - i,
        {
            let k = keys[i];
            let ghost before = set@;
            if !contains_key(&set, k) {
                set.push(k);
            }
            proof {
                assert(keys@.take(i as int + 1) =~= keys@.take(i as int).push(k));
                assert(set@.to_set() =~= before.to_set().insert(k)) by {
                    assert forall|x: Key| #[trigger] set@.contains(x) <==> (before.contains(x) || x == k) by {
                        if set@.len() > before.len() {
                            assert(set@ == before.push(k));
                            if set@.contains(x) && !before.contains(x) {
                                let j = choose|j: int| 0 <= j < set@.len() && set@[j] == x;
                                assert(j == before.len());
                            }
                            if before.contains(x) {
                                let j = choose|j: int| 0 <= j < before.len() && before[j] == x;
                                assert(set@[j] == x);
                            }
                            if x == k {
                                assert(set@[before.len() as int] == k);
                            }
                        }
                    }
                }
                assert(keys@.take(i as int + 1).to_set() =~= keys@.take(i as int).to_set().insert(k)) by {
                    assert forall|x: Key| #[trigger] keys@.take(i as int + 1).contains(x) <==> (keys@.take(i as int).contains(x) || x == k) by {
                        let t0 = keys@.take(i as int);
                        let t1 = keys@.take(i as int + 1);
                        if t1.contains(x) && !t0.contains(x) {
                            let j = choose|j: int| 0 <= j < t1.len() && t1[j] == x;
                            if j < t0.len() {
                                assert(t0[j] == x);
                            }
                        }
                        if t0.contains(x) {
                            let j = choose|j: int| 0 <= j < t0.len() && t0[j] == x;
                            assert(t1[j] == x);
                        }
                        if x == k {
                            assert(t1[i as int] == k);
                        }
                    }
                }
            }
            i = i + 1;
        }
        let ghost before = self.shortcuts@;
        self.shortcuts.push(set);
        proof {
            assert(keys@.take(i as int) =~= keys@);
            assert(self.shortcuts() =~= before.map_values(|s: Vec<Key>| s@.to_set()).push(keys@.to_set()));
        }
    }

    /// Forgets which keys are held.
    pub fn reset_keys(&mut self)
        ensures
            final(self).pressed() == Set::<Key>::empty(),
            final(self).shortcuts() == old(self).shortcuts(),
    {
        self.pressed_keys = Vec::new();
        assert(self.pressed() =~= Set::<Key>::empty());
    }

    /// Whether every key of shortcut `i` is held.
    fn shortcut_held(&self, i: usize) -> (r: bool)
        requires
            i < self.shortcuts@.len(),
        ensures
            r == self.shortcuts()[i as int].subset_of(self.pressed()),
    {
        let keys = &self.shortcuts[i];
        assert(self.shortcuts()[i as int] == keys@.to_set());
        let mut j: usize = 0;
        while j < keys.len()
            invariant
                j <= keys@.len(),
                keys == self.shortcuts@[i as int],
                i < self.shortcuts@.len(),
                self.shortcuts()[i as int] == keys@.to_set(),
                forall|m: int| 0 <= m < j ==> self.pressed_keys@.contains(#[trigger] keys@[m]),
            decreases keys@.len() - j,
        {
            if !contains_key(&self.pressed_keys, keys[j]) {
                proof {
                    assert(keys@.to_set().contains(keys@[j as int]));
                    assert(!self.pressed().contains(keys@[j as int]));
                    assert(!keys@.to_set().subset_of(self.pressed()));
                }
                return false;
            }
            j = j + 1;
        }
        proof {
            assert forall|x: Key| #[trigger] keys@.to_set().contains(x) implies self.pressed().contains(x) by {
                let m = choose|m: int| 0 <= m < keys@.len() && keys@[m] == x;
            }
        }
        true
    }

    /// Updates the held keys for `event`. A key going down returns the
    /// indices, in registration order, of every shortcut whose keys are now
    /// all held; a key going up, or any other event, returns none.
    pub fn handle_event(&mut self, event: KeyEvent) -> (fired: Vec<usize>)
        ensures
            final(self).shortcuts() == old(self).shortcuts(),
            old(self).shortcuts().len() <= usize::MAX,
            match event {
                KeyEvent::KeyPress(k) => {
                    &&& final(self).pressed() == old(self).pressed().insert(k)
                    &&& fired@ == firing(
                        old(self).shortcuts(),
                        final(self).pressed(),
                        old(self).shortcuts().len() as int,
                    )
                },
                KeyEvent::KeyRelease(k) => {
                    &&& final(self).pressed() == old(self).pressed().remove(k)
                    &&& fired@ == Seq::<usize>::empty()
                },
                KeyEvent::Other => {
                    &&& final(self).pressed() == old(self).pressed()
                    &&& fired@ == Seq::<usize>::empty()
                },
            },
    {
        let n = self.shortcuts.len();
        match event {
            KeyEvent::KeyPress(k) => {
                let ghost before = self.pressed_keys@;
                if !contains_key(&self.pressed_keys, k) {
                    self.pressed_keys.push(k);
                }
                proof {
                    assert forall|x: Key| #[trigger] self.pressed_keys@.contains(x) <==> (before.contains(x) || x == k) by {
                        if self.pressed_keys@.len() > before.len() {
                            if self.pressed_keys@.contains(x) && !before.contains(x) {
                                let j = choose|j: int| 0 <= j < self.pressed_keys@.len() && self.pressed_keys@[j] == x;
                                assert(j == before.len());
                            }
                            if before.contains(x) {
                                let j = choose|j: int| 0 <= j < before.len() && before[j] == x;
                                assert(self.pressed_keys@[j] == x);
                            }
                            if x == k {
                                assert(self.pressed_keys@[before.len() as int] == k);
                            }
                        }
                    }
                    assert(self.pressed() =~= before.to_set().insert(k));
                }
                let mut fired: Vec<usize> = Vec::new();
                let mut i: usize = 0;
                while i < n
                    invariant
                        i <= n,
                        n == self.shortcuts@.len(),
                        self.shortcuts() == old(self).shortcuts(),
                        fired@ == firing(self.shortcuts(), self.pressed(), i as int),
                    decreases n - i,
                {
                    if self.shortcut_held(i) {
                        fired.push(i);
                    }
                    i = i + 1;
                }
                fired
            },
            KeyEvent::KeyRelease(k) => {
                let ghost before = self.pressed_keys@;
                let mut kept: Vec<Key> = Vec::new();
                let mut i: usize = 0;
                while i < self.pressed_keys.len()
                    invariant
                        i <= self.pressed_keys@.len(),
                        self.pressed_keys@ == before,
                        forall|x: Key| #[trigger] kept@.contains(x) <==> (before.take(i as int).contains(x) && x != k),
                    decreases self.pressed_keys@.len() - i,
                {
                    let x = self.pressed_keys[i];
                    let ghost kept0 = kept@;
                    if x != k {
                        kept.push(x);
                    }
                    proof {
                        let t0 = before.take(i as int);
                        let t1 = before.take(i as int + 1);
                        assert(t1 =~= t0.push(x));
                        assert forall|y: Key| #[trigger] kept@.contains(y) <==> (t1.contains(y) && y != k) by {
                            if t1.contains(y) && !t0.contains(y) {
                                let j = choose|j: int| 0 <= j < t1.len() && t1[j] == y;
                                if j < t0.len() {
                                    assert(t0[j] == y);
                                }
                            }
                            if t0.contains(y) {
                                let j = choose|j: int| 0 <= j < t0.len() && t0[j] == y;
                                assert(t1[j] == y);
                            }
                            if kept@.len() > kept0.len() {
                                if kept@.contains(y) && !kept0.contains(y) {
                                    let j = choose|j: int| 0 <= j < kept@.len() && kept@[j] == y;
                                    assert(j == kept0.len());
                                }
                                if kept0.contains(y) {
                                    let j = choose|j: int| 0 <= j < kept0.len() && kept0[j] == y;
                                    assert(kept@[j] == y);
                                }
                                if y == x {
                                    assert(kept@[kept0.len() as int] == x);
                                    assert(t1[i as int] == x);
                                }
                            } else {
                                assert(kept@ == kept0);
                                if y == x && y != k {
                                    assert(false);
                                }
                            }
                        }
                    }
                    i = i + 1;
                }
                self.pressed_keys = kept;
                proof {
                    assert(before.take(i as int) =~= before);
                    assert(self.pressed() =~= before.to_set().remove(k));
                }
                Vec::new()
            },
            KeyEvent::Other => Vec::new(),
        }
    }
}

/// A key going down fires exactly the shortcuts whose keys are all held,
/// each once, in registration order.
pub proof fn law_fired_are_held_shortcuts(shortcuts: Seq<Set<Key>>, pressed: Set<Key>, n: int)
    requires
        0 <= n <= shortcuts.len(),
        n <= usize::MAX,
    ensures
        forall|i: int| 0 <= i < n ==> (firing(shortcuts, pressed, n).contains(i as usize) <==> #[trigger] shortcuts[i].subset_of(pressed)),
        forall|a: int, b: int| 0 <= a < b < firing(shortcuts, pressed, n).len() ==> firing(shortcuts, pressed, n)[a] < firing(shortcuts, pressed, n)[b],
        forall|a: int| 0 <= a < firing(shortcuts, pressed, n).len() ==> firing(shortcuts, pressed, n)[a] < n,
    decreases n,
{
    if n > 0 {
        law_fired_are_held_shortcuts(shortcuts, pressed, n - 1);
        let prev = firing(shortcuts, pressed, n - 1);
        let cur = firing(shortcuts, pressed, n);
        assert forall|i: int| 0 <= i < n implies (cur.contains(i as usize) <==> #[trigger] shortcuts[i].subset_of(pressed)) by {
            if shortcuts[n - 1].subset_of(pressed) {
                assert(cur == prev.push((n - 1) as usize));
                if i == n - 1 {
                    assert(cur[prev.len() as int] == (n - 1) as usize);
                    if !prev.contains(i as usize) {
                    }
                } else {
                    if cur.contains(i as usize) {
                        let j = choose|j: int| 0 <= j < cur.len() && cur[j] == i as usize;
                        if j < prev.len() {
                            assert(prev[j] == i as usize);
                        }
                    }
                    if prev.contains(i as usize) {
                        let j = choose|j: int| 0 <= j < prev.len() && prev[j] == i as usize;
                        assert(cur[j] == i as usize);
                    }
                }
            } else {
                if i == n - 1 {
                    if prev.contains(i as usize) {
                        let j = choose|j: int| 0 <= j < prev.len() && prev[j] == i as usize;
                    }
                }
            }
        }
    }
}

/// Releasing a key that was not held before it went down returns the held
/// keys to what they were: a release undoes its press.
pub proof fn law_release_undoes_press(pressed: Set<Key>, k: Key)
    requires
        !pressed.contains(k),
    ensures
        pressed.insert(k).remove(k) == pressed,
{
    assert(pressed.insert(k).remove(k) =~= pressed);
}

} // verus!

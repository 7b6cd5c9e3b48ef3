use vstd::prelude::*;

verus! {

/// An entry of an [`LruTable`], identified by a key.
pub trait LruItem: Sized {
    type Key;

    /// The key that identifies this entry.
    spec fn key_of(&self) -> Self::Key;

    fn key(&self) -> (k: Self::Key)
        ensures
            k == self.key_of(),
    ;

    fn key_ref(&self) -> (k: &Self::Key)
        ensures
            *k == self.key_of(),
    ;

    /// Whether this entry is identified by `key`.
    fn has_key(&self, key: &Self::Key) -> (r: bool)
        ensures
            r == (self.key_of() == *key),
    ;
}

/// An integer is its own key.
impl LruItem for i32 {
    type Key = i32;

    open spec fn key_of(&self) -> i32 {
        *self
    }

    fn key(&self) -> (k: i32) {
        *self
    }

    fn key_ref(&self) -> (k: &i32) {
        self
    }

    fn has_key(&self, key: &i32) -> (r: bool) {
        *self == *key
    }
}

/// No two entries share a key.
pub open spec fn keys_distinct<T: LruItem>(s: Seq<T>) -> bool {
    forall|i: int, j: int|
        0 <= i < s.len() && 0 <= j < s.len() && i != j ==> #[trigger] s[i].key_of()
            != #[trigger] s[j].key_of()
}

/// Position of the entry with key `k`.
pub open spec fn position_of<T: LruItem>(s: Seq<T>, k: T::Key) -> Option<int> {
    if exists|i: int| 0 <= i < s.len() && s[i].key_of() == k {
        Some(choose|i: int| 0 <= i < s.len() && s[i].key_of() == k)
    } else {
        None
    }
}

/// Entries in order of use: the least recently used first, the most recently used last.
/// Looking up a key scans the entries, in time linear in their number.
pub struct LruTable<T: LruItem> {
    items: Vec<T>,
}

impl<T: LruItem> View for LruTable<T> {
    type V = Seq<T>;

    closed spec fn view(&self) -> Seq<T> {
        self.items@
    }
}

impl<T: LruItem> LruTable<T> {
    pub open spec fn wf(&self) -> bool {
        keys_distinct(self@)
    }

    pub fn new() -> (r: LruTable<T>)
        ensures
            r@ == Seq::<T>::empty(),
            r.wf(),
    {
        LruTable { items: Vec::new() }
    }

    pub fn len(&self) -> (r: usize)
        ensures
            r == self@.len(),
    {
        self.items.len()
    }

    fn find(&self, key: &T::Key) -> (r: Option<usize>)
        requires
            self.wf(),
        ensures
            r matches Some(i) ==> position_of(self@, *key) == Some(i as int) && i < self@.len(),
            r is None ==> position_of(self@, *key) is None,
    {
        let mut i: usize = 0;
        while i < self.items.len()
            invariant
                i <= self@.len(),
                self.wf(),
                self@ == self.items@,
                forall|j: int| 0 <= j < i ==> self@[j].key_of() != *key,
            decreases self@.len() - i,
        {
            if self.items[i].has_key(key) {
                let ghost p = position_of(self@, *key)->0;
                assert(self@[p].key_of() == *key);
                assert(self@[i as int].key_of() == *key);
                assert(p == i) by {
                    if p != i {
                        assert(self@[p].key_of() != self@[i as int].key_of());
                    }
                }
                return Some(i);
            }
            i = i + 1;
        }
        None
    }

    /// Looks up the entry with `key` and, where present, makes it the most recently used.
    pub fn get(&mut self, key: &T::Key) -> (r: Option<&T>)
        requires
            old(self).wf(),
        ensures
            final(self).wf(),
            match position_of(old(self)@, *key) {
                Some(i) => {
                    &&& final(self)@ == old(self)@.remove(i).push(old(self)@[i])
                    &&& r == Some(&old(self)@[i])
                },
                None => final(self)@ == old(self)@ && r is None,
            },
    {
        match self.find(key) {
            None => None,
            Some(i) => {
                let ghost s = self@;
                let item = self.items.remove(i);
                self.items.push(item);
                proof {
                    assert(self@ =~= s.remove(i as int).push(s[i as int]));
                    assert forall|a: int, b: int|
                        0 <= a < self@.len() && 0 <= b < self@.len() && a != b implies #[trigger] self@[a].key_of()
                            != #[trigger] self@[b].key_of() by {
                        let ia = if a == self@.len() - 1 { i as int } else if a < i { a } else { a + 1 };
                        let ib = if b == self@.len() - 1 { i as int } else if b < i { b } else { b + 1 };
                        assert(self@[a] == s[ia]);
                        assert(self@[b] == s[ib]);
                    }
                }
                let n = self.items.len();
                Some(&self.items[n - 1])
            },
        }
    }

    /// Puts `value` in front as the most recently used entry. An entry with the same key
    /// leaves its place and is handed back.
    pub fn push_front(&mut self, value: T) -> (r: Option<T>)
        requires
            old(self).wf(),
        ensures
            final(self).wf(),
            match position_of(old(self)@, value.key_of()) {
                Some(i) => {
                    &&& final(self)@ == old(self)@.remove(i).push(value)
                    &&& r == Some(old(self)@[i])
                },
                None => final(self)@ == old(self)@.push(value) && r is None,
            },
    {
        let k = value.key_ref();
        let found = self.find(k);
        let ghost s = self@;
        let previous = match found {
            None => None,
            Some(i) => Some(self.items.remove(i)),
        };
        self.items.push(value);
        proof {
            match found {
                Some(i) => {
                    assert(self@ =~= s.remove(i as int).push(value));
                    assert forall|a: int, b: int|
                        0 <= a < self@.len() && 0 <= b < self@.len() && a != b implies #[trigger] self@[a].key_of()
                            != #[trigger] self@[b].key_of() by {
                        if a != self@.len() - 1 && b != self@.len() - 1 {
                            let ia = if a < i { a } else { a + 1 };
                            let ib = if b < i { b } else { b + 1 };
                            assert(self@[a] == s[ia]);
                            assert(self@[b] == s[ib]);
                        } else if a == self@.len() - 1 {
                            let ib = if b < i { b } else { b + 1 };
                            assert(self@[b] == s[ib]);
                            assert(s[i as int].key_of() == value.key_of());
                        } else {
                            let ia = if a < i { a } else { a + 1 };
                            assert(self@[a] == s[ia]);
                            assert(s[i as int].key_of() == value.key_of());
                        }
                    }
                },
                None => {
                    assert(self@ =~= s.push(value));
                    assert forall|a: int, b: int|
                        0 <= a < self@.len() && 0 <= b < self@.len() && a != b implies #[trigger] self@[a].key_of()
                            != #[trigger] self@[b].key_of() by {
                        if a == self@.len() - 1 {
                            assert(self@[b] == s[b]);
                        } else if b == self@.len() - 1 {
                            assert(self@[a] == s[a]);
                        }
                    }
                },
            }
        }
        previous
    }

    /// Takes out the least recently used entry.
    pub fn pop_back(&mut self) -> (r: Option<T>)
        requires
            old(self).wf(),
        ensures
            final(self).wf(),
            old(self)@.len() == 0 ==> r is None && final(self)@ == old(self)@,
            old(self)@.len() > 0 ==> r == Some(old(self)@[0]) && final(self)@ == old(self)@.drop_first(),
    {
        if self.items.len() == 0 {
            None
        } else {
            let ghost s = self@;
            let item = self.items.remove(0);
            assert(self@ =~= s.drop_first());
            assert forall|a: int, b: int|
                0 <= a < self@.len() && 0 <= b < self@.len() && a != b implies #[trigger] self@[a].key_of()
                    != #[trigger] self@[b].key_of() by {
                assert(self@[a] == s[a + 1]);
                assert(self@[b] == s[b + 1]);
            }
            Some(item)
        }
    }
}

} // verus!

use vstd::prelude::*;

use crate::file::{CacheFile, FileHash};
use crate::lru::{position_of, LruItem, LruTable};

verus! {

impl LruItem for CacheFile {
    type Key = FileHash;

    open spec fn key_of(&self) -> FileHash {
        self.hash
    }

    fn key(&self) -> (k: FileHash) {
        self.hash
    }

    fn key_ref(&self) -> (k: &FileHash) {
        &self.hash
    }

    fn has_key(&self, key: &FileHash) -> (r: bool) {
        let r = self.hash.same(key);
        proof {
            if r {
                assert(self.hash.0 =~= key.0);
            }
        }
        r
    }
}

/// Sum of the sizes of the files.
pub open spec fn total(s: Seq<CacheFile>) -> int
    decreases s.len(),
{
    if s.len() == 0 {
        0
    } else {
        s[0].info.size + total(s.drop_first())
    }
}

pub proof fn lemma_total_push(s: Seq<CacheFile>, x: CacheFile)
    ensures
        total(s.push(x)) == total(s) + x.info.size,
    decreases s.len(),
{
    if s.len() > 0 {
        lemma_total_push(s.drop_first(), x);
        assert(s.push(x).drop_first() =~= s.drop_first().push(x));
        assert(s.push(x)[0] == s[0]);
        assert(total(s.push(x)) == s[0].info.size + total(s.drop_first().push(x)));
        assert(total(s) == s[0].info.size + total(s.drop_first()));
    } else {
        assert(s.push(x).drop_first() =~= Seq::<CacheFile>::empty());
        assert(s.push(x)[0] == x);
        assert(total(s.push(x)) == x.info.size + total(Seq::<CacheFile>::empty()));
    }
}

pub proof fn lemma_total_remove(s: Seq<CacheFile>, i: int)
    requires
        0 <= i < s.len(),
    ensures
        total(s) == total(s.remove(i)) + s[i].info.size,
    decreases i,
{
    if i == 0 {
        assert(s.remove(0) =~= s.drop_first());
    } else {
        lemma_total_remove(s.drop_first(), i - 1);
        assert(s.remove(i).drop_first() =~= s.drop_first().remove(i - 1));
        assert(s.remove(i)[0] == s[0]);
    }
}

pub proof fn lemma_total_nonneg(s: Seq<CacheFile>)
    ensures
        total(s) >= 0,
    decreases s.len(),
{
    if s.len() > 0 {
        lemma_total_nonneg(s.drop_first());
    }
}

/// The entries after `f` is put in front of `s`: one with the same hash leaves its place.
pub open spec fn after_push(s: Seq<CacheFile>, f: CacheFile) -> Seq<CacheFile> {
    match position_of(s, f.hash) {
        Some(i) => s.remove(i).push(f),
        None => s.push(f),
    }
}

/// Bounded set of cached artifacts, evicted least recently used first.
pub struct CacheManager {
    max_size: u64,
    current_size: u64,
    table: LruTable<CacheFile>,
}

/// The quota, the bytes accounted for, and the entries from least to most recently used.
pub struct CacheManagerView {
    pub max_size: u64,
    pub current_size: u64,
    pub entries: Seq<CacheFile>,
}

impl View for CacheManager {
    type V = CacheManagerView;

    closed spec fn view(&self) -> CacheManagerView {
        CacheManagerView {
            max_size: self.max_size,
            current_size: self.current_size,
            entries: self.table@,
        }
    }
}

impl CacheManager {
    /// The entries have distinct hashes and `current_size` is the sum of their sizes.
    pub closed spec fn wf(&self) -> bool {
        &&& self.table.wf()
        &&& self.current_size == total(self.table@)
    }

    /// An empty cache with a quota of zero.
    pub fn new() -> (r: CacheManager)
        ensures
            r.wf(),
            r@.max_size == 0,
            r@.current_size == 0,
            r@.entries == Seq::<CacheFile>::empty(),
    {
        CacheManager { max_size: 0, current_size: 0, table: LruTable::new() }
    }

    pub fn set_max_size(&mut self, max_size: u64)
        requires
            old(self).wf(),
        ensures
            final(self).wf(),
            final(self)@ == (CacheManagerView { max_size, ..old(self)@ }),
    {
        self.max_size = max_size;
    }

    pub fn max_size(&self) -> (r: u64)
        ensures
            r == self@.max_size,
    {
        self.max_size
    }

    pub fn current_size(&self) -> (r: u64)
        ensures
            r == self@.current_size,
    {
        self.current_size
    }

    /// Number of cached artifacts.
    pub fn len(&self) -> (r: usize)
        ensures
            r == self@.entries.len(),
    {
        self.table.len()
    }

    /// Records `file` as the most recently used entry, replacing one with the same hash,
    /// then evicts least recently used entries while the sizes exceed the quota. Returns the
    /// evicted entries, oldest first, whose files are to be deleted.
    pub fn add(&mut self, file: CacheFile) -> (evicted: Vec<CacheFile>)
        requires
            old(self).wf(),
            old(self)@.current_size + file.info.size <= u64::MAX,
        ensures
            final(self).wf(),
            final(self)@.max_size == old(self)@.max_size,
            ({
                let pushed = after_push(old(self)@.entries, file);
                let e = evicted@.len() as int;
                &&& e <= pushed.len()
                &&& evicted@ == pushed.subrange(0, e)
                &&& final(self)@.entries == pushed.subrange(e, pushed.len() as int)
                &&& e > 0 ==> total(pushed.subrange(e - 1, pushed.len() as int)) > old(
                    self,
                )@.max_size
            }),
            final(self)@.current_size == total(final(self)@.entries),
            final(self)@.current_size <= final(self)@.max_size,
    {
        let ghost s = self.table@;
        let size = file.info.size;
        let previous = self.table.push_front(file);
        proof {
            match position_of(s, file.hash) {
                Some(i) => {
                    lemma_total_remove(s, i);
                    lemma_total_push(s.remove(i), file);
                    lemma_total_nonneg(s.remove(i));
                },
                None => {
                    lemma_total_push(s, file);
                },
            }
        }
        match previous {
            Some(p) => {
                self.current_size = self.current_size - p.info.size + size;
            },
            None => {
                self.current_size = self.current_size + size;
            },
        }
        let ghost pushed = self.table@;
        assert(pushed == after_push(s, file));
        let mut evicted: Vec<CacheFile> = Vec::new();
        assert(pushed.subrange(0, 0) =~= Seq::<CacheFile>::empty());
        assert(pushed.subrange(0, pushed.len() as int) =~= pushed);
        while self.current_size > self.max_size
            invariant
                self.table.wf(),
                self.max_size == old(self).max_size,
                self.current_size == total(self.table@),
                evicted@.len() <= pushed.len(),
                evicted@ == pushed.subrange(0, evicted@.len() as int),
                self.table@ == pushed.subrange(evicted@.len() as int, pushed.len() as int),
                evicted@.len() > 0 ==> total(
                    pushed.subrange(evicted@.len() - 1, pushed.len() as int),
                ) > self.max_size,
            decreases self.table@.len(),
        {
            let ghost before = self.table@;
            let ghost e = evicted@.len() as int;
            match self.table.pop_back() {
                None => {
                    assert(total(before) == 0);
                },
                Some(f) => {
                    assert(total(before) == before[0].info.size + total(before.drop_first()));
                    proof {
                        lemma_total_nonneg(before.drop_first());
                    }
                    self.current_size = self.current_size - f.info.size;
                    evicted.push(f);
                    assert(evicted@ =~= pushed.subrange(0, e + 1));
                    assert(self.table@ =~= pushed.subrange(e + 1, pushed.len() as int));
                },
            }
        }
        evicted
    }

    /// Makes the entry with `file`'s hash the most recently used one; nothing happens
    /// where there is none.
    pub fn update(&mut self, file: &CacheFile)
        requires
            old(self).wf(),
        ensures
            final(self).wf(),
            final(self)@.max_size == old(self)@.max_size,
            final(self)@.current_size == old(self)@.current_size,
            match position_of(old(self)@.entries, file.hash) {
                Some(i) => final(self)@.entries == old(self)@.entries.remove(i).push(
                    old(self)@.entries[i],
                ),
                None => final(self)@.entries == old(self)@.entries,
            },
    {
        let ghost s = self.table@;
        let _ = self.table.get(&file.hash);
        proof {
            match position_of(s, file.hash) {
                Some(i) => {
                    lemma_total_remove(s, i);
                    lemma_total_push(s.remove(i), s[i]);
                },
                None => {},
            }
        }
    }
}

} // verus!

verus! {

/// `s` after each of `files` in turn is put in front.
pub open spec fn push_all(s: Seq<CacheFile>, files: Seq<CacheFile>) -> Seq<CacheFile>
    decreases files.len(),
{
    if files.len() == 0 {
        s
    } else {
        after_push(push_all(s, files.drop_last()), files.last())
    }
}

/// Access times do not decrease along the sequence.
pub open spec fn times_sorted(s: Seq<(u64, CacheFile)>) -> bool {
    forall|i: int, j: int| 0 <= i <= j < s.len() ==> #[trigger] s[i].0 <= #[trigger] s[j].0
}

/// The files of `(access time, file)` pairs.
pub open spec fn files_of(s: Seq<(u64, CacheFile)>) -> Seq<CacheFile> {
    s.map_values(|p: (u64, CacheFile)| p.1)
}

/// Sum of the file sizes of `(access time, file)` pairs.
pub open spec fn pair_total(s: Seq<(u64, CacheFile)>) -> int
    decreases s.len(),
{
    if s.len() == 0 {
        0
    } else {
        pair_total(s.drop_last()) + s.last().1.info.size
    }
}

proof fn lemma_pair_total_remove(s: Seq<(u64, CacheFile)>, i: int)
    requires
        0 <= i < s.len(),
    ensures
        pair_total(s) == pair_total(s.remove(i)) + s[i].1.info.size,
    decreases s.len(),
{
    if i == s.len() - 1 {
        assert(s.remove(i) =~= s.drop_last());
    } else {
        lemma_pair_total_remove(s.drop_last(), i);
        assert(s.remove(i).drop_last() =~= s.drop_last().remove(i));
        assert(s.remove(i).last() == s.last());
    }
}

proof fn lemma_pair_total_nonneg(s: Seq<(u64, CacheFile)>)
    ensures
        pair_total(s) >= 0,
    decreases s.len(),
{
    if s.len() > 0 {
        lemma_pair_total_nonneg(s.drop_last());
    }
}

/// What the startup scan does with a file it finds.
pub enum ScanEntry {
    /// The name describes an artifact of the file's length: it is indexed.
    Keep(CacheFile),
    /// The name describes an artifact of another length: the file is deleted.
    Remove,
    /// The name describes no artifact: the file is left alone.
    Skip,
}

/// A directory level of the cache: exactly two lowercase hexadecimal digits.
pub fn is_shard_dir_name(name: &[u8]) -> (r: bool)
    ensures
        r == (name@.len() == 2 && crate::hex::all_hex(name@)),
{
    if name.len() != 2 {
        return false;
    }
    let ok0 = (48 <= name[0] && name[0] <= 57) || (97 <= name[0] && name[0] <= 102);
    let ok1 = (48 <= name[1] && name[1] <= 57) || (97 <= name[1] && name[1] <= 102);
    proof {
        if !ok0 {
            assert(!crate::hex::is_hex_digit(name@[0]));
        }
        if !ok1 {
            assert(!crate::hex::is_hex_digit(name@[1]));
        }
    }
    ok0 && ok1
}

/// Decides what the startup scan does with a file named `name` of `len` bytes.
pub fn classify(name: &[u8], len: u64) -> (r: ScanEntry)
    ensures
        match crate::file::parse_disk_name(name@) {
            None => r is Skip,
            Some(a) => if a.size == len {
                r matches ScanEntry::Keep(f) && f@ == a && f.wf()
            } else {
                r is Remove
            },
        },
{
    match CacheFile::from_name_bytes(name) {
        None => ScanEntry::Skip,
        Some(f) => if f.info.size == len {
            ScanEntry::Keep(f)
        } else {
            ScanEntry::Remove
        },
    }
}

fn min_time_index(v: &Vec<(u64, CacheFile)>) -> (m: usize)
    requires
        v@.len() > 0,
    ensures
        m < v@.len(),
        forall|j: int| 0 <= j < v@.len() ==> v@[m as int].0 <= #[trigger] v@[j].0,
{
    let mut m: usize = 0;
    let mut i: usize = 1;
    while i < v.len()
        invariant
            1 <= i <= v@.len(),
            m < i,
            forall|j: int| 0 <= j < i ==> v@[m as int].0 <= #[trigger] v@[j].0,
        decreases v@.len() - i,
    {
        if v[i].0 < v[m].0 {
            m = i;
        }
        i = i + 1;
    }
    m
}

impl CacheManager {
    fn insert(&mut self, file: CacheFile)
        requires
            old(self).wf(),
            old(self)@.current_size + file.info.size <= u64::MAX,
        ensures
            final(self).wf(),
            final(self)@.max_size == old(self)@.max_size,
            final(self)@.entries == after_push(old(self)@.entries, file),
            final(self)@.current_size <= old(self)@.current_size + file.info.size,
    {
        let ghost s = self.table@;
        let size = file.info.size;
        let previous = self.table.push_front(file);
        proof {
            match position_of(s, file.hash) {
                Some(i) => {
                    lemma_total_remove(s, i);
                    lemma_total_push(s.remove(i), file);
                    lemma_total_nonneg(s.remove(i));
                },
                None => {
                    lemma_total_push(s, file);
                },
            }
        }
        match previous {
            Some(p) => {
                self.current_size = self.current_size - p.info.size + size;
            },
            None => {
                self.current_size = self.current_size + size;
            },
        }
    }

    /// Indexes the files that the startup scan kept, given with their access times: oldest
    /// first, so that the most recently accessed ends up most recently used.
    pub fn build(&mut self, files: Vec<(u64, CacheFile)>)
        requires
            old(self).wf(),
            old(self)@.current_size + pair_total(files@) <= u64::MAX,
        ensures
            final(self).wf(),
            final(self)@.max_size == old(self)@.max_size,
            exists|order: Seq<(u64, CacheFile)>|
                {
                    &&& order.to_multiset() == files@.to_multiset()
                    &&& times_sorted(order)
                    &&& final(self)@.entries == push_all(old(self)@.entries, files_of(order))
                },
    {
        let mut rest = files;
        let ghost order: Seq<(u64, CacheFile)> = Seq::empty();
        let ghost start = self.table@;
        proof {
            lemma_pair_total_nonneg(rest@);
        }
        assert(files_of(order) =~= Seq::<CacheFile>::empty());
        proof {
            broadcast use vstd::multiset::group_multiset_axioms;

            vstd::seq_lib::to_multiset_len(order);
            vstd::multiset::lemma_multiset_empty_len(order.to_multiset());
            assert(order.to_multiset().add(rest@.to_multiset()) =~= files@.to_multiset());
        }
        while rest.len() > 0
            invariant
                self.wf(),
                self.max_size == old(self).max_size,
                order.to_multiset().add(rest@.to_multiset()) == files@.to_multiset(),
                times_sorted(order),
                forall|i: int, j: int|
                    0 <= i < order.len() && 0 <= j < rest@.len() ==> #[trigger] order[i].0
                        <= #[trigger] rest@[j].0,
                self.table@ == push_all(start, files_of(order)),
                self.current_size + pair_total(rest@) <= old(self).current_size + pair_total(files@),
                old(self).current_size + pair_total(files@) <= u64::MAX,
                pair_total(rest@) >= 0,
            decreases rest@.len(),
        {
            let m = min_time_index(&rest);
            let ghost before = rest@;
            let item = rest.remove(m);
            proof {
                broadcast use vstd::multiset::group_multiset_axioms;

                assert(before[m as int] == item);
                assert(before.contains(item));
                vstd::seq_lib::to_multiset_contains(before, item);
                vstd::seq_lib::to_multiset_remove(before, m as int);
                vstd::seq_lib::to_multiset_build(order, item);
                lemma_pair_total_remove(before, m as int);
                lemma_pair_total_nonneg(rest@);
                assert(order.push(item).to_multiset().add(rest@.to_multiset()) =~= files@.to_multiset());
                assert forall|i: int, j: int| 0 <= i <= j < order.len() + 1 implies #[trigger] order.push(
                    item,
                )[i].0 <= #[trigger] order.push(item)[j].0 by {
                    if j == order.len() && i < order.len() {
                        assert(order[i].0 <= before[m as int].0);
                    }
                }
                assert forall|i: int, j: int|
                    0 <= i < order.len() + 1 && 0 <= j < rest@.len() implies #[trigger] order.push(
                        item,
                    )[i].0 <= #[trigger] rest@[j].0 by {
                    let jj = if j < m { j } else { j + 1 };
                    assert(rest@[j] == before[jj]);
                    if i < order.len() {
                        assert(order[i].0 <= before[jj].0);
                    }
                }
                assert(files_of(order.push(item)).drop_last() =~= files_of(order));
            }
            self.insert(item.1);
            proof {
                order = order.push(item);
            }
        }
        assert(order.to_multiset() =~= files@.to_multiset()) by {
            assert(rest@ =~= Seq::<(u64, CacheFile)>::empty());
            vstd::seq_lib::to_multiset_len(rest@);
        }
    }
}

} // verus!

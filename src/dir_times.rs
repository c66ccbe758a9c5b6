use vstd::prelude::*;

verus! {

/// A modification time: the whole second it falls in, counted from the Unix
/// epoch (negative before it), and the nanoseconds past that second.
#[derive(Clone, Copy, Debug, PartialEq, Eq, Structural)]
pub struct ModTime {
    pub secs: i64,
    pub nanos: u32,
}

impl ModTime {
    /// Strictly later, ordering first by seconds, then by nanoseconds.
    pub open spec fn later_than(self, other: ModTime) -> bool {
        self.secs > other.secs || (self.secs == other.secs && self.nanos > other.nanos)
    }

    /// Whether `self` is strictly later than `other`.
    pub fn is_after(&self, other: &ModTime) -> (r: bool)
        ensures
            r == self.later_than(*other),
    {
        self.secs > other.secs || (self.secs == other.secs && self.nanos > other.nanos)
    }
}

/// No directory occurs twice among the entries.
pub open spec fn keys_unique(s: Seq<(String, ModTime)>) -> bool {
    forall|i: int, j: int| 0 <= i < j < s.len() ==> s[i].0@ != s[j].0@
}

/// The map that a list of entries denotes; a later entry for a directory
/// overrides an earlier one.
pub open spec fn entries_map(s: Seq<(String, ModTime)>) -> Map<Seq<char>, ModTime>
    decreases s.len(),
{
    if s.len() == 0 {
        Map::empty()
    } else {
        entries_map(s.drop_last()).insert(s.last().0@, s.last().1)
    }
}

/// The map that a list of observations denotes: each directory whose time
/// could be read, with that time; directories without one are left out.
pub open spec fn observed_map(s: Seq<(String, Option<ModTime>)>) -> Map<Seq<char>, ModTime>
    decreases s.len(),
{
    if s.len() == 0 {
        Map::empty()
    } else {
        let rest = observed_map(s.drop_last());
        match s.last().1 {
            Some(t) => rest.insert(s.last().0@, t),
            None => rest,
        }
    }
}

pub proof fn lemma_entries_map_dom(s: Seq<(String, ModTime)>)
    ensures
        entries_map(s).dom().finite(),
        forall|k: Seq<char>|
            #![trigger entries_map(s).contains_key(k)]
            entries_map(s).contains_key(k) <==> exists|i: int| 0 <= i < s.len() && s[i].0@ == k,
        forall|i: int| #![trigger s[i]] 0 <= i < s.len() ==> entries_map(s).contains_key(s[i].0@),
    decreases s.len(),
{
    if s.len() > 0 {
        let p = s.drop_last();
        lemma_entries_map_dom(p);
        assert forall|i: int| #![trigger s[i]] 0 <= i < s.len() implies entries_map(s).contains_key(s[i].0@) by {
            if i < p.len() {
                assert(p[i] == s[i]);
            }
        }
        assert forall|k: Seq<char>|
            #![trigger entries_map(s).contains_key(k)]
            entries_map(s).contains_key(k) <==> exists|i: int| 0 <= i < s.len() && s[i].0@ == k by {
            if entries_map(s).contains_key(k) && k != s.last().0@ {
                let i = choose|i: int| 0 <= i < p.len() && p[i].0@ == k;
                assert(s[i] == p[i]);
            }
            if exists|i: int| 0 <= i < s.len() && s[i].0@ == k {
                let i = choose|i: int| 0 <= i < s.len() && s[i].0@ == k;
                if i < p.len() {
                    assert(p[i] == s[i]);
                }
            }
        }
    }
}

pub proof fn lemma_entries_map_value(s: Seq<(String, ModTime)>, i: int)
    requires
        keys_unique(s),
        0 <= i < s.len(),
    ensures
        entries_map(s)[s[i].0@] == s[i].1,
    decreases s.len(),
{
    let p = s.drop_last();
    if i < s.len() - 1 {
        assert(keys_unique(p));
        assert(p[i] == s[i]);
        lemma_entries_map_value(p, i);
    }
}

pub proof fn lemma_entries_map_len(s: Seq<(String, ModTime)>)
    requires
        keys_unique(s),
    ensures
        entries_map(s).len() == s.len(),
    decreases s.len(),
{
    if s.len() > 0 {
        let p = s.drop_last();
        assert(keys_unique(p));
        lemma_entries_map_len(p);
        lemma_entries_map_dom(p);
        if entries_map(p).contains_key(s.last().0@) {
            let i = choose|i: int| 0 <= i < p.len() && p[i].0@ == s.last().0@;
            assert(s[i] == p[i]);
        }
    }
}

/// The modification times of the scanned application-source directories,
/// keyed by the directory's path.
#[derive(Clone, Debug, PartialEq, Eq)]
pub struct DirTimes {
    pub entries: Vec<(String, ModTime)>,
}

impl View for DirTimes {
    type V = Map<Seq<char>, ModTime>;

    open spec fn view(&self) -> Map<Seq<char>, ModTime> {
        entries_map(self.entries@)
    }
}

impl DirTimes {
    /// Each directory has one entry.
    pub open spec fn wf(&self) -> bool {
        keys_unique(self.entries@)
    }

    /// No directory at all.
    pub fn new() -> (r: DirTimes)
        ensures
            r.wf(),
            r@ == Map::<Seq<char>, ModTime>::empty(),
    {
        DirTimes { entries: Vec::new() }
    }

    /// The number of directories.
    pub fn len(&self) -> (r: usize)
        requires
            self.wf(),
        ensures
            r == self@.len(),
    {
        proof {
            lemma_entries_map_len(self.entries@);
        }
        self.entries.len()
    }

    /// The position of `dir` among the entries, if it has one.
    fn position(&self, dir: &String) -> (r: Option<usize>)
        ensures
            match r {
                Some(i) => i < self.entries.len() && self.entries@[i as int].0@ == dir@,
                None => forall|i: int| 0 <= i < self.entries.len() ==> self.entries@[i].0@ != dir@,
            },
    {
        let mut i: usize = 0;
        while i < self.entries.len()
            invariant
                i <= self.entries.len(),
                forall|j: int| 0 <= j < i ==> self.entries@[j].0@ != dir@,
            decreases self.entries.len() - i,
        {
            if self.entries[i].0 == *dir {
                return Some(i);
            }
            i = i + 1;
        }
        None
    }

    /// The time recorded for `dir`.
    pub fn get(&self, dir: &String) -> (r: Option<ModTime>)
        requires
            self.wf(),
        ensures
            r == (if self@.contains_key(dir@) {
                Some(self@[dir@])
            } else {
                None::<ModTime>
            }),
    {
        proof {
            lemma_entries_map_dom(self.entries@);
        }
        match self.position(dir) {
            Some(i) => {
                proof {
                    lemma_entries_map_value(self.entries@, i as int);
                }
                Some(self.entries[i].1)
            },
            None => None,
        }
    }

    /// Records `time` for `dir`, replacing what was recorded before.
    pub fn insert(&mut self, dir: String, time: ModTime)
        requires
            old(self).wf(),
        ensures
            final(self).wf(),
            final(self)@ == old(self)@.insert(dir@, time),
    {
        let ghost s = self.entries@;
        proof {
            lemma_entries_map_dom(s);
        }
        match self.position(&dir) {
            Some(i) => {
                let ghost key = dir@;
                self.entries.set(i, (dir, time));
                let ghost t = self.entries@;
                assert(keys_unique(t)) by {
                    assert forall|a: int, b: int| 0 <= a < b < t.len() implies t[a].0@ != t[b].0@ by {
                        if a != i && b != i {
                            assert(t[a] == s[a] && t[b] == s[b]);
                        } else if a == i {
                            assert(t[b] == s[b]);
                        } else {
                            assert(t[a] == s[a]);
                        }
                    }
                }
                proof {
                    lemma_entries_map_dom(t);
                    assert forall|k: Seq<char>| #[trigger] entries_map(t).contains_key(k) == entries_map(s).insert(key, time).contains_key(k) by {
                        assert(t[i as int].0@ == key && s[i as int].0@ == key);
                        if exists|j: int| 0 <= j < s.len() && s[j].0@ == k {
                            let j = choose|j: int| 0 <= j < s.len() && s[j].0@ == k;
                            if j != i {
                                assert(t[j] == s[j]);
                            }
                        }
                        if exists|j: int| 0 <= j < t.len() && t[j].0@ == k {
                            let j = choose|j: int| 0 <= j < t.len() && t[j].0@ == k;
                            if j != i {
                                assert(t[j] == s[j]);
                            }
                        }
                    }
                    assert forall|k: Seq<char>| #[trigger] entries_map(t).contains_key(k) implies entries_map(t)[k] == entries_map(s).insert(key, time)[k] by {
                        let j = choose|j: int| 0 <= j < t.len() && t[j].0@ == k;
                        lemma_entries_map_value(t, j);
                        if j != i {
                            assert(t[j] == s[j]);
                            lemma_entries_map_value(s, j);
                        }
                    }
                    assert(entries_map(t) =~= entries_map(s).insert(key, time));
                }
            },
            None => {
                self.entries.push((dir, time));
                proof {
                    assert(self.entries@.drop_last() =~= s);
                }
            },
        }
    }

    /// Collects the directories whose time could be read, each with that time.
    pub fn from_observations(observed: &Vec<(String, Option<ModTime>)>) -> (r: DirTimes)
        ensures
            r.wf(),
            r@ == observed_map(observed@),
    {
        let mut r = DirTimes::new();
        for i in 0..observed.len()
            invariant
                r.wf(),
                r@ == observed_map(observed@.subrange(0, i as int)),
        {
            proof {
                assert(observed@.subrange(0, i + 1).drop_last() =~= observed@.subrange(0, i as int));
            }
            match observed[i].1 {
                Some(t) => r.insert(observed[i].0.clone(), t),
                None => {},
            }
        }
        proof {
            assert(observed@.subrange(0, observed.len() as int) =~= observed@);
        }
        r
    }
}

} // verus!

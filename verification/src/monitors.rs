//! The monitor registry: for each executable at most one live monitor,
//! shared by everyone who holds a reference to it, made on the first
//! reference and torn down with the last.

use vstd::prelude::*;

verus! {

/// What `acquire` asks of its caller.
#[derive(Clone, Copy, Debug, PartialEq, Eq)]
pub enum Acquired {
    /// No monitor was live: the caller makes one.
    Created,
    /// A monitor is live and is shared; nothing is made.
    Shared,
}

/// What `release` asks of its caller.
#[derive(Clone, Copy, Debug, PartialEq, Eq)]
pub enum Released {
    /// The last reference is gone: the caller tears the monitor down.
    TornDown,
    /// Others still hold the monitor; it stays.
    StillShared,
    /// No reference was held; nothing changed.
    NotHeld,
}

/// A monitor cannot take one more reference.
#[derive(Clone, Copy, Debug, PartialEq, Eq)]
pub struct TooManyReferences;

/// How many references `live` holds for `name`; none where no monitor is live.
pub open spec fn count(live: Map<Seq<char>, nat>, name: Seq<char>) -> nat {
    if live.contains_key(name) {
        live[name]
    } else {
        0
    }
}

/// The registry after one more reference to `name`.
pub open spec fn acquired(live: Map<Seq<char>, nat>, name: Seq<char>) -> Map<Seq<char>, nat> {
    live.insert(name, count(live, name) + 1)
}

/// The registry after one reference to `name` is given back.
pub open spec fn released(live: Map<Seq<char>, nat>, name: Seq<char>) -> Map<Seq<char>, nat> {
    if count(live, name) <= 1 {
        live.remove(name)
    } else {
        live.insert(name, (count(live, name) - 1) as nat)
    }
}

/// Whether every live monitor has at least one reference.
pub open spec fn counts_positive(live: Map<Seq<char>, nat>) -> bool {
    forall|name: Seq<char>| live.contains_key(name) ==> #[trigger] live[name] >= 1
}

/// Giving back a reference that was just taken leaves the registry as it
/// was: a monitor made for that reference is torn down again, and one that
/// was shared keeps the references it had.
pub proof fn lemma_release_undoes_acquire(live: Map<Seq<char>, nat>, name: Seq<char>)
    requires
        counts_positive(live),
    ensures
        released(acquired(live, name), name) == live,
{
    assert(released(acquired(live, name), name) =~= live);
}

/// Taking and giving back references keeps every count positive, and
/// changes the count of no other executable.
pub proof fn lemma_transitions_keep_counts(live: Map<Seq<char>, nat>, name: Seq<char>)
    requires
        counts_positive(live),
    ensures
        counts_positive(acquired(live, name)),
        counts_positive(released(live, name)),
        count(acquired(live, name), name) == count(live, name) + 1,
        count(live, name) >= 1 ==> count(released(live, name), name) == count(live, name) - 1,
        count(live, name) == 0 ==> released(live, name) == live,
        forall|other: Seq<char>|
            other != name ==> count(acquired(live, name), other) == count(live, other) && count(
                released(live, name),
                other,
            ) == count(live, other),
{
    if count(live, name) == 0 {
        assert(released(live, name) =~= live);
    }
}

/// The live monitors, by executable name, each with the number of
/// references that it has.
pub struct MonitorRegistry {
    entries: Vec<(String, usize)>,
}

impl View for MonitorRegistry {
    type V = Map<Seq<char>, nat>;

    closed spec fn view(&self) -> Map<Seq<char>, nat> {
        Map::new(
            |name: Seq<char>| exists|i: int| self.holds_at(name, i),
            |name: Seq<char>| self.entries@[self.index_of(name)].1 as nat,
        )
    }
}

impl MonitorRegistry {
    /// Whether the entry at `i` is the monitor of `name`.
    pub closed spec fn holds_at(&self, name: Seq<char>, i: int) -> bool {
        0 <= i < self.entries@.len() && self.entries@[i].0@ == name
    }

    /// An index at which the monitor of `name` is held, where there is one.
    pub closed spec fn index_of(&self, name: Seq<char>) -> int {
        choose|i: int| self.holds_at(name, i)
    }

    /// How many monitors the registry holds for `name`.
    pub closed spec fn handles_for(&self, name: Seq<char>) -> nat {
        Self::handles_among(self.entries@, name, self.entries@.len() as int)
    }

    /// How many of the first `n` entries are monitors of `name`.
    pub closed spec fn handles_among(entries: Seq<(String, usize)>, name: Seq<char>, n: int) -> nat
        decreases n,
    {
        if n <= 0 {
            0
        } else if entries[n - 1].0@ == name {
            Self::handles_among(entries, name, n - 1) + 1
        } else {
            Self::handles_among(entries, name, n - 1)
        }
    }

    /// The registry's invariant: no executable has two monitors, and every
    /// monitor has at least one reference.
    pub closed spec fn wf(&self) -> bool {
        &&& forall|i: int, j: int|
            0 <= i < j < self.entries@.len() ==> (#[trigger] self.entries@[i]).0@ != (
            #[trigger] self.entries@[j]).0@
        &&& forall|i: int| 0 <= i < self.entries@.len() ==> (#[trigger] self.entries@[i]).1 >= 1
    }

    proof fn lemma_holder_is_unique(&self, name: Seq<char>, i: int)
        requires
            self.wf(),
            self.holds_at(name, i),
        ensures
            self.index_of(name) == i,
            self@.contains_key(name),
            self@[name] == self.entries@[i].1,
    {
        let j = self.index_of(name);
        assert(self.holds_at(name, j));
        if i < j {
            assert(self.entries@[i].0@ != self.entries@[j].0@);
        } else if j < i {
            assert(self.entries@[j].0@ != self.entries@[i].0@);
        }
    }

    proof fn lemma_handles_among(entries: Seq<(String, usize)>, name: Seq<char>, n: int)
        requires
            0 <= n <= entries.len(),
            forall|i: int, j: int|
                0 <= i < j < entries.len() ==> (#[trigger] entries[i]).0@ != (
                #[trigger] entries[j]).0@,
        ensures
            Self::handles_among(entries, name, n) <= 1,
            Self::handles_among(entries, name, n) == 1 <==> exists|i: int|
                0 <= i < n && (#[trigger] entries[i]).0@ == name,
        decreases n,
    {
        if n > 0 {
            Self::lemma_handles_among(entries, name, n - 1);
            if entries[n - 1].0@ == name {
                if Self::handles_among(entries, name, n - 1) == 1 {
                    let i = choose|i: int| 0 <= i < n - 1 && (#[trigger] entries[i]).0@ == name;
                    assert(entries[i].0@ != entries[n - 1].0@);
                }
            } else {
                if Self::handles_among(entries, name, n) == 1 {
                    let i = choose|i: int| 0 <= i < n - 1 && (#[trigger] entries[i]).0@ == name;
                    assert(0 <= i < n && entries[i].0@ == name);
                }
                if exists|i: int| 0 <= i < n && (#[trigger] entries[i]).0@ == name {
                    let i = choose|i: int| 0 <= i < n && (#[trigger] entries[i]).0@ == name;
                    assert(0 <= i < n - 1 && entries[i].0@ == name);
                }
            }
        }
    }

    /// The registry never holds more than one monitor for an executable,
    /// however many references there are: it holds exactly one where the
    /// executable has a reference, and none where it has not.
    pub proof fn lemma_one_monitor_per_executable(&self, name: Seq<char>)
        requires
            self.wf(),
        ensures
            self.handles_for(name) <= 1,
            self.handles_for(name) == 1 <==> self@.contains_key(name),
            self@.contains_key(name) <==> count(self@, name) >= 1,
            counts_positive(self@),
    {
        Self::lemma_handles_among(self.entries@, name, self.entries@.len() as int);
        if exists|i: int| 0 <= i < self.entries@.len() && (#[trigger] self.entries@[i]).0@ == name {
            let i = choose|i: int|
                0 <= i < self.entries@.len() && (#[trigger] self.entries@[i]).0@ == name;
            assert(self.holds_at(name, i));
        }
        if self@.contains_key(name) {
            let i = self.index_of(name);
            assert(self.holds_at(name, i));
            assert(self.entries@[i].0@ == name);
        }
        assert forall|n: Seq<char>| self@.contains_key(n) implies #[trigger] self@[n] >= 1 by {
            let i = self.index_of(n);
            assert(self.holds_at(n, i));
        }
    }

    /// A registry without monitors.
    pub fn new() -> (registry: MonitorRegistry)
        ensures
            registry.wf(),
            registry@ == Map::<Seq<char>, nat>::empty(),
    {
        let registry = MonitorRegistry { entries: Vec::new() };
        assert(registry@ =~= Map::<Seq<char>, nat>::empty());
        registry
    }

    fn position(&self, executable: &str) -> (found: Option<usize>)
        ensures
            match found {
                Some(i) => self.holds_at(executable@, i as int),
                None => forall|i: int| !self.holds_at(executable@, i),
            },
    {
        let mut i: usize = 0;
        while i < self.entries.len()
            invariant
                i <= self.entries.len(),
                forall|j: int| 0 <= j < i ==> !self.holds_at(executable@, j),
            decreases self.entries.len() - i,
        {
            if self.entries[i].0.as_str().eq(executable) {
                return Some(i);
            }
            i += 1;
        }
        None
    }

    /// How many references the monitor of `executable` has; 0 where none
    /// is live.
    pub fn references(&self, executable: &str) -> (held: usize)
        requires
            self.wf(),
        ensures
            held == count(self@, executable@),
    {
        match self.position(executable) {
            Some(i) => {
                proof {
                    self.lemma_holder_is_unique(executable@, i as int);
                }
                self.entries[i].1
            },
            None => 0,
        }
    }

    /// Whether a monitor is live for `executable`.
    pub fn is_live(&self, executable: &str) -> (live: bool)
        requires
            self.wf(),
        ensures
            live == self@.contains_key(executable@),
    {
        self.position(executable).is_some()
    }

    /// Takes one reference to the monitor of `executable`. The first
    /// reference makes the monitor; every later one shares it.
    pub fn acquire(&mut self, executable: &str) -> (outcome: Result<Acquired, TooManyReferences>)
        requires
            old(self).wf(),
        ensures
            final(self).wf(),
            match outcome {
                Ok(Acquired::Created) => {
                    &&& !old(self)@.contains_key(executable@)
                    &&& final(self)@ == acquired(old(self)@, executable@)
                },
                Ok(Acquired::Shared) => {
                    &&& old(self)@.contains_key(executable@)
                    &&& old(self)@[executable@] < usize::MAX
                    &&& final(self)@ == acquired(old(self)@, executable@)
                },
                Err(_) => {
                    &&& old(self)@.contains_key(executable@)
                    &&& old(self)@[executable@] == usize::MAX
                    &&& final(self)@ == old(self)@
                },
            },
    {
        let ghost before = *self;
        match self.position(executable) {
            Some(i) => {
                proof {
                    before.lemma_holder_is_unique(executable@, i as int);
                }
                let held = self.entries[i].1;
                if held == usize::MAX {
                    return Err(TooManyReferences);
                }
                let name = self.entries[i].0.clone();
                self.entries.set(i, (name, held + 1));
                proof {
                    let after = *self;
                    assert forall|n: Seq<char>, j: int| after.holds_at(n, j) == before.holds_at(
                        n,
                        j,
                    ) by {}
                    assert(after.wf()) by {
                        assert forall|a: int, b: int|
                            0 <= a < b < after.entries@.len() implies (
                        #[trigger] after.entries@[a]).0@ != (#[trigger] after.entries@[b]).0@ by {
                            assert(before.entries@[a].0@ != before.entries@[b].0@);
                        }
                    }
                    assert forall|n: Seq<char>| #[trigger]
                        after@.contains_key(n) == acquired(before@, executable@).contains_key(
                            n,
                        ) by {
                        if before@.contains_key(n) {
                            let j = before.index_of(n);
                            assert(after.holds_at(n, j));
                        }
                        if after@.contains_key(n) {
                            let j = after.index_of(n);
                            assert(before.holds_at(n, j));
                        }
                        if n == executable@ {
                            assert(after.holds_at(n, i as int));
                        }
                    }
                    assert forall|n: Seq<char>| #[trigger] after@.contains_key(n) implies after@[n]
                        == acquired(before@, executable@)[n] by {
                        let j = after.index_of(n);
                        assert(after.holds_at(n, j));
                        assert(before.holds_at(n, j));
                        after.lemma_holder_is_unique(n, j);
                        before.lemma_holder_is_unique(n, j);
                    }
                    assert(after@ =~= acquired(before@, executable@));
                }
                Ok(Acquired::Shared)
            },
            None => {
                self.entries.push((executable.to_owned(), 1));
                proof {
                    let after = *self;
                    let last = before.entries@.len() as int;
                    assert(after.holds_at(executable@, last));
                    assert forall|n: Seq<char>, j: int| before.holds_at(n, j) implies after.holds_at(
                        n,
                        j,
                    ) by {}
                    assert(after.wf()) by {
                        assert forall|a: int, b: int|
                            0 <= a < b < after.entries@.len() implies (
                        #[trigger] after.entries@[a]).0@ != (#[trigger] after.entries@[b]).0@ by {
                            if b == last {
                                assert(!before.holds_at(executable@, a));
                            } else {
                                assert(before.entries@[a].0@ != before.entries@[b].0@);
                            }
                        }
                    }
                    assert(!before@.contains_key(executable@));
                    assert forall|n: Seq<char>| #[trigger]
                        after@.contains_key(n) == acquired(before@, executable@).contains_key(
                            n,
                        ) by {
                        if before@.contains_key(n) {
                            let j = before.index_of(n);
                            assert(after.holds_at(n, j));
                        }
                        if after@.contains_key(n) && n != executable@ {
                            let j = after.index_of(n);
                            assert(before.holds_at(n, j));
                        }
                    }
                    assert forall|n: Seq<char>| #[trigger] after@.contains_key(n) implies after@[n]
                        == acquired(before@, executable@)[n] by {
                        let j = after.index_of(n);
                        assert(after.holds_at(n, j));
                        after.lemma_holder_is_unique(n, j);
                        if n != executable@ {
                            assert(before.holds_at(n, j));
                            before.lemma_holder_is_unique(n, j);
                        } else {
                            after.lemma_holder_is_unique(n, last);
                        }
                    }
                    assert(after@ =~= acquired(before@, executable@));
                }
                Ok(Acquired::Created)
            },
        }
    }

    /// Gives back one reference to the monitor of `executable`. The last
    /// reference takes the monitor with it.
    pub fn release(&mut self, executable: &str) -> (outcome: Released)
        requires
            old(self).wf(),
        ensures
            final(self).wf(),
            final(self)@ == released(old(self)@, executable@),
            match outcome {
                Released::TornDown => count(old(self)@, executable@) == 1,
                Released::StillShared => count(old(self)@, executable@) > 1,
                Released::NotHeld => count(old(self)@, executable@) == 0,
            },
    {
        let ghost before = *self;
        proof {
            before.lemma_one_monitor_per_executable(executable@);
        }
        match self.position(executable) {
            Some(i) => {
                proof {
                    before.lemma_holder_is_unique(executable@, i as int);
                }
                let held = self.entries[i].1;
                if held > 1 {
                    let name = self.entries[i].0.clone();
                    self.entries.set(i, (name, held - 1));
                    proof {
                        let after = *self;
                        assert forall|n: Seq<char>, j: int| after.holds_at(n, j) == before.holds_at(
                            n,
                            j,
                        ) by {}
                        assert(after.wf()) by {
                            assert forall|a: int, b: int|
                                0 <= a < b < after.entries@.len() implies (
                            #[trigger] after.entries@[a]).0@ != (
                            #[trigger] after.entries@[b]).0@ by {
                                assert(before.entries@[a].0@ != before.entries@[b].0@);
                            }
                        }
                        assert forall|n: Seq<char>| #[trigger]
                            after@.contains_key(n) == released(before@, executable@).contains_key(
                                n,
                            ) by {
                            if before@.contains_key(n) {
                                let j = before.index_of(n);
                                assert(after.holds_at(n, j));
                            }
                            if after@.contains_key(n) {
                                let j = after.index_of(n);
                                assert(before.holds_at(n, j));
                            }
                        }
                        assert forall|n: Seq<char>| #[trigger]
                            after@.contains_key(n) implies after@[n] == released(
                            before@,
                            executable@,
                        )[n] by {
                            let j = after.index_of(n);
                            assert(after.holds_at(n, j));
                            assert(before.holds_at(n, j));
                            after.lemma_holder_is_unique(n, j);
                            before.lemma_holder_is_unique(n, j);
                        }
                        assert(after@ =~= released(before@, executable@));
                    }
                    Released::StillShared
                } else {
                    self.entries.remove(i);
                    proof {
                        let after = *self;
                        assert forall|j: int| 0 <= j < after.entries@.len() implies (
                        #[trigger] after.entries@[j]) == before.entries@[if j < i {
                            j
                        } else {
                            j + 1
                        }] by {}
                        assert(after.wf()) by {
                            assert forall|a: int, b: int|
                                0 <= a < b < after.entries@.len() implies (
                            #[trigger] after.entries@[a]).0@ != (
                            #[trigger] after.entries@[b]).0@ by {
                                let a0 = if a < i {
                                    a
                                } else {
                                    a + 1
                                };
                                let b0 = if b < i {
                                    b
                                } else {
                                    b + 1
                                };
                                assert(before.entries@[a0].0@ != before.entries@[b0].0@);
                            }
                            assert forall|a: int| 0 <= a < after.entries@.len() implies (
                            #[trigger] after.entries@[a]).1 >= 1 by {
                                let a0 = if a < i {
                                    a
                                } else {
                                    a + 1
                                };
                                assert(before.entries@[a0].1 >= 1);
                            }
                        }
                        assert forall|n: Seq<char>| #[trigger]
                            after@.contains_key(n) == released(before@, executable@).contains_key(
                                n,
                            ) by {
                            if before@.contains_key(n) && n != executable@ {
                                let j = before.index_of(n);
                                assert(before.holds_at(n, j));
                                assert(j != i);
                                let k = if j < i {
                                    j
                                } else {
                                    j - 1
                                };
                                assert(after.holds_at(n, k));
                            }
                            if after@.contains_key(n) {
                                let j = after.index_of(n);
                                assert(after.holds_at(n, j));
                                let k = if j < i {
                                    j
                                } else {
                                    j + 1
                                };
                                assert(before.holds_at(n, k));
                                if n == executable@ {
                                    before.lemma_holder_is_unique(n, k);
                                }
                            }
                        }
                        assert forall|n: Seq<char>| #[trigger]
                            after@.contains_key(n) implies after@[n] == released(
                            before@,
                            executable@,
                        )[n] by {
                            let j = after.index_of(n);
                            assert(after.holds_at(n, j));
                            let k = if j < i {
                                j
                            } else {
                                j + 1
                            };
                            assert(before.holds_at(n, k));
                            after.lemma_holder_is_unique(n, j);
                            before.lemma_holder_is_unique(n, k);
                        }
                        assert(after@ =~= released(before@, executable@));
                    }
                    Released::TornDown
                }
            },
            None => {
                proof {
                    assert(!before@.contains_key(executable@));
                    assert(released(before@, executable@) =~= before@);
                }
                Released::NotHeld
            },
        }
    }
}

} // verus!

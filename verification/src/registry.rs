//! The registry of process names: each name stands for at most one process.

use vstd::prelude::*;

use crate::term::Atom;

verus! {

/// The process registered under `name` in `entries`, the first entry of
/// that name deciding.
pub open spec fn lookup(entries: Seq<(Seq<char>, u64)>, name: Seq<char>) -> Option<u64>
    decreases entries.len(),
{
    if entries.len() == 0 {
        None
    } else if entries[0].0 == name {
        Some(entries[0].1)
    } else {
        lookup(entries.drop_first(), name)
    }
}

/// No name occurs twice.
pub open spec fn names_unique(entries: Seq<(Seq<char>, u64)>) -> bool {
    forall|i: int, j: int|
        0 <= i < entries.len() && 0 <= j < entries.len() && i != j ==> #[trigger] entries[i].0
            != #[trigger] entries[j].0
}

/// A name found at `i` is what the lookup gives.
proof fn lemma_lookup_at(entries: Seq<(Seq<char>, u64)>, i: int)
    requires
        names_unique(entries),
        0 <= i < entries.len(),
    ensures
        lookup(entries, entries[i].0) == Some(entries[i].1),
    decreases entries.len(),
{
    if i > 0 {
        assert(entries[0].0 != entries[i].0);
        let rest = entries.drop_first();
        assert(names_unique(rest)) by {
            assert forall|a: int, b: int|
                0 <= a < rest.len() && 0 <= b < rest.len() && a != b implies #[trigger] rest[a].0
                != #[trigger] rest[b].0 by {
                assert(rest[a] == entries[a + 1]);
                assert(rest[b] == entries[b + 1]);
            }
        }
        lemma_lookup_at(rest, i - 1);
    }
}

/// A name found nowhere looks up to nothing.
proof fn lemma_lookup_absent(entries: Seq<(Seq<char>, u64)>, name: Seq<char>)
    requires
        forall|i: int| 0 <= i < entries.len() ==> #[trigger] entries[i].0 != name,
    ensures
        lookup(entries, name) is None,
    decreases entries.len(),
{
    if entries.len() > 0 {
        assert(entries[0].0 != name);
        let rest = entries.drop_first();
        assert forall|i: int| 0 <= i < rest.len() implies #[trigger] rest[i].0 != name by {
            assert(rest[i] == entries[i + 1]);
        }
        lemma_lookup_absent(rest, name);
    }
}

/// The lookup finds a name exactly when some entry has it.
proof fn lemma_lookup_found(entries: Seq<(Seq<char>, u64)>, name: Seq<char>)
    requires
        names_unique(entries),
    ensures
        lookup(entries, name) is Some ==> exists|i: int|
            0 <= i < entries.len() && #[trigger] entries[i].0 == name && lookup(entries, name)
                == Some(entries[i].1),
{
    if lookup(entries, name) is Some {
        if forall|i: int| 0 <= i < entries.len() ==> #[trigger] entries[i].0 != name {
            lemma_lookup_absent(entries, name);
        }
        let i = choose|i: int| 0 <= i < entries.len() && #[trigger] entries[i].0 == name;
        lemma_lookup_at(entries, i);
    }
}

/// Registered names of processes.
pub struct Registry {
    entries: Vec<(String, u64)>,
}

impl Registry {
    /// The entries, by the names' characters.
    pub closed spec fn entries(&self) -> Seq<(Seq<char>, u64)> {
        self.entries@.map_values(|e: (String, u64)| (e.0@, e.1))
    }

    /// The process registered under a name.
    pub open spec fn registered(&self, name: Seq<char>) -> Option<u64> {
        lookup(self.entries(), name)
    }

    /// No name is registered twice.
    #[verifier::type_invariant]
    closed spec fn wf(&self) -> bool {
        names_unique(self.entries())
    }

    /// The empty registry.
    pub fn new() -> (r: Registry)
        ensures
            forall|name: Seq<char>| r.registered(name) is None,
    {
        let r = Registry { entries: Vec::new() };
        assert(r.entries() =~= Seq::<(Seq<char>, u64)>::empty());
        r
    }

    /// The index of the entry of the given name.
    fn find(&self, name: &Atom) -> (r: Option<usize>)
        ensures
            match r {
                Some(i) => i < self.entries().len() && self.entries()[i as int].0 == name.name@,
                None => forall|i: int|
                    0 <= i < self.entries().len() ==> #[trigger] self.entries()[i].0 != name.name@,
            },
    {
        let mut i: usize = 0;
        while i < self.entries.len()
            invariant
                0 <= i <= self.entries.len(),
                self.entries().len() == self.entries@.len(),
                forall|k: int| 0 <= k < i ==> #[trigger] self.entries()[k].0 != name.name@,
            decreases self.entries.len() - i,
        {
            if self.entries[i].0 == name.name {
                return Some(i);
            }
            i = i + 1;
        }
        None
    }

    /// The process registered under `name`.
    pub fn atom_to_pid(&self, name: &Atom) -> (r: Option<u64>)
        ensures
            r == self.registered(name.name@),
    {
        proof {
            use_type_invariant(self);
        }
        match self.find(name) {
            Some(i) => {
                proof {
                    lemma_lookup_at(self.entries(), i as int);
                }
                Some(self.entries[i].1)
            },
            None => {
                proof {
                    lemma_lookup_absent(self.entries(), name.name@);
                }
                None
            },
        }
    }

    /// Registers `pid` under `name`, unless the name is taken; says whether
    /// it registered it.
    pub fn register(&mut self, name: Atom, pid: u64) -> (r: bool)
        ensures
            r == old(self).registered(name.name@) is None,
            forall|n: Seq<char>| #[trigger]
                final(self).registered(n) == if r && n == name.name@ {
                    Some(pid)
                } else {
                    old(self).registered(n)
                },
    {
        proof {
            use_type_invariant(&*self);
        }
        match self.find(&name) {
            Some(i) => {
                proof {
                    lemma_lookup_at(self.entries(), i as int);
                }
                false
            },
            None => {
                proof {
                    lemma_lookup_absent(self.entries(), name.name@);
                }
                let ghost before = self.entries();
                let ghost key = name.name@;
                let mut entries: Vec<(String, u64)> = Vec::new();
                std::mem::swap(&mut entries, &mut self.entries);
                entries.push((name.name, pid));
                let ghost after = entries@.map_values(|e: (String, u64)| (e.0@, e.1));
                proof {
                    assert(after =~= before.push((key, pid)));
                    assert forall|n: Seq<char>| #[trigger]
                        lookup(after, n) == if n == key {
                            Some(pid)
                        } else {
                            lookup(before, n)
                        } by {
                        lemma_lookup_push(before, key, pid, n);
                    }
                }
                self.entries = entries;
                true
            },
        }
    }

    /// Removes the registration of `name`; says whether there was one.
    pub fn unregister(&mut self, name: &Atom) -> (r: bool)
        ensures
            r == old(self).registered(name.name@) is Some,
            forall|n: Seq<char>| #[trigger]
                final(self).registered(n) == if n == name.name@ {
                    None
                } else {
                    old(self).registered(n)
                },
    {
        proof {
            use_type_invariant(&*self);
        }
        match self.find(name) {
            Some(i) => {
                proof {
                    lemma_lookup_at(self.entries(), i as int);
                }
                let ghost before = self.entries();
                let mut entries: Vec<(String, u64)> = Vec::new();
                std::mem::swap(&mut entries, &mut self.entries);
                let _ = entries.remove(i);
                let ghost after = entries@.map_values(|e: (String, u64)| (e.0@, e.1));
                proof {
                    assert(after =~= before.remove(i as int));
                    lemma_lookup_remove(before, i as int);
                }
                self.entries = entries;
                true
            },
            None => {
                proof {
                    lemma_lookup_absent(self.entries(), name.name@);
                }
                false
            },
        }
    }
}

/// Registering a free name and then unregistering it gives back the
/// registrations as they were.
pub proof fn law_register_then_unregister(
    start: Registry,
    registered: Registry,
    unregistered: Registry,
    name: Seq<char>,
    pid: u64,
)
    requires
        start.registered(name) is None,
        forall|n: Seq<char>| #[trigger]
            registered.registered(n) == if n == name {
                Some(pid)
            } else {
                start.registered(n)
            },
        forall|n: Seq<char>| #[trigger]
            unregistered.registered(n) == if n == name {
                None
            } else {
                registered.registered(n)
            },
    ensures
        forall|n: Seq<char>| #[trigger] unregistered.registered(n) == start.registered(n),
{
    assert forall|n: Seq<char>| #[trigger] unregistered.registered(n) == start.registered(n) by {
        if n != name {
            assert(registered.registered(n) == start.registered(n));
        }
    }
}

/// Appending a fresh name adds exactly that name.
proof fn lemma_lookup_push(entries: Seq<(Seq<char>, u64)>, key: Seq<char>, pid: u64, n: Seq<char>)
    requires
        names_unique(entries),
        forall|i: int| 0 <= i < entries.len() ==> #[trigger] entries[i].0 != key,
    ensures
        names_unique(entries.push((key, pid))),
        lookup(entries.push((key, pid)), n) == if n == key {
            Some(pid)
        } else {
            lookup(entries, n)
        },
    decreases entries.len(),
{
    let pushed = entries.push((key, pid));
    assert(names_unique(pushed)) by {
        assert forall|a: int, b: int|
            0 <= a < pushed.len() && 0 <= b < pushed.len() && a != b implies #[trigger] pushed[a].0
            != #[trigger] pushed[b].0 by {
            if a < entries.len() && b < entries.len() {
                assert(pushed[a] == entries[a]);
                assert(pushed[b] == entries[b]);
            } else if a < entries.len() {
                assert(pushed[a] == entries[a]);
            } else if b < entries.len() {
                assert(pushed[b] == entries[b]);
            }
        }
    }
    if entries.len() > 0 {
        let rest = entries.drop_first();
        assert(names_unique(rest)) by {
            assert forall|a: int, b: int|
                0 <= a < rest.len() && 0 <= b < rest.len() && a != b implies #[trigger] rest[a].0
                != #[trigger] rest[b].0 by {
                assert(rest[a] == entries[a + 1]);
                assert(rest[b] == entries[b + 1]);
            }
        }
        assert forall|i: int| 0 <= i < rest.len() implies #[trigger] rest[i].0 != key by {
            assert(rest[i] == entries[i + 1]);
        }
        lemma_lookup_push(rest, key, pid, n);
        assert(pushed.drop_first() =~= rest.push((key, pid)));
        assert(pushed[0] == entries[0]);
        assert(entries[0].0 != key);
    } else {
        assert(pushed.drop_first() =~= Seq::<(Seq<char>, u64)>::empty());
        assert(pushed[0] == (key, pid));
        assert(lookup(pushed.drop_first(), n) is None);
        assert(lookup(entries, n) is None);
    }
}

/// Removing the entry at `i` removes exactly its name.
proof fn lemma_lookup_remove(entries: Seq<(Seq<char>, u64)>, i: int)
    requires
        names_unique(entries),
        0 <= i < entries.len(),
    ensures
        names_unique(entries.remove(i)),
        forall|n: Seq<char>| #[trigger]
            lookup(entries.remove(i), n) == if n == entries[i].0 {
                None
            } else {
                lookup(entries, n)
            },
{
    let removed = entries.remove(i);
    assert forall|a: int| 0 <= a < removed.len() implies #[trigger] removed[a] == (if a < i {
        entries[a]
    } else {
        entries[a + 1]
    }) by {}
    assert(names_unique(removed)) by {
        assert forall|a: int, b: int|
            0 <= a < removed.len() && 0 <= b < removed.len() && a != b implies #[trigger] removed[a].0
            != #[trigger] removed[b].0 by {
            let ea = if a < i {
                a
            } else {
                a + 1
            };
            let eb = if b < i {
                b
            } else {
                b + 1
            };
            assert(removed[a] == entries[ea]);
            assert(removed[b] == entries[eb]);
        }
    }
    assert forall|n: Seq<char>| #[trigger]
        lookup(removed, n) == if n == entries[i].0 {
            None
        } else {
            lookup(entries, n)
        } by {
        if n == entries[i].0 {
            assert forall|a: int| 0 <= a < removed.len() implies #[trigger] removed[a].0 != n by {
                let ea = if a < i {
                    a
                } else {
                    a + 1
                };
                assert(removed[a] == entries[ea]);
            }
            lemma_lookup_absent(removed, n);
        } else {
            lemma_lookup_found(entries, n);
            lemma_lookup_found(removed, n);
            if lookup(entries, n) is Some {
                let k = choose|k: int|
                    0 <= k < entries.len() && #[trigger] entries[k].0 == n && lookup(entries, n)
                        == Some(entries[k].1);
                let rk = if k < i {
                    k
                } else {
                    k - 1
                };
                assert(removed[rk] == entries[k]);
                lemma_lookup_at(removed, rk);
            } else {
                if lookup(removed, n) is Some {
                    let k = choose|k: int|
                        0 <= k < removed.len() && #[trigger] removed[k].0 == n && lookup(removed, n)
                            == Some(removed[k].1);
                    let ek = if k < i {
                        k
                    } else {
                        k + 1
                    };
                    assert(removed[k] == entries[ek]);
                    lemma_lookup_at(entries, ek);
                }
            }
        }
    }
}

} // verus!

//! Which process last wrote the output of which session.

use vstd::prelude::*;

use crate::text;

verus! {

/// The process of each session. No session stands in it twice.
pub struct SessionTable {
    entries: Vec<(String, u32)>,
}

/// The process that stands beside `session` last.
pub closed spec fn last_entry(entries: Seq<(String, u32)>, session: Seq<char>) -> Option<u32>
    decreases entries.len(),
{
    if entries.len() == 0 {
        None
    } else if entries.last().0@ == session {
        Some(entries.last().1)
    } else {
        last_entry(entries.drop_last(), session)
    }
}

proof fn lemma_pushed(entries: Seq<(String, u32)>, e: (String, u32), session: Seq<char>)
    ensures
        last_entry(entries.push(e), session) == (if e.0@ == session {
            Some(e.1)
        } else {
            last_entry(entries, session)
        }),
{
    assert(entries.push(e).drop_last() =~= entries);
}

/// What is found beside a session stands there.
proof fn lemma_found(entries: Seq<(String, u32)>, session: Seq<char>) -> (i: int)
    ensures
        last_entry(entries, session) is Some ==> 0 <= i < entries.len() && entries[i].0@ == session
            && entries[i].1 == last_entry(entries, session)->0,
    decreases entries.len(),
{
    if entries.len() > 0 && entries.last().0@ != session {
        lemma_found(entries.drop_last(), session)
    } else {
        entries.len() - 1
    }
}

/// Where no session stands twice, each entry is what is found.
proof fn lemma_unique(entries: Seq<(String, u32)>, i: int)
    requires
        distinct(entries),
        0 <= i < entries.len(),
    ensures
        last_entry(entries, entries[i].0@) == Some(entries[i].1),
    decreases entries.len(),
{
    if i < entries.len() - 1 {
        assert(entries.last().0@ != entries[i].0@);
        assert(entries.drop_last()[i] == entries[i]);
        assert(distinct(entries.drop_last()));
        lemma_unique(entries.drop_last(), i);
    }
}

pub closed spec fn distinct(entries: Seq<(String, u32)>) -> bool {
    forall|i: int, j: int|
        0 <= i < j < entries.len() ==> (#[trigger] entries[i]).0@ != (#[trigger] entries[j]).0@
}

impl View for SessionTable {
    type V = Map<Seq<char>, u32>;

    closed spec fn view(&self) -> Map<Seq<char>, u32> {
        Map::new(
            |s: Seq<char>| last_entry(self.entries@, s) is Some,
            |s: Seq<char>| last_entry(self.entries@, s)->0,
        )
    }
}

/// What stays of a table when the processes in `alive` are left: their sessions,
/// and `kept`.
pub open spec fn surviving(
    owners: Map<Seq<char>, u32>,
    alive: Set<u32>,
    kept: Option<Seq<char>>,
) -> Map<Seq<char>, u32> {
    Map::new(
        |s: Seq<char>| owners.contains_key(s) && (alive.contains(owners[s]) || kept == Some(s)),
        |s: Seq<char>| owners[s],
    )
}

fn among(pids: &[u32], pid: u32) -> (r: bool)
    ensures
        r == pids@.to_set().contains(pid),
{
    let mut i: usize = 0;
    while i < pids.len()
        invariant
            i <= pids@.len(),
            forall|j: int| 0 <= j < i ==> pids@[j] != pid,
        decreases pids.len() - i,
    {
        if pids[i] == pid {
            assert(pids@.contains(pids@[i as int]));
            return true;
        }
        i = i + 1;
    }
    false
}

impl SessionTable {
    #[verifier::type_invariant]
    spec fn valid(self) -> bool {
        distinct(self.entries@)
    }

    pub fn new() -> (t: Self)
        ensures
            t@ == Map::<Seq<char>, u32>::empty(),
    {
        let t = SessionTable { entries: Vec::new() };
        assert(t@ =~= Map::empty());
        t
    }

    /// The process of a session, where one is known.
    pub fn get(&self, session: &str) -> (r: Option<u32>)
        ensures
            r == self@.get(session@),
    {
        let mut i: usize = self.entries.len();
        assert(self.entries@.take(i as int) =~= self.entries@);
        while i > 0
            invariant
                i <= self.entries@.len(),
                last_entry(self.entries@, session@) == last_entry(
                    self.entries@.take(i as int),
                    session@,
                ),
            decreases i,
        {
            assert(self.entries@.take(i as int).drop_last() =~= self.entries@.take(i - 1));
            if text::same(self.entries[i - 1].0.as_str(), session) {
                return Some(self.entries[i - 1].1);
            }
            i = i - 1;
        }
        None
    }

    /// The table without the entries whose process is not in `alive`, save that
    /// of the session `kept`; and without `dropped` in any case.
    fn rebuilt(&self, alive: Option<&[u32]>, kept: Option<&str>, dropped: Option<&str>) -> (out: Vec<(
        String,
        u32,
    )>)
        ensures
            distinct(out@),
            forall|s: Seq<char>| #[trigger]
                last_entry(out@, s) == (if !(dropped is Some && dropped->0@ == s) && self@.contains_key(s) && (
                alive is None || alive->0@.to_set().contains(self@[s]) || (kept is Some && kept->0@ == s)) {
                    Some(self@[s])
                } else {
                    None
                }),
    {
        proof {
            use_type_invariant(self);
        }
        let mut out: Vec<(String, u32)> = Vec::new();
        let mut i: usize = 0;
        while i < self.entries.len()
            invariant
                i <= self.entries@.len(),
                distinct(self.entries@),
                distinct(out@),
                forall|j: int|
                    0 <= j < out@.len() ==> exists|k: int|
                        0 <= k < i && (#[trigger] self.entries@[k]).0@ == (#[trigger] out@[j]).0@,
                forall|s: Seq<char>| #[trigger]
                    last_entry(out@, s) == (match last_entry(self.entries@.take(i as int), s) {
                        Some(pid) => if !(dropped is Some && dropped->0@ == s) && (alive is None
                            || alive->0@.to_set().contains(pid) || (kept is Some && kept->0@ == s)) {
                            Some(pid)
                        } else {
                            None
                        },
                        None => None,
                    }),
            decreases self.entries.len() - i,
        {
            let ghost before = out@;
            let session: &str = self.entries[i].0.as_str();
            let pid: u32 = self.entries[i].1;
            let gone: bool = match dropped {
                Some(d) => text::same(d, session),
                None => false,
            };
            let held: bool = match alive {
                Some(pids) => among(pids, pid),
                None => true,
            };
            let spared: bool = match kept {
                Some(k) => text::same(k, session),
                None => false,
            };
            proof {
                let e = self.entries@[i as int];
                let seen = self.entries@.take(i as int);
                assert(self.entries@.take(i + 1) =~= seen.push(e));
                assert forall|s: Seq<char>|
                    last_entry(self.entries@.take(i + 1), s) == (if e.0@ == s {
                        Some(e.1)
                    } else {
                        last_entry(seen, s)
                    }) by {
                    lemma_pushed(seen, e, s);
                }
                assert(last_entry(seen, e.0@) is None) by {
                    let k = lemma_found(seen, e.0@);
                    if last_entry(seen, e.0@) is Some {
                        assert(self.entries@[k].0@ != self.entries@[i as int].0@);
                    }
                }
            }
            if !gone && (held || spared) {
                let name: String = self.entries[i].0.clone();
                out.push((name, pid));
                proof {
                    let e = out@.last();
                    assert(out@ =~= before.push(e));
                    assert forall|s: Seq<char>|
                        last_entry(out@, s) == (if e.0@ == s {
                            Some(e.1)
                        } else {
                            last_entry(before, s)
                        }) by {
                        lemma_pushed(before, e, s);
                    }
                    assert(self.entries@[i as int].0@ == e.0@);
                }
            }
            i = i + 1;
        }
        assert(self.entries@.take(self.entries@.len() as int) =~= self.entries@);
        out
    }

    /// Puts a process beside a session, in place of an earlier one.
    pub fn insert(&mut self, session: String, pid: u32)
        ensures
            final(self)@ == old(self)@.insert(session@, pid),
    {
        let ghost before = self@;
        let mut out: Vec<(String, u32)> = self.rebuilt(None, None, Some(session.as_str()));
        let ghost rest = out@;
        let ghost name = session@;
        out.push((session, pid));
        proof {
            assert forall|s: Seq<char>|
                last_entry(out@, s) == (if name == s {
                    Some(pid)
                } else {
                    last_entry(rest, s)
                }) by {
                lemma_pushed(rest, out@.last(), s);
            }
            assert forall|i: int, j: int| 0 <= i < j < out@.len() implies (#[trigger] out@[i]).0@ != (
            #[trigger] out@[j]).0@ by {
                if j == rest.len() {
                    assert(last_entry(rest, name) is None);
                    assert(out@[i] == rest[i]);
                    lemma_unique(rest, i);
                } else {
                    assert(out@[i] == rest[i] && out@[j] == rest[j]);
                }
            }
        }
        self.entries = out;
        assert(self@ =~= before.insert(name, pid));
    }

    /// Forgets the sessions whose process is gone, save `kept`.
    pub fn retain(&mut self, alive: &[u32], kept: Option<&str>)
        ensures
            final(self)@ == surviving(
                old(self)@,
                alive@.to_set(),
                (match kept {
                    Some(s) => Some(s@),
                    None => None,
                }),
            ),
    {
        let ghost before = self@;
        let out: Vec<(String, u32)> = self.rebuilt(Some(alive), kept, None);
        self.entries = out;
        assert(self@ =~= surviving(
            before,
            alive@.to_set(),
            (match kept {
                Some(s) => Some(s@),
                None => None,
            }),
        ));
    }
}

} // verus!

//! The in-memory process table: the map from application name to the live OS
//! process believed to be running for it. Absence from the table is the
//! definition of "not running". The table never holds two entries with the
//! same name, and every recorded process id is positive.

use vstd::prelude::*;

verus! {

/// One live OS process bound to an application name.
pub struct ProcessEntry {
    pub name: String,
    pub pid: i32,
}

/// The mathematical value of a `ProcessEntry`.
pub struct ProcessEntryView {
    pub name: Seq<char>,
    pub pid: int,
}

impl View for ProcessEntry {
    type V = ProcessEntryView;

    open spec fn view(&self) -> ProcessEntryView {
        ProcessEntryView { name: self.name@, pid: self.pid as int }
    }
}

impl DeepView for ProcessEntry {
    type V = ProcessEntryView;

    open spec fn deep_view(&self) -> ProcessEntryView {
        self.view()
    }
}

/// Well-formedness of the table: no two entries share a name, and every
/// process id is one the OS could have issued.
pub open spec fn table_wf(t: Seq<ProcessEntryView>) -> bool {
    &&& forall|i: int, j: int| 0 <= i < j < t.len() ==> t[i].name != t[j].name
    &&& forall|i: int| 0 <= i < t.len() ==> 1 <= #[trigger] t[i].pid <= i32::MAX
}

/// Some entry of the table bears this name.
pub open spec fn table_has(t: Seq<ProcessEntryView>, name: Seq<char>) -> bool {
    exists|i: int| 0 <= i < t.len() && t[i].name == name
}

/// The table with the first entry of this name removed.
pub open spec fn remove_spec(t: Seq<ProcessEntryView>, name: Seq<char>) -> Seq<ProcessEntryView>
    decreases t.len(),
{
    if t.len() == 0 {
        Seq::empty()
    } else if t[0].name == name {
        t.drop_first()
    } else {
        seq![t[0]] + remove_spec(t.drop_first(), name)
    }
}

/// When the name stands first at index `i`, removal cuts that index out.
pub proof fn lemma_remove_at(t: Seq<ProcessEntryView>, name: Seq<char>, i: int)
    requires
        0 <= i < t.len(),
        t[i].name == name,
        forall|j: int| 0 <= j < i ==> t[j].name != name,
    ensures
        remove_spec(t, name) == t.remove(i),
    decreases t.len(),
{
    if i == 0 {
        assert(t.drop_first() =~= t.remove(0));
    } else {
        assert(t.drop_first()[i - 1] == t[i]);
        assert forall|j: int| 0 <= j < i - 1 implies t.drop_first()[j].name != name by {
            assert(t.drop_first()[j] == t[j + 1]);
        }
        lemma_remove_at(t.drop_first(), name, i - 1);
        assert(seq![t[0]] + t.drop_first().remove(i - 1) =~= t.remove(i));
    }
}

/// When the name is absent, removal changes nothing.
pub proof fn lemma_remove_absent(t: Seq<ProcessEntryView>, name: Seq<char>)
    requires
        forall|j: int| 0 <= j < t.len() ==> t[j].name != name,
    ensures
        remove_spec(t, name) == t,
    decreases t.len(),
{
    if t.len() == 0 {
        assert(remove_spec(t, name) =~= t);
    } else {
        assert forall|j: int| 0 <= j < t.drop_first().len() implies t.drop_first()[j].name
            != name by {
            assert(t.drop_first()[j] == t[j + 1]);
        }
        lemma_remove_absent(t.drop_first(), name);
        assert(seq![t[0]] + t.drop_first() =~= t);
    }
}

/// Removal keeps the table well-formed and takes the name out.
pub proof fn lemma_remove_wf(t: Seq<ProcessEntryView>, name: Seq<char>, i: int)
    requires
        table_wf(t),
        0 <= i < t.len(),
        t[i].name == name,
        forall|j: int| 0 <= j < i ==> t[j].name != name,
    ensures
        table_wf(t.remove(i)),
        !table_has(t.remove(i), name),
        forall|n: Seq<char>|
            n != name ==> (#[trigger] table_has(t.remove(i), n) <==> table_has(t, n)),
{
    let r = t.remove(i);
    assert forall|p: int, q: int| 0 <= p < q < r.len() implies r[p].name != r[q].name by {
        assert(r[p] == if p < i {
            t[p]
        } else {
            t[p + 1]
        });
        assert(r[q] == if q < i {
            t[q]
        } else {
            t[q + 1]
        });
    }
    assert forall|j: int| 0 <= j < r.len() implies r[j].name != name by {
        assert(r[j] == if j < i {
            t[j]
        } else {
            t[j + 1]
        });
    }
    assert forall|n: Seq<char>| n != name implies (#[trigger] table_has(r, n) <==> table_has(
        t,
        n,
    )) by {
        if table_has(r, n) {
            let w = choose|k: int| 0 <= k < r.len() && r[k].name == n;
            assert(r[w] == if w < i {
                t[w]
            } else {
                t[w + 1]
            });
        }
        if table_has(t, n) {
            let w = choose|k: int| 0 <= k < t.len() && t[k].name == n;
            if w < i {
                assert(r[w] == t[w]);
            } else {
                assert(w != i);
                assert(r[w - 1] == t[w]);
            }
        }
    }
}

/// The process table.
pub struct ProcessTable {
    entries: Vec<ProcessEntry>,
}

impl View for ProcessTable {
    type V = Seq<ProcessEntryView>;

    closed spec fn view(&self) -> Seq<ProcessEntryView> {
        self.entries.deep_view()
    }
}

impl ProcessTable {
    /// An empty table.
    pub fn new() -> (r: ProcessTable)
        ensures
            r@ == Seq::<ProcessEntryView>::empty(),
            table_wf(r@),
    {
        let r = ProcessTable { entries: Vec::new() };
        proof {
            assert(r@ =~= Seq::<ProcessEntryView>::empty());
        }
        r
    }

    /// The number of live entries.
    pub fn len(&self) -> (n: usize)
        ensures
            n == self@.len(),
    {
        self.entries.len()
    }

    /// The entry at a position, for reading the table out.
    pub fn get(&self, i: usize) -> (r: &ProcessEntry)
        requires
            i < self@.len(),
        ensures
            r@ == self@[i as int],
    {
        let r = &self.entries[i];
        proof {
            assert(r@ == self@[i as int]);
        }
        r
    }

    /// The position of the first entry with this name.
    fn find_index(&self, name: &str) -> (r: Option<usize>)
        ensures
            match r {
                Some(i) => i < self@.len() && self@[i as int].name == name@ && (forall|j: int|
                    0 <= j < i ==> self@[j].name != name@),
                None => forall|j: int| 0 <= j < self@.len() ==> self@[j].name != name@,
            },
    {
        let want: String = name.to_owned();
        let n = self.entries.len();
        for i in 0..n
            invariant
                n == self.entries.len(),
                want@ == name@,
                forall|j: int| 0 <= j < i ==> self@[j].name != name@,
        {
            if self.entries[i].name == want {
                proof {
                    assert(self@[i as int].name == name@);
                }
                return Some(i);
            }
            proof {
                assert(self@[i as int].name != name@);
            }
        }
        None
    }

    /// The recorded process id of the named entry.
    pub fn find(&self, name: &str) -> (r: Option<i32>)
        ensures
            match r {
                Some(pid) => table_has(self@, name@) && (exists|i: int|
                    0 <= i < self@.len() && self@[i].name == name@ && self@[i].pid == pid as int),
                None => !table_has(self@, name@),
            },
    {
        match self.find_index(name) {
            Some(i) => Some(self.entries[i].pid),
            None => None,
        }
    }

    /// Record a freshly spawned process. An entry that already bears the name
    /// is never replaced: the insert is refused instead.
    pub fn insert(&mut self, name: String, pid: i32) -> (r: bool)
        requires
            table_wf(old(self)@),
            1 <= pid,
        ensures
            table_wf(final(self)@),
            r == !table_has(old(self)@, name@),
            r ==> final(self)@ == old(self)@.push(
                (ProcessEntryView { name: name@, pid: pid as int }),
            ),
            !r ==> final(self)@ == old(self)@,
    {
        let ghost old_t = self@;
        match self.find_index(name.as_str()) {
            Some(_) => {
                proof {
                    assert(table_has(old_t, name@));
                }
                false
            },
            None => {
                let ghost nv = name@;
                self.entries.push(ProcessEntry { name, pid });
                proof {
                    assert(self@ =~= old_t.push((ProcessEntryView { name: nv, pid: pid as int })));
                    let t = self@;
                    assert forall|i: int, j: int| 0 <= i < j < t.len() implies t[i].name
                        != t[j].name by {
                        if j < t.len() - 1 {
                            assert(t[i] == old_t[i]);
                            assert(t[j] == old_t[j]);
                        } else {
                            assert(t[i] == old_t[i]);
                        }
                    }
                }
                true
            },
        }
    }

    /// Take the named entry out; the table is unchanged when the name is not
    /// running.
    pub fn remove(&mut self, name: &str) -> (r: bool)
        requires
            table_wf(old(self)@),
        ensures
            table_wf(final(self)@),
            r == table_has(old(self)@, name@),
            final(self)@ == remove_spec(old(self)@, name@),
            !r ==> final(self)@ == old(self)@,
            !table_has(final(self)@, name@),
    {
        let ghost old_t = self@;
        match self.find_index(name) {
            Some(i) => {
                self.entries.remove(i);
                proof {
                    assert(self@ =~= old_t.remove(i as int));
                    lemma_remove_at(old_t, name@, i as int);
                    lemma_remove_wf(old_t, name@, i as int);
                }
                true
            },
            None => {
                proof {
                    lemma_remove_absent(old_t, name@);
                }
                false
            },
        }
    }

    /// Take the first entry out, for draining the table.
    pub fn pop(&mut self) -> (r: Option<ProcessEntry>)
        requires
            table_wf(old(self)@),
        ensures
            table_wf(final(self)@),
            match r {
                Some(e) => old(self)@.len() > 0 && e@ == old(self)@[0] && final(self)@ == old(
                    self,
                )@.drop_first(),
                None => old(self)@.len() == 0 && final(self)@ == old(self)@,
            },
    {
        let ghost old_t = self@;
        if self.entries.len() == 0 {
            None
        } else {
            let e = self.entries.remove(0);
            proof {
                assert(self@ =~= old_t.drop_first());
                assert forall|i: int, j: int| 0 <= i < j < self@.len() implies self@[i].name
                    != self@[j].name by {
                    assert(self@[i] == old_t[i + 1]);
                    assert(self@[j] == old_t[j + 1]);
                }
                assert forall|i: int| 0 <= i < self@.len() implies 1 <= #[trigger] self@[i].pid
                    <= i32::MAX by {
                    assert(self@[i] == old_t[i + 1]);
                }
            }
            Some(e)
        }
    }
}

} // verus!

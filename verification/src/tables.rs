//! The two tables that threads share: the tasks under way, and the processes
//! that keep distributions running.
use vstd::hash_set::StringHashSet;
use vstd::prelude::*;

use crate::text::same_text;

verus! {

/// The keys of the tasks under way.
pub struct TaskTable {
    keys: StringHashSet,
}

impl View for TaskTable {
    type V = Set<Seq<char>>;

    closed spec fn view(&self) -> Set<Seq<char>> {
        self.keys@
    }
}

impl TaskTable {
    /// A table without tasks.
    pub fn new() -> (t: TaskTable)
        ensures
            t@ == Set::<Seq<char>>::empty(),
    {
        TaskTable { keys: StringHashSet::new() }
    }

    /// Whether a task with this key is under way.
    pub fn contains(&self, key: &str) -> (r: bool)
        ensures
            r == self@.contains(key@),
    {
        self.keys.contains(key)
    }

    /// Enters a task, and tells whether one with its key was under way already.
    pub fn begin(&mut self, key: String) -> (already: bool)
        ensures
            already == old(self)@.contains(key@),
            final(self)@ == old(self)@.insert(key@),
            final(self)@.contains(key@),
            already ==> final(self)@ == old(self)@,
    {
        if self.keys.contains(key.as_str()) {
            assert(self@.insert(key@) =~= self@);
            true
        } else {
            self.keys.insert(key);
            false
        }
    }

    /// Takes a task out.
    pub fn finish(&mut self, key: &str)
        ensures
            final(self)@ == old(self)@.remove(key@),
            !final(self)@.contains(key@),
            forall|other: Seq<char>|
                other != key@ ==> #[trigger] final(self)@.contains(other) == old(self)@.contains(
                    other,
                ),
    {
        self.keys.remove(key);
    }
}

/// A process that keeps a distribution running, by the number that stands for it.
#[derive(Debug)]
pub struct KeepAliveEntry {
    pub distro: String,
    pub handle: u64,
}

/// The processes that keep distributions running, at most one for each.
#[derive(Debug)]
pub struct KeepAliveTable {
    entries: Vec<KeepAliveEntry>,
}

/// The contents of an entry.
pub open spec fn entry_view(e: KeepAliveEntry) -> (Seq<char>, u64) {
    (e.distro@, e.handle)
}

/// No distribution occurs twice.
pub open spec fn distinct(t: Seq<(Seq<char>, u64)>) -> bool {
    forall|i: int, j: int| 0 <= i < j < t.len() ==> (#[trigger] t[i]).0 != (#[trigger] t[j]).0
}

/// Whether a process keeps `distro` running.
pub open spec fn keeps(t: Seq<(Seq<char>, u64)>, distro: Seq<char>) -> bool {
    exists|i: int| 0 <= i < t.len() && (#[trigger] t[i]).0 == distro
}

/// The processes that keep `distro` running.
pub open spec fn handles_of(t: Seq<(Seq<char>, u64)>, distro: Seq<char>) -> Seq<u64> {
    handles(t.filter(|e: (Seq<char>, u64)| e.0 == distro))
}

/// All processes.
pub open spec fn handles(t: Seq<(Seq<char>, u64)>) -> Seq<u64> {
    t.map_values(|e: (Seq<char>, u64)| e.1)
}

/// The table without `distro`.
pub open spec fn without(t: Seq<(Seq<char>, u64)>, distro: Seq<char>) -> Seq<(Seq<char>, u64)> {
    t.filter(|e: (Seq<char>, u64)| e.0 != distro)
}

/// The table with a process that keeps `distro` running, in the place of any
/// that did so before.
pub open spec fn entered(t: Seq<(Seq<char>, u64)>, distro: Seq<char>, handle: u64) -> Seq<
    (Seq<char>, u64),
> {
    without(t, distro).push((distro, handle))
}

/// The table without the processes in `exited`.
pub open spec fn reaped(t: Seq<(Seq<char>, u64)>, exited: Seq<u64>) -> Seq<(Seq<char>, u64)> {
    t.filter(|e: (Seq<char>, u64)| !exited.contains(e.1))
}

impl View for KeepAliveTable {
    type V = Seq<(Seq<char>, u64)>;

    closed spec fn view(&self) -> Seq<(Seq<char>, u64)> {
        self.entries@.map_values(|e: KeepAliveEntry| entry_view(e))
    }
}

/// Filtering adds no distribution.
pub proof fn lemma_filter_keeps(t: Seq<(Seq<char>, u64)>, p: spec_fn((Seq<char>, u64)) -> bool)
    ensures
        forall|d: Seq<char>| #[trigger] keeps(t.filter(p), d) ==> keeps(t, d),
    decreases t.len(),
{
    reveal(Seq::filter);
    if t.len() > 0 {
        let s = t.drop_last();
        lemma_filter_keeps(s, p);
        let f = s.filter(p);
        let g = t.filter(p);
        assert forall|d: Seq<char>| #[trigger] keeps(g, d) implies keeps(t, d) by {
            let i = choose|i: int| 0 <= i < g.len() && (#[trigger] g[i]).0 == d;
            if i < f.len() {
                assert(g[i] == f[i]);
                assert(keeps(f, d));
                let k = choose|k: int| 0 <= k < s.len() && (#[trigger] s[k]).0 == d;
                assert(t[k] == s[k]);
            } else {
                assert(t[t.len() - 1].0 == d);
            }
        }
    }
}

proof fn lemma_filter_distinct(t: Seq<(Seq<char>, u64)>, p: spec_fn((Seq<char>, u64)) -> bool)
    requires
        distinct(t),
    ensures
        distinct(t.filter(p)),
    decreases t.len(),
{
    reveal(Seq::filter);
    if t.len() > 0 {
        let s = t.drop_last();
        assert forall|i: int, j: int| 0 <= i < j < s.len() implies (#[trigger] s[i]).0 != (
        #[trigger] s[j]).0 by {
            assert(s[i] == t[i] && s[j] == t[j]);
        }
        lemma_filter_distinct(s, p);
        let f = s.filter(p);
        if p(t.last()) {
            let g = f.push(t.last());
            lemma_filter_keeps(s, p);
            assert forall|i: int, j: int| 0 <= i < j < g.len() implies (#[trigger] g[i]).0 != (
            #[trigger] g[j]).0 by {
                assert(g[i] == f[i]);
                if j < f.len() {
                    assert(g[j] == f[j]);
                } else {
                    assert(keeps(f, f[i].0));
                    let k = choose|k: int| 0 <= k < s.len() && (#[trigger] s[k]).0 == f[i].0;
                    assert(t[k] == s[k]);
                    assert(t[k].0 != t[t.len() - 1].0);
                }
            }
        }
    }
}

/// A distribution has one process where one keeps it running, else none.
pub proof fn law_one_process_each(t: Seq<(Seq<char>, u64)>, distro: Seq<char>)
    requires
        distinct(t),
    ensures
        handles_of(t, distro).len() == if keeps(t, distro) {
            1nat
        } else {
            0nat
        },
    decreases t.len(),
{
    reveal(Seq::filter);
    if t.len() > 0 {
        let s = t.drop_last();
        assert forall|i: int, j: int| 0 <= i < j < s.len() implies (#[trigger] s[i]).0 != (
        #[trigger] s[j]).0 by {
            assert(s[i] == t[i] && s[j] == t[j]);
        }
        law_one_process_each(s, distro);
        if keeps(s, distro) {
            let i = choose|i: int| 0 <= i < s.len() && (#[trigger] s[i]).0 == distro;
            assert(t[i] == s[i]);
            assert(t[i].0 != t[t.len() - 1].0);
        } else if keeps(t, distro) {
            let i = choose|i: int| 0 <= i < t.len() && (#[trigger] t[i]).0 == distro;
            if i < s.len() {
                assert(s[i] == t[i]);
            }
        }
        if t.last().0 == distro {
            assert(t[t.len() - 1].0 == distro);
        }
    }
}

/// Which distributions stay when one is taken out, and that it is gone.
pub proof fn law_without(t: Seq<(Seq<char>, u64)>, distro: Seq<char>)
    ensures
        !keeps(without(t, distro), distro),
        forall|other: Seq<char>|
            other != distro ==> handles_of(without(t, distro), other) == #[trigger] handles_of(
                t,
                other,
            ),
    decreases t.len(),
{
    reveal(Seq::filter);
    if t.len() > 0 {
        law_without(t.drop_last(), distro);
        let s = without(t.drop_last(), distro);
        if t.last().0 != distro {
            let g = s.push(t.last());
            assert(without(t, distro) == g);
            assert(g.drop_last() =~= s);
            if keeps(g, distro) {
                let i = choose|i: int| 0 <= i < g.len() && (#[trigger] g[i]).0 == distro;
                assert(g[i] == s[i]);
            }
        }
        assert forall|other: Seq<char>| other != distro implies handles_of(
            without(t, distro),
            other,
        ) == #[trigger] handles_of(t, other) by {
            let q = |e: (Seq<char>, u64)| e.0 == other;
            assert(handles_of(s, other) == handles_of(t.drop_last(), other));
            assert(handles(t.drop_last().filter(q).push(t.last())) =~= handles(
                t.drop_last().filter(q),
            ).push(t.last().1));
            assert(handles(s.filter(q).push(t.last())) =~= handles(s.filter(q)).push(t.last().1));
        }
    }
}

impl KeepAliveTable {
    /// No distribution has two entries.
    pub open spec fn wf(&self) -> bool {
        distinct(self@)
    }

    /// A table without processes.
    pub fn new() -> (t: KeepAliveTable)
        ensures
            t@ == Seq::<(Seq<char>, u64)>::empty(),
            t.wf(),
    {
        let t = KeepAliveTable { entries: Vec::new() };
        assert(t@ =~= Seq::<(Seq<char>, u64)>::empty());
        t
    }

    /// Whether a process keeps `distro` running.
    pub fn contains(&self, distro: &str) -> (r: bool)
        ensures
            r == keeps(self@, distro@),
    {
        let mut i: usize = 0;
        while i < self.entries.len()
            invariant
                i <= self.entries.len(),
                forall|k: int| 0 <= k < i ==> (#[trigger] self@[k]).0 != distro@,
            decreases self.entries.len() - i,
        {
            if same_text(self.entries[i].distro.as_str(), distro) {
                assert(self@[i as int].0 == distro@);
                return true;
            }
            i += 1;
        }
        assert(self@.len() == self.entries.len());
        false
    }

    /// The numbers of all processes.
    pub fn handles(&self) -> (out: Vec<u64>)
        ensures
            out@ == handles(self@),
    {
        let mut out: Vec<u64> = Vec::new();
        let mut i: usize = 0;
        while i < self.entries.len()
            invariant
                i <= self.entries.len(),
                out.len() == i,
                forall|k: int| 0 <= k < i ==> #[trigger] out@[k] == self@[k].1,
            decreases self.entries.len() - i,
        {
            out.push(self.entries[i].handle);
            i += 1;
        }
        assert(out@ =~= handles(self@));
        out
    }

    /// Takes the entry of `distro` out, and gives its process.
    pub fn remove(&mut self, distro: &str) -> (gone: Vec<u64>)
        requires
            old(self).wf(),
        ensures
            final(self).wf(),
            final(self)@ == without(old(self)@, distro@),
            !keeps(final(self)@, distro@),
            gone@ == handles_of(old(self)@, distro@),
    {
        let ghost t = self@;
        let mut kept: Vec<KeepAliveEntry> = Vec::new();
        let mut gone: Vec<u64> = Vec::new();
        let ghost view = |e: KeepAliveEntry| entry_view(e);
        let ghost other = |e: (Seq<char>, u64)| e.0 != distro@;
        let ghost same = |e: (Seq<char>, u64)| e.0 == distro@;
        let mut i: usize = 0;
        proof {
            reveal(Seq::filter);
            assert(kept@.map_values(view) =~= t.take(0).filter(other));
            assert(gone@ =~= handles(t.take(0).filter(same)));
        }
        while i < self.entries.len()
            invariant
                i <= self.entries.len(),
                t == self@,
                view == (|e: KeepAliveEntry| entry_view(e)),
                other == (|e: (Seq<char>, u64)| e.0 != distro@),
                same == (|e: (Seq<char>, u64)| e.0 == distro@),
                kept@.map_values(view) == t.take(i as int).filter(other),
                gone@ == handles(t.take(i as int).filter(same)),
            decreases self.entries.len() - i,
        {
            let ghost kept0 = kept@;
            proof {
                reveal(Seq::filter);
                assert(t.take(i + 1).drop_last() =~= t.take(i as int));
                assert(t.take(i + 1).last() == entry_view(self.entries@[i as int]));
            }
            let e = &self.entries[i];
            if same_text(e.distro.as_str(), distro) {
                gone.push(e.handle);
                assert(gone@ =~= handles(t.take(i + 1).filter(same)));
            } else {
                kept.push(KeepAliveEntry { distro: e.distro.clone(), handle: e.handle });
                assert(kept@.map_values(view) =~= kept0.map_values(view).push(t[i as int]));
            }
            i += 1;
        }
        self.entries = kept;
        proof {
            assert(t.take(i as int) =~= t);
            lemma_filter_distinct(t, other);
            law_without(t, distro@);
        }
        gone
    }

    /// Enters the process that keeps `distro` running, in the place of the one
    /// that did so before, which is given back.
    pub fn insert(&mut self, distro: &str, handle: u64) -> (replaced: Vec<u64>)
        requires
            old(self).wf(),
        ensures
            final(self).wf(),
            final(self)@ == entered(old(self)@, distro@, handle),
            keeps(final(self)@, distro@),
            replaced@ == handles_of(old(self)@, distro@),
    {
        let ghost t = self@;
        let replaced = self.remove(distro);
        let ghost s = self@;
        self.entries.push(KeepAliveEntry { distro: distro.to_owned(), handle });
        proof {
            let g = self@;
            assert(g =~= s.push((distro@, handle)));
            assert(g[s.len() as int].0 == distro@);
            law_without(t, distro@);
            assert forall|i: int, j: int| 0 <= i < j < g.len() implies (#[trigger] g[i]).0 != (
            #[trigger] g[j]).0 by {
                assert(g[i] == s[i]);
                if j < s.len() {
                    assert(g[j] == s[j]);
                }
            }
        }
        replaced
    }

    /// Takes out the processes that have exited.
    pub fn reap(&mut self, exited: &[u64])
        requires
            old(self).wf(),
        ensures
            final(self).wf(),
            final(self)@ == reaped(old(self)@, exited@),
    {
        let ghost t = self@;
        let mut kept: Vec<KeepAliveEntry> = Vec::new();
        let ghost view = |e: KeepAliveEntry| entry_view(e);
        let ghost alive = |e: (Seq<char>, u64)| !exited@.contains(e.1);
        let mut i: usize = 0;
        proof {
            reveal(Seq::filter);
            assert(kept@.map_values(view) =~= t.take(0).filter(alive));
        }
        while i < self.entries.len()
            invariant
                i <= self.entries.len(),
                t == self@,
                view == (|e: KeepAliveEntry| entry_view(e)),
                alive == (|e: (Seq<char>, u64)| !exited@.contains(e.1)),
                kept@.map_values(view) == t.take(i as int).filter(alive),
            decreases self.entries.len() - i,
        {
            let ghost kept0 = kept@;
            proof {
                reveal(Seq::filter);
                assert(t.take(i + 1).drop_last() =~= t.take(i as int));
                assert(t.take(i + 1).last() == entry_view(self.entries@[i as int]));
            }
            let e = &self.entries[i];
            if !has_handle(exited, e.handle) {
                kept.push(KeepAliveEntry { distro: e.distro.clone(), handle: e.handle });
                assert(kept@.map_values(view) =~= kept0.map_values(view).push(t[i as int]));
            }
            i += 1;
        }
        self.entries = kept;
        proof {
            assert(t.take(i as int) =~= t);
            lemma_filter_distinct(t, alive);
        }
    }

    /// Empties the table, and gives all its processes.
    pub fn drain(&mut self) -> (gone: Vec<u64>)
        ensures
            final(self).wf(),
            final(self)@ == Seq::<(Seq<char>, u64)>::empty(),
            gone@ == handles(old(self)@),
    {
        let gone = self.handles();
        self.entries = Vec::new();
        assert(self@ =~= Seq::<(Seq<char>, u64)>::empty());
        gone
    }
}

fn has_handle(v: &[u64], handle: u64) -> (r: bool)
    ensures
        r == v@.contains(handle),
{
    let mut i: usize = 0;
    while i < v.len()
        invariant
            i <= v.len(),
            forall|k: int| 0 <= k < i ==> #[trigger] v@[k] != handle,
        decreases v.len() - i,
    {
        if v[i] == handle {
            assert(v@[i as int] == handle);
            return true;
        }
        i += 1;
    }
    false
}

/// Taking out what has exited looks at each process by itself: it leaves the
/// table where it has exited, and else stays as it is and where it is.
pub proof fn law_reaped(
    a: Seq<(Seq<char>, u64)>,
    b: Seq<(Seq<char>, u64)>,
    entry: (Seq<char>, u64),
    exited: Seq<u64>,
)
    ensures
        reaped(a + b, exited) == reaped(a, exited) + reaped(b, exited),
        reaped(Seq::empty(), exited) == Seq::<(Seq<char>, u64)>::empty(),
        exited.contains(entry.1) ==> reaped(a.push(entry), exited) == reaped(a, exited),
        !exited.contains(entry.1) ==> reaped(a.push(entry), exited) == reaped(a, exited).push(
            entry,
        ),
        exited.len() == 0 ==> reaped(a, exited) == a,
{
    reveal(Seq::filter);
    Seq::filter_distributes_over_add(a, b, |e: (Seq<char>, u64)| !exited.contains(e.1));
    assert(a.push(entry).drop_last() =~= a);
    if exited.len() == 0 {
        lemma_none_exited(a, exited);
    }
}

proof fn lemma_none_exited(t: Seq<(Seq<char>, u64)>, exited: Seq<u64>)
    requires
        exited.len() == 0,
    ensures
        reaped(t, exited) == t,
    decreases t.len(),
{
    reveal(Seq::filter);
    if t.len() > 0 {
        lemma_none_exited(t.drop_last(), exited);
        assert(t.drop_last().push(t.last()) =~= t);
    } else {
        assert(reaped(t, exited) =~= t);
    }
}

/// Every process in a table is one of its distribution's, and a distribution has
/// no other processes.
pub proof fn law_processes(
    t: Seq<(Seq<char>, u64)>,
    entry: (Seq<char>, u64),
    distro: Seq<char>,
    handle: u64,
)
    ensures
        handles(t).len() == t.len(),
        forall|i: int| 0 <= i < t.len() ==> #[trigger] handles(t)[i] == t[i].1,
        handles_of(t, distro).contains(handle) <==> t.contains((distro, handle)),
        keeps(t, distro) <==> handles_of(t, distro).len() > 0,
        entry.0 == distro ==> handles_of(t.push(entry), distro) == handles_of(t, distro).push(
            entry.1,
        ),
        entry.0 != distro ==> handles_of(t.push(entry), distro) == handles_of(t, distro),
    decreases t.len(),
{
    reveal(Seq::filter);
    lemma_handles_push(t, entry, distro);
    if t.len() > 0 {
        let s = t.drop_last();
        let last = t.last();
        law_processes(s, last, distro, handle);
        assert(s.push(last) =~= t);
        let a = handles_of(s, distro);
        assert(t.contains((distro, handle)) <==> s.contains((distro, handle)) || last == (
            distro,
            handle,
        )) by {
            if t.contains((distro, handle)) {
                let i = choose|i: int| 0 <= i < t.len() && t[i] == (distro, handle);
                if i < s.len() {
                    assert(s[i] == t[i]);
                }
            }
            if s.contains((distro, handle)) {
                let i = choose|i: int| 0 <= i < s.len() && s[i] == (distro, handle);
                assert(t[i] == s[i]);
            }
            assert(t[t.len() - 1] == last);
        }
        if last.0 == distro {
            assert(t[t.len() - 1].0 == distro);
            let out = a.push(last.1);
            assert(out.contains(handle) <==> a.contains(handle) || last.1 == handle) by {
                if a.contains(handle) {
                    let i = choose|i: int| 0 <= i < a.len() && a[i] == handle;
                    assert(out[i] == handle);
                }
                assert(out[a.len() as int] == last.1);
            }
        } else {
            if keeps(t, distro) {
                let i = choose|i: int| 0 <= i < t.len() && (#[trigger] t[i]).0 == distro;
                assert(s[i].0 == distro);
            }
            if keeps(s, distro) {
                let i = choose|i: int| 0 <= i < s.len() && (#[trigger] s[i]).0 == distro;
                assert(t[i].0 == distro);
            }
        }
    }
}

proof fn lemma_handles_push(t: Seq<(Seq<char>, u64)>, entry: (Seq<char>, u64), distro: Seq<char>)
    ensures
        entry.0 == distro ==> handles_of(t.push(entry), distro) == handles_of(t, distro).push(
            entry.1,
        ),
        entry.0 != distro ==> handles_of(t.push(entry), distro) == handles_of(t, distro),
{
    reveal(Seq::filter);
    assert(t.push(entry).drop_last() =~= t);
    if entry.0 == distro {
        assert(handles_of(t.push(entry), distro) =~= handles_of(t, distro).push(entry.1));
    }
}

proof fn lemma_without_distinct(t: Seq<(Seq<char>, u64)>, distro: Seq<char>)
    requires
        distinct(t),
    ensures
        distinct(without(t, distro)),
    decreases t.len(),
{
    reveal(Seq::filter);
    if t.len() > 0 {
        let s = t.drop_last();
        let last = t.last();
        assert(s.push(last) =~= t);
        assert forall|i: int, j: int| 0 <= i < j < s.len() implies (#[trigger] s[i]).0 != (
        #[trigger] s[j]).0 by {
            assert(s[i] == t[i] && s[j] == t[j]);
        }
        lemma_without_distinct(s, distro);
        let f = without(s, distro);
        if last.0 != distro {
            let g = f.push(last);
            assert(without(t, distro) == g);
            assert forall|i: int, j: int| 0 <= i < j < g.len() implies (#[trigger] g[i]).0 != (
            #[trigger] g[j]).0 by {
                assert(g[i] == f[i]);
                if j < f.len() {
                    assert(g[j] == f[j]);
                } else if g[i].0 == last.0 {
                    assert(keeps(f, last.0));
                    law_without(s, distro);
                    law_processes(f, last, last.0, last.1);
                    law_processes(s, last, last.0, last.1);
                    assert(handles_of(s, last.0) == handles_of(f, last.0));
                    let k = choose|k: int| 0 <= k < s.len() && (#[trigger] s[k]).0 == last.0;
                    assert(t[k] == s[k]);
                    assert(t[k].0 != t[t.len() - 1].0);
                }
            }
        }
    }
}

/// A process that is entered is the only one of its distribution, and no other
/// distribution has its processes touched.
pub proof fn law_entered(
    t: Seq<(Seq<char>, u64)>,
    distro: Seq<char>,
    handle: u64,
    other: Seq<char>,
)
    ensures
        handles_of(entered(t, distro, handle), distro) == seq![handle],
        other != distro ==> handles_of(entered(t, distro, handle), other) == handles_of(t, other),
        distinct(t) ==> distinct(entered(t, distro, handle)),
{
    law_without(t, distro);
    let s = without(t, distro);
    law_processes(s, (distro, handle), distro, handle);
    law_processes(s, (distro, handle), other, handle);
    assert(handles_of(s, distro) =~= Seq::<u64>::empty());
    assert(handles_of(entered(t, distro, handle), distro) =~= seq![handle]);
    if other != distro {
        assert(handles_of(t, other) == handles_of(s, other));
    }
    if distinct(t) {
        lemma_without_distinct(t, distro);
        let g = entered(t, distro, handle);
        assert forall|i: int, j: int| 0 <= i < j < g.len() implies (#[trigger] g[i]).0 != (
        #[trigger] g[j]).0 by {
            assert(g[i] == s[i]);
            if j < s.len() {
                assert(g[j] == s[j]);
            } else if g[i].0 == distro {
                assert(keeps(s, distro));
            }
        }
    }
}

/// An entry stays in the table when another distribution is taken out, as it is
/// and where it is.
pub proof fn law_others_stay(t: Seq<(Seq<char>, u64)>, entry: (Seq<char>, u64), distro: Seq<char>)
    ensures
        entry.0 != distro ==> without(t.push(entry), distro) == without(t, distro).push(entry),
        entry.0 == distro ==> without(t.push(entry), distro) == without(t, distro),
        without(Seq::empty(), distro) == Seq::<(Seq<char>, u64)>::empty(),
        !keeps(t, distro) ==> without(t, distro) == t,
    decreases t.len(),
{
    reveal(Seq::filter);
    assert(t.push(entry).drop_last() =~= t);
    if !keeps(t, distro) {
        if t.len() > 0 {
            let s = t.drop_last();
            if keeps(s, distro) {
                let i = choose|i: int| 0 <= i < s.len() && (#[trigger] s[i]).0 == distro;
                assert(t[i].0 == distro);
            }
            law_others_stay(s, entry, distro);
            assert(t[t.len() - 1].0 != distro);
            assert(s.push(t.last()) =~= t);
        } else {
            assert(without(t, distro) =~= t);
        }
    }
}

} // verus!

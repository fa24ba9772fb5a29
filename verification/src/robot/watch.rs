//! The signal-watch registry: signals marked for inspection, by slot,
//! with a name and the generation the slot had when marked. A read checks
//! the generation first, so a recycled slot never serves another
//! signal's value; a stale entry is pruned when found.
use vstd::prelude::*;
use vstd::string::StrSliceExecFns;
use crate::reactive::runtime::{Runtime, Reaction, signal_generation, signal_is_live};
use crate::reactive::state::Signal;
use crate::table::KeyTable;
use crate::robot::bridge::{json_quoted, json_string};
use crate::robot::json::{dec, decimal, join, json_array};

verus! {

/// What the inspector shows of a value.
pub trait Render<V> {
    fn render(&self, v: &V) -> String;
}

/// A watched signal: its name and the generation it was marked with.
pub struct WatchEntry {
    pub name: String,
    pub gen: u32,
}

/// One live watched signal and its rendered value.
pub struct WatchedSnapshot {
    pub id: u32,
    pub name: String,
    pub value: String,
}

/// `a` sorts strictly before `b`, char by char (as `str` ordering does).
pub open spec fn chars_lt(a: Seq<char>, b: Seq<char>) -> bool
    decreases a.len(),
{
    if a.len() == 0 {
        b.len() > 0
    } else if b.len() == 0 {
        false
    } else if a[0] != b[0] {
        a[0] < b[0]
    } else {
        chars_lt(a.drop_first(), b.drop_first())
    }
}

/// Snapshot order: by name, then by slot.
pub open spec fn before(a: (Seq<char>, u32), b: (Seq<char>, u32)) -> bool {
    chars_lt(a.0, b.0) || (a.0 == b.0 && a.1 < b.1)
}

proof fn lemma_lt_irreflexive(a: Seq<char>)
    ensures
        !chars_lt(a, a),
    decreases a.len(),
{
    if a.len() > 0 {
        lemma_lt_irreflexive(a.drop_first());
    }
}

proof fn lemma_lt_trans(a: Seq<char>, b: Seq<char>, c: Seq<char>)
    requires
        chars_lt(a, b),
        chars_lt(b, c),
    ensures
        chars_lt(a, c),
    decreases a.len(),
{
    if a.len() > 0 && b.len() > 0 && c.len() > 0 && a[0] == b[0] && b[0] == c[0] {
        lemma_lt_trans(a.drop_first(), b.drop_first(), c.drop_first());
    }
}

proof fn lemma_lt_total(a: Seq<char>, b: Seq<char>)
    requires
        a != b,
    ensures
        chars_lt(a, b) || chars_lt(b, a),
    decreases a.len(),
{
    if a.len() == 0 || b.len() == 0 {
        if a.len() == 0 && b.len() == 0 {
            assert(a =~= b);
        }
    } else if a[0] == b[0] {
        if a.drop_first() =~= b.drop_first() {
            assert(a =~= seq![a[0]] + a.drop_first());
            assert(b =~= seq![b[0]] + b.drop_first());
        }
        lemma_lt_total(a.drop_first(), b.drop_first());
    } else {
        let x = a[0];
        let y = b[0];
        assert(x < y || y < x);
    }
}

/// Snapshot order is a strict total order on distinct keys.
proof fn lemma_before_order(a: (Seq<char>, u32), b: (Seq<char>, u32), c: (Seq<char>, u32))
    ensures
        !before(a, a),
        a != b ==> before(a, b) || before(b, a),
        before(a, b) && before(b, c) ==> before(a, c),
        before(a, b) ==> !before(b, a),
{
    lemma_lt_irreflexive(a.0);
    if a != b && a.0 != b.0 {
        lemma_lt_total(a.0, b.0);
    }
    if before(a, b) && before(b, c) {
        if chars_lt(a.0, b.0) && chars_lt(b.0, c.0) {
            lemma_lt_trans(a.0, b.0, c.0);
        }
    }
    if before(a, b) && before(b, a) {
        if chars_lt(a.0, b.0) && chars_lt(b.0, a.0) {
            lemma_lt_trans(a.0, b.0, a.0);
        }
        lemma_lt_irreflexive(b.0);
    }
}

/// `a@` sorts strictly before `b@`.
pub fn str_lt(a: &str, b: &str) -> (r: bool)
    ensures
        r == chars_lt(a@, b@),
{
    let n = a.unicode_len();
    let m = b.unicode_len();
    let mut i: usize = 0;
    proof {
        assert(a@.subrange(0, n as int) =~= a@);
        assert(b@.subrange(0, m as int) =~= b@);
    }
    while i < n && i < m && a.get_char(i) == b.get_char(i)
        invariant
            n == a@.len(),
            m == b@.len(),
            i <= n,
            i <= m,
            chars_lt(a@, b@) == chars_lt(a@.subrange(i as int, n as int), b@.subrange(i as int, m as int)),
        decreases n - i,
    {
        proof {
            let x = a@.subrange(i as int, n as int);
            let y = b@.subrange(i as int, m as int);
            assert(x.drop_first() =~= a@.subrange(i + 1, n as int));
            assert(y.drop_first() =~= b@.subrange(i + 1, m as int));
        }
        i = i + 1;
    }
    proof {
        assert(a@.subrange(0, n as int) =~= a@);
        assert(b@.subrange(0, m as int) =~= b@);
    }
    if i == n {
        i < m
    } else if i == m {
        false
    } else {
        a.get_char(i) < b.get_char(i)
    }
}

/// The snapshot key of a watched entry.
pub open spec fn key_of(s: WatchedSnapshot) -> (Seq<char>, u32) {
    (s.name@, s.id)
}

/// `out` is in snapshot order.
pub open spec fn sorted(out: Seq<WatchedSnapshot>) -> bool {
    forall|i: int, j: int| 0 <= i < j < out.len() ==> before(key_of(out[i]), key_of(out[j]))
}

/// Put `x` into sorted `out` at its place.
fn insert_sorted(out: &mut Vec<WatchedSnapshot>, x: WatchedSnapshot)
    requires
        sorted(old(out)@),
        forall|i: int| 0 <= i < old(out)@.len() ==> old(out)@[i].id != x.id,
    ensures
        sorted(final(out)@),
        final(out)@.len() == old(out)@.len() + 1,
        forall|s: WatchedSnapshot| #[trigger] final(out)@.contains(s) <==> (old(out)@.contains(s) || s == x),
{
    let mut p: usize = 0;
    while p < out.len() && !str_lt(x.name.as_str(), out[p].name.as_str())
        && !(x.name == out[p].name && x.id < out[p].id)
        invariant
            0 <= p <= out@.len(),
            out@ == old(out)@,
            forall|k: int| 0 <= k < p ==> !before(key_of(x), key_of(out@[k])),
        decreases out@.len() - p,
    {
        p = p + 1;
    }
    let ghost o = out@;
    proof {
        assert forall|k: int| 0 <= k < p implies before(key_of(o[k]), key_of(x)) by {
            lemma_before_order(key_of(o[k]), key_of(x), key_of(x));
            assert(key_of(o[k]) != key_of(x));
        }
        if p < o.len() {
            assert(before(key_of(x), key_of(o[p as int])));
        }
    }
    out.insert(p, x);
    proof {
        let n = out@;
        assert forall|i: int, j: int| 0 <= i < j < n.len() implies before(key_of(n[i]), key_of(n[j])) by {
            if j < p {
                assert(n[i] == o[i] && n[j] == o[j]);
            } else if j == p {
                assert(n[i] == o[i]);
            } else if i < p {
                assert(n[i] == o[i] && n[j] == o[j - 1]);
                assert(before(key_of(o[i]), key_of(x)));
                assert(before(key_of(x), key_of(o[p as int])));
                if p < j - 1 {
                    assert(before(key_of(o[p as int]), key_of(o[j - 1])));
                    lemma_before_order(key_of(x), key_of(o[p as int]), key_of(o[j - 1]));
                }
                lemma_before_order(key_of(o[i]), key_of(x), key_of(o[j - 1]));
            } else if i == p {
                assert(n[j] == o[j - 1]);
                if p < j - 1 {
                    assert(before(key_of(o[p as int]), key_of(o[j - 1])));
                    lemma_before_order(key_of(x), key_of(o[p as int]), key_of(o[j - 1]));
                }
            } else {
                assert(n[i] == o[i - 1] && n[j] == o[j - 1]);
            }
        }
        assert forall|s: WatchedSnapshot| #[trigger] n.contains(s) <==> (o.contains(s) || s == x) by {
            if n.contains(s) {
                let k = choose|k: int| 0 <= k < n.len() && n[k] == s;
                if k < p { assert(o[k] == s); } else if k > p { assert(o[k - 1] == s); }
            }
            if o.contains(s) {
                let k = choose|k: int| 0 <= k < o.len() && o[k] == s;
                if k < p { assert(n[k] == s); } else { assert(n[k + 1] == s); }
            }
            if s == x { assert(n[p as int] == s); }
        }
    }
}

/// The watched signals.
pub struct Watches {
    table: KeyTable<WatchEntry>,
}

impl Watches {
    /// Watched entries by slot.
    pub closed spec fn entries(&self) -> Map<u32, WatchEntry> {
        self.table@
    }

    /// Watched slots, in the order they were first marked.
    pub closed spec fn order(&self) -> Seq<u32> {
        self.table.keys()
    }

    /// Nothing watched.
    pub fn new() -> (w: Self)
        ensures
            w.entries() == Map::<u32, WatchEntry>::empty(),
    {
        Watches { table: KeyTable::new() }
    }

    /// Watch slot `id` under `name`, marked with generation `gen`; an
    /// earlier entry for the slot is replaced.
    pub fn record_watch_reader(&mut self, name: String, id: u32, gen: u32)
        ensures
            final(self).entries() == old(self).entries().insert(id, WatchEntry { name, gen }),
    {
        self.table.insert(id, WatchEntry { name, gen });
    }

    /// Watch `signal` under `name`, with its slot's current generation.
    pub fn watch_signal<V: Clone + PartialEq, B: Reaction<V>>(&mut self, rt: &Runtime<V, B>, name: &str, signal: Signal)
        ensures
            final(self).entries().dom() == old(self).entries().dom().insert(signal.id),
            final(self).entries()[signal.id].name@ == name@,
            final(self).entries()[signal.id].gen == (if signal.id < rt.state().arena.gens@.len() {
                rt.state().arena.gens@[signal.id as int]
            } else {
                0
            }),
            forall|k: u32| k != signal.id && #[trigger] old(self).entries().dom().contains(k) ==>
                final(self).entries()[k] == old(self).entries()[k],
    {
        let gen = signal_generation(rt, signal.id as u64);
        self.record_watch_reader(String::from_str(name), signal.id, gen);
    }

    /// Stop watching slot `id`.
    pub fn unwatch_signal(&mut self, id: u32)
        ensures
            final(self).entries() == old(self).entries().remove(id),
    {
        let _ = self.table.remove(id);
    }

    /// Slot `raw` was freed: drop its entry.
    pub fn on_signal_freed(&mut self, raw: u32)
        ensures
            final(self).entries() == old(self).entries().remove(raw),
    {
        let _ = self.table.remove(raw);
    }
}

/// Position `j` of `order` holds the first watched slot, in marking
/// order, named `name`.
pub open spec fn named_at(entries: Map<u32, WatchEntry>, order: Seq<u32>, name: Seq<char>, j: int) -> bool {
    &&& 0 <= j < order.len()
    &&& entries.dom().contains(order[j])
    &&& entries[order[j]].name@ == name
    &&& forall|i: int| 0 <= i < j ==> entries[#[trigger] order[i]].name@ != name
}

/// Watched slot `id` still holds the signal it was marked with.
pub open spec fn entry_live<V, B>(rt: &Runtime<V, B>, id: u32, gen: u32) -> bool {
    id < rt.state().arena.n_signals() && rt.state().arena.sig_live(id, gen)
}

impl Watches {
    /// The rendered value of watched slot `id`; `None` if it is not
    /// watched or its entry is stale, which is then pruned.
    pub fn read_watched_by_id<V: Clone + PartialEq, B: Reaction<V>, R: Render<V>>(
        &mut self,
        rt: &Runtime<V, B>,
        render: &R,
        id: u32,
    ) -> (r: Option<String>)
        ensures
            r is Some <==> old(self).entries().dom().contains(id) && entry_live(rt, id, old(self).entries()[id].gen),
            old(self).entries().dom().contains(id) && !entry_live(rt, id, old(self).entries()[id].gen) ==>
                final(self).entries() == old(self).entries().remove(id),
            !(old(self).entries().dom().contains(id) && !entry_live(rt, id, old(self).entries()[id].gen)) ==>
                final(self).entries() == old(self).entries(),
    {
        let gen = match self.table.get(id) {
            Some(e) => e.gen,
            None => return None,
        };
        if signal_is_live(rt, id as u64, gen) {
            let s = Signal { id, gen };
            let v = s.get_untracked(rt);
            Some(render.render(&v))
        } else {
            let _ = self.table.remove(id);
            None
        }
    }

    /// The first watched slot, in marking order, named `name`.
    fn slot_named(&self, name: &str) -> (r: Option<u32>)
        ensures
            r is None ==> forall|k: u32| #[trigger] self.entries().dom().contains(k) ==> self.entries()[k].name@ != name@,
            r matches Some(k) ==> self.entries().dom().contains(k) && self.entries()[k].name@ == name@,
            r matches Some(k) ==> exists|j: int| named_at(self.entries(), self.order(), name@, j) && #[trigger] self.order()[j] == k,
    {
        let n = self.table.len();
        let mut i: usize = 0;
        while i < n
            invariant
                0 <= i <= n,
                n == self.table.keys().len(),
                self.table.keys().len() == self.table.vals().len(),
                forall|k: u32| #[trigger] self.table@.dom().contains(k) <==> self.table.keys().contains(k),
                forall|j: int| 0 <= j < self.table.keys().len() ==> #[trigger] self.table@[self.table.keys()[j]] == self.table.vals()[j],
                forall|j: int| 0 <= j < i ==> self.table.vals()[j].name@ != name@,
            decreases n - i,
        {
            let e = self.table.value_at(i);
            if e.name == String::from_str(name) {
                let k = self.table.key_at(i);
                proof {
                    assert(named_at(self.entries(), self.order(), name@, i as int));
                }
                return Some(k);
            }
            i = i + 1;
        }
        proof {
            assert forall|k: u32| #[trigger] self.table@.dom().contains(k) implies self.table@[k].name@ != name@ by {
                let j = choose|j: int| 0 <= j < self.table.keys().len() && self.table.keys()[j] == k;
                assert(self.table@[self.table.keys()[j]] == self.table.vals()[j]);
            }
        }
        None
    }

    /// The rendered value of a watched signal named `name`; `None` if no
    /// entry has that name or the one found is stale (and pruned).
    pub fn read_watched_by_name<V: Clone + PartialEq, B: Reaction<V>, R: Render<V>>(
        &mut self,
        rt: &Runtime<V, B>,
        render: &R,
        name: &str,
    ) -> (r: Option<String>)
        ensures
            (forall|k: u32| #[trigger] old(self).entries().dom().contains(k) ==> old(self).entries()[k].name@ != name@) ==>
                r is None && final(self).entries() == old(self).entries(),
            r is Some ==> exists|k: u32| #[trigger] old(self).entries().dom().contains(k)
                && old(self).entries()[k].name@ == name@ && entry_live(rt, k, old(self).entries()[k].gen),
            forall|j: int| #[trigger] named_at(old(self).entries(), old(self).order(), name@, j) ==> {
                let k = old(self).order()[j];
                &&& r is Some <==> entry_live(rt, k, old(self).entries()[k].gen)
                &&& !entry_live(rt, k, old(self).entries()[k].gen) ==> final(self).entries() == old(self).entries().remove(k)
                &&& entry_live(rt, k, old(self).entries()[k].gen) ==> final(self).entries() == old(self).entries()
            },
    {
        proof {
            assert forall|j1: int, j2: int| named_at(self.entries(), self.order(), name@, j1)
                && named_at(self.entries(), self.order(), name@, j2) implies j1 == j2 by {
                if j1 < j2 {
                    assert(self.entries()[self.order()[j1]].name@ != name@);
                } else if j2 < j1 {
                    assert(self.entries()[self.order()[j2]].name@ != name@);
                }
            }
        }
        match self.slot_named(name) {
            None => None,
            Some(k) => self.read_watched_by_id(rt, render, k),
        }
    }

    /// Every live watched signal with its rendered value, sorted by name
    /// then slot; stale entries are pruned.
    #[verifier::rlimit(60)]
    pub fn list_watched<V: Clone + PartialEq, B: Reaction<V>, R: Render<V>>(
        &mut self,
        rt: &Runtime<V, B>,
        render: &R,
    ) -> (out: Vec<WatchedSnapshot>)
        ensures
            sorted(out@),
            forall|j: int| 0 <= j < out@.len() ==> {
                let k = (#[trigger] out@[j]).id;
                &&& old(self).entries().dom().contains(k)
                &&& entry_live(rt, k, old(self).entries()[k].gen)
                &&& out@[j].name@ == old(self).entries()[k].name@
            },
            forall|k: u32| #[trigger] old(self).entries().dom().contains(k) && entry_live(rt, k, old(self).entries()[k].gen)
                ==> exists|j: int| 0 <= j < out@.len() && out@[j].id == k,
            final(self).entries().dom() == old(self).entries().dom().filter(
                |k: u32| entry_live(rt, k, old(self).entries()[k].gen)),
            forall|k: u32| #[trigger] final(self).entries().dom().contains(k) ==> final(self).entries()[k] == old(self).entries()[k],
    {
        let n = self.table.len();
        let mut out: Vec<WatchedSnapshot> = Vec::new();
        let mut stale: Vec<u32> = Vec::new();
        let ghost keys = self.table.keys();
        let mut i: usize = 0;
        while i < n
            invariant
                0 <= i <= n,
                self.table == old(self).table,
                keys == self.table.keys(),
                n == keys.len(),
                keys.len() == self.table.vals().len(),
                forall|a: int, b: int| 0 <= a < keys.len() && 0 <= b < keys.len() && a != b ==> keys[a] != keys[b],
                forall|k: u32| #[trigger] self.table@.dom().contains(k) <==> keys.contains(k),
                forall|j: int| 0 <= j < keys.len() ==> #[trigger] self.table@[keys[j]] == self.table.vals()[j],
                sorted(out@),
                forall|j: int| 0 <= j < out@.len() ==> {
                    let k = (#[trigger] out@[j]).id;
                    &&& exists|a: int| 0 <= a < i && keys[a] == k
                    &&& self.table@.dom().contains(k)
                    &&& entry_live(rt, k, self.table@[k].gen)
                    &&& out@[j].name@ == self.table@[k].name@
                },
                forall|a: int| 0 <= a < i && entry_live(rt, keys[a], self.table@[keys[a]].gen) ==>
                    exists|j: int| 0 <= j < out@.len() && out@[j].id == #[trigger] keys[a],
                forall|j: int| 0 <= j < stale@.len() ==> {
                    let k = #[trigger] stale@[j];
                    &&& self.table@.dom().contains(k)
                    &&& !entry_live(rt, k, self.table@[k].gen)
                },
                forall|a: int| 0 <= a < i && !entry_live(rt, keys[a], self.table@[keys[a]].gen) ==>
                    stale@.contains(#[trigger] keys[a]),
            decreases n - i,
        {
            let k = self.table.key_at(i);
            let e = self.table.value_at(i);
            proof { assert(self.table@[k] == *e); }
            if signal_is_live(rt, k as u64, e.gen) {
                let s = Signal { id: k, gen: e.gen };
                let v = s.get_untracked(rt);
                let value = render.render(&v);
                let snap = WatchedSnapshot { id: k, name: e.name.clone(), value };
                proof {
                    assert forall|j: int| 0 <= j < out@.len() implies out@[j].id != k by {
                        let a = choose|a: int| 0 <= a < i && keys[a] == out@[j].id;
                        assert(a != i);
                    }
                }
                let ghost before_out = out@;
                insert_sorted(&mut out, snap);
                proof {
                    assert forall|j: int| 0 <= j < out@.len() implies {
                        let kk = (#[trigger] out@[j]).id;
                        &&& exists|a: int| 0 <= a < i + 1 && keys[a] == kk
                        &&& self.table@.dom().contains(kk)
                        &&& entry_live(rt, kk, self.table@[kk].gen)
                        &&& out@[j].name@ == self.table@[kk].name@
                    } by {
                        assert(out@.contains(out@[j]));
                        if out@[j] != snap {
                            assert(before_out.contains(out@[j]));
                            let jj = choose|jj: int| 0 <= jj < before_out.len() && before_out[jj] == out@[j];
                            assert(before_out[jj].id == out@[j].id);
                        } else {
                            assert(keys[i as int] == k);
                        }
                    }
                    assert forall|a: int| 0 <= a < i + 1 && entry_live(rt, keys[a], self.table@[keys[a]].gen) implies
                        exists|j: int| 0 <= j < out@.len() && out@[j].id == #[trigger] keys[a] by {
                        if a < i {
                            let jj = choose|jj: int| 0 <= jj < before_out.len() && before_out[jj].id == keys[a];
                            assert(before_out.contains(before_out[jj]));
                            assert(out@.contains(before_out[jj]));
                            let j = choose|j: int| 0 <= j < out@.len() && out@[j] == before_out[jj];
                            assert(out@[j].id == keys[a]);
                        } else {
                            assert(out@.contains(snap));
                            let j = choose|j: int| 0 <= j < out@.len() && out@[j] == snap;
                            assert(out@[j].id == keys[a]);
                        }
                    }
                }
            } else {
                let ghost s0 = stale@;
                stale.push(k);
                proof {
                    assert forall|a: int| 0 <= a < i + 1 && !entry_live(rt, keys[a], self.table@[keys[a]].gen) implies
                        stale@.contains(#[trigger] keys[a]) by {
                        if a < i {
                            assert(s0.contains(keys[a]));
                            let jj = choose|jj: int| 0 <= jj < s0.len() && s0[jj] == keys[a];
                            assert(stale@[jj] == keys[a]);
                        } else {
                            assert(stale@[s0.len() as int] == keys[a]);
                        }
                    }
                }
            }
            i = i + 1;
        }
        let ghost t0 = self.table@;
        let mut d: usize = 0;
        while d < stale.len()
            invariant
                0 <= d <= stale@.len(),
                forall|j: int| 0 <= j < stale@.len() ==> {
                    let k = #[trigger] stale@[j];
                    &&& t0.dom().contains(k)
                    &&& !entry_live(rt, k, t0[k].gen)
                },
                forall|k: u32| #[trigger] self.table@.dom().contains(k) <==>
                    (t0.dom().contains(k) && !stale@.subrange(0, d as int).contains(k)),
                forall|k: u32| #[trigger] self.table@.dom().contains(k) ==> self.table@[k] == t0[k],
            decreases stale@.len() - d,
        {
            let k = stale[d];
            let _ = self.table.remove(k);
            proof {
                let pre = stale@.subrange(0, d as int);
                let pre1 = stale@.subrange(0, d + 1);
                assert(pre1 =~= pre.push(k));
                assert forall|x: u32| #[trigger] self.table@.dom().contains(x) <==>
                    (t0.dom().contains(x) && !pre1.contains(x)) by {
                    if pre1.contains(x) && x != k {
                        let j = choose|j: int| 0 <= j < pre1.len() && #[trigger] pre1[j] == x;
                        assert(pre[j] == x);
                    }
                    if pre.contains(x) {
                        let j = choose|j: int| 0 <= j < pre.len() && #[trigger] pre[j] == x;
                        assert(pre1[j] == x);
                    }
                    if x == k {
                        assert(pre1[d as int] == x);
                    }
                }
            }
            d = d + 1;
        }
        proof {
            assert(stale@.subrange(0, stale@.len() as int) =~= stale@);
            assert forall|k: u32| #[trigger] self.table@.dom().contains(k) <==>
                old(self).entries().dom().filter(|x: u32| entry_live(rt, x, old(self).entries()[x].gen)).contains(k) by {
                if t0.dom().contains(k) && entry_live(rt, k, t0[k].gen) {
                    if stale@.contains(k) {
                        let j = choose|j: int| 0 <= j < stale@.len() && stale@[j] == k;
                    }
                }
                if t0.dom().contains(k) && !entry_live(rt, k, t0[k].gen) {
                    let a = choose|a: int| 0 <= a < keys.len() && keys[a] == k;
                    assert(stale@.contains(keys[a]));
                }
            }
            assert(self.table@.dom() =~= old(self).entries().dom().filter(|x: u32| entry_live(rt, x, old(self).entries()[x].gen)));
            assert forall|k: u32| #[trigger] old(self).entries().dom().contains(k) && entry_live(rt, k, old(self).entries()[k].gen)
                implies exists|j: int| 0 <= j < out@.len() && out@[j].id == k by {
                let a = choose|a: int| 0 <= a < keys.len() && keys[a] == k;
                assert(entry_live(rt, keys[a], t0[keys[a]].gen));
            }
        }
        out
    }
}

/// A watched row as JSON: `{"id":…,"name":…,"value":…}`, the name and
/// the rendered value as JSON strings.
pub open spec fn row_json(r: WatchedSnapshot) -> Seq<char> {
    "{\"id\":"@ + dec(r.id as nat) + ",\"name\":"@ + json_quoted(r.name@) + ",\"value\":"@ + json_quoted(r.value@)
        + "}"@
}

/// The `list_watched_signals` reply: the rows as a JSON array, in order.
pub fn watched_rows_json(rows: &Vec<WatchedSnapshot>) -> (r: String)
    ensures
        r@ == "["@ + join(Seq::new(rows@.len(), |i: int| row_json(rows@[i]))) + "]"@,
{
    proof {
        reveal_strlit("{\"id\":");
        reveal_strlit(",\"name\":");
        reveal_strlit(",\"value\":");
        reveal_strlit("}");
    }
    let mut items: Vec<String> = Vec::new();
    let mut i: usize = 0;
    while i < rows.len()
        invariant
            0 <= i <= rows@.len(),
            items@.len() == i,
            forall|j: int| 0 <= j < i ==> #[trigger] items@[j]@ == row_json(rows@[j]),
        decreases rows@.len() - i,
    {
        let row = &rows[i];
        let mut out = String::from_str("{\"id\":");
        let d = decimal(row.id as u64);
        out.append(d.as_str());
        out.append(",\"name\":");
        let n = json_string(row.name.as_str());
        out.append(n.as_str());
        out.append(",\"value\":");
        let v = json_string(row.value.as_str());
        out.append(v.as_str());
        out.append("}");
        items.push(out);
        i = i + 1;
    }
    let r = json_array(&items);
    proof {
        assert(Seq::new(items@.len(), |i: int| items@[i]@) =~= Seq::new(rows@.len(), |i: int| row_json(rows@[i])));
    }
    r
}

/// The `read_signal` reply: the rendered value as a JSON string, or
/// `null` when the signal is not watched or gone.
pub fn read_reply_json(v: &Option<String>) -> (r: String)
    ensures
        r@ == match v {
            Some(x) => json_quoted(x@),
            None => "null"@,
        },
{
    match v {
        Some(x) => json_string(x.as_str()),
        None => {
            proof { reveal_strlit("null"); }
            String::from_str("null")
        }
    }
}

impl Watches {
    /// The bridge verb `read_signal`: by `name` when given, else by raw
    /// `id` (taken modulo 2^32); with neither, the error `read_signal
    /// requires a 'name' or 'id' argument`. The reply is `read_reply_json`
    /// of what the read found.
    pub fn read_signal_verb<V: Clone + PartialEq, B: Reaction<V>, R: Render<V>>(
        &mut self,
        rt: &Runtime<V, B>,
        render: &R,
        name: Option<&str>,
        id: Option<u64>,
    ) -> (r: Result<String, String>)
        ensures
            name is None && id is None ==> r is Err
                && r->Err_0@ == "read_signal requires a 'name' or 'id' argument"@,
            name is Some || id is Some ==> r is Ok,
            name matches Some(n) && (forall|k: u32| #[trigger] old(self).entries().dom().contains(k)
                ==> old(self).entries()[k].name@ != n@) ==> r is Ok && r->Ok_0@ == "null"@,
            name is None && id is Some && !old(self).entries().dom().contains(#[verifier::truncate] (id->Some_0 as u32)) ==>
                r is Ok && r->Ok_0@ == "null"@,
    {
        let found = match name {
            Some(n) => self.read_watched_by_name(rt, render, n),
            None => match id {
                Some(i) => self.read_watched_by_id(rt, render, i as u32),
                None => {
                    proof { reveal_strlit("read_signal requires a 'name' or 'id' argument"); }
                    return Err(String::from_str("read_signal requires a 'name' or 'id' argument"));
                }
            },
        };
        proof { reveal_strlit("null"); }
        Ok(read_reply_json(&found))
    }
}

} // verus!

//! Session storage: a stack of keyed registries. Reads and writes go to
//! the top registry; pushing a scope masks everything below it until the
//! scope is popped. The root registry is never popped.
use vstd::prelude::*;
use vstd::string::StrSliceExecFns;
use crate::reactive::state::Signal;
use crate::reactive::runtime::{Runtime, Reaction};

verus! {

/// One stored value: its key, the tag of its type, and the value.
pub struct Entry<T> {
    pub key: String,
    pub tag: u64,
    pub value: T,
}

/// What a registry maps each key to: the latest entry stored under it.
pub open spec fn level_map<T>(s: Seq<Entry<T>>) -> Map<Seq<char>, (u64, T)>
    decreases s.len(),
{
    if s.len() == 0 {
        Map::empty()
    } else {
        level_map(s.drop_last()).insert(s.last().key@, (s.last().tag, s.last().value))
    }
}

/// The entries of `s` whose key satisfies `keep`, in order.
pub open spec fn filter_level<T>(s: Seq<Entry<T>>, keep: spec_fn(Seq<char>) -> bool) -> Seq<Entry<T>>
    decreases s.len(),
{
    if s.len() == 0 {
        s
    } else if keep(s.last().key@) {
        filter_level(s.drop_last(), keep).push(s.last())
    } else {
        filter_level(s.drop_last(), keep)
    }
}

/// Keeping the entries whose key satisfies `keep` keeps exactly those keys
/// of the registry's map.
pub proof fn lemma_filter_level<T>(s: Seq<Entry<T>>, keep: spec_fn(Seq<char>) -> bool)
    ensures
        level_map(filter_level(s, keep)) =~= level_map(s).restrict(Set::new(keep)),
    decreases s.len(),
{
    if s.len() > 0 {
        lemma_filter_level(s.drop_last(), keep);
        let k = s.last().key@;
        if keep(k) {
            assert(level_map(filter_level(s, keep)) =~= level_map(filter_level(s.drop_last(), keep)).insert(k, (s.last().tag, s.last().value))) by {
                assert(filter_level(s, keep).drop_last() =~= filter_level(s.drop_last(), keep));
            }
        }
    }
}

/// The key under which the session epoch is kept.
pub open spec fn epoch_key() -> Seq<char> {
    seq!['_', '_', 'e', 'p', 'o', 'c', 'h', '_', 'u', 's']
}

/// Tag of the session epoch's type.
pub const EPOCH_TAG: u64 = 0;

/// `p` is a prefix of `s`.
pub open spec fn has_prefix(s: Seq<char>, p: Seq<char>) -> bool {
    p.len() <= s.len() && s.subrange(0, p.len() as int) == p
}

/// The stack of registries.
pub struct Session<T> {
    levels: Vec<Vec<Entry<T>>>,
}

/// Proof that a scope was pushed; `pop` it to return to the registry
/// below.
pub struct ScopeGuard {
    pub depth: usize,
}

impl<T> Session<T> {
    #[verifier::type_invariant]
    spec fn inv(self) -> bool {
        self.levels@.len() >= 1
    }

    /// The registries, bottom first, each as its key map.
    pub closed spec fn view(&self) -> Seq<Map<Seq<char>, (u64, T)>> {
        Seq::new(self.levels@.len(), |i: int| level_map(self.levels@[i]@))
    }

    /// The top registry's key map: the last of the view.
    pub open spec fn top(&self) -> Map<Seq<char>, (u64, T)> {
        self@.last()
    }

    /// A session with one empty root registry.
    pub fn new() -> (s: Self)
        ensures
            s@.len() == 1,
            s.top() == Map::<Seq<char>, (u64, T)>::empty(),
    {
        let mut levels: Vec<Vec<Entry<T>>> = Vec::new();
        levels.push(Vec::new());
        let s = Session { levels };
        proof { assert(s.levels@.last()@ =~= Seq::<Entry<T>>::empty()); }
        s
    }

    /// Number of registries on the stack.
    pub fn depth(&self) -> (n: usize)
        ensures
            n == self@.len(),
            n >= 1,
    {
        proof { use_type_invariant(self); }
        self.levels.len()
    }

    /// Position of the latest entry stored under `key` in the top
    /// registry.
    fn find_top(&self, key: &String) -> (r: Option<usize>)
        ensures
            r is Some <==> self.top().dom().contains(key@),
            r matches Some(i) ==> {
                let top = self.levels@.last()@;
                &&& i < top.len()
                &&& top[i as int].key@ == key@
                &&& self.top()[key@] == (top[i as int].tag, top[i as int].value)
            },
    {
        proof {
            use_type_invariant(self);
            assert(self.top() == level_map(self.levels@.last()@));
        }
        let top = &self.levels[self.levels.len() - 1];
        let mut i = top.len();
        while i > 0
            invariant
                0 <= i <= top@.len(),
                top == self.levels@.last(),
                self.top() == level_map(top@),
                forall|j: int| i <= j < top@.len() ==> top@[j].key@ != key@,
            decreases i,
        {
            if top[i - 1].key == *key {
                proof { lemma_latest(top@, (i - 1) as int); }
                return Some(i - 1);
            }
            i = i - 1;
        }
        proof { lemma_absent(top@, key@); }
        None
    }
}

/// The entry at `i` is the latest one under its key, so the map holds it.
proof fn lemma_latest<T>(s: Seq<Entry<T>>, i: int)
    requires
        0 <= i < s.len(),
        forall|j: int| i < j < s.len() ==> s[j].key@ != s[i].key@,
    ensures
        level_map(s).dom().contains(s[i].key@),
        level_map(s)[s[i].key@] == (s[i].tag, s[i].value),
    decreases s.len(),
{
    if i < s.len() - 1 {
        lemma_latest(s.drop_last(), i);
    }
}

/// A key that no entry carries is not in the map.
proof fn lemma_absent<T>(s: Seq<Entry<T>>, k: Seq<char>)
    requires
        forall|j: int| 0 <= j < s.len() ==> s[j].key@ != k,
    ensures
        !level_map(s).dom().contains(k),
    decreases s.len(),
{
    if s.len() > 0 {
        lemma_absent(s.drop_last(), k);
    }
}


/// Whether `p` is a prefix of `s`, char by char.
pub fn starts_with(s: &str, p: &str) -> (b: bool)
    ensures
        b == has_prefix(s@, p@),
{
    let n = p.unicode_len();
    let m = s.unicode_len();
    if n > m {
        return false;
    }
    let mut i: usize = 0;
    while i < n
        invariant
            n == p@.len(),
            m == s@.len(),
            n <= m,
            0 <= i <= n,
            forall|j: int| 0 <= j < i ==> s@[j] == p@[j],
        decreases n - i,
    {
        if s.get_char(i) != p.get_char(i) {
            proof {
                assert(s@.subrange(0, n as int)[i as int] != p@[i as int]);
            }
            return false;
        }
        i = i + 1;
    }
    proof {
        assert(s@.subrange(0, n as int) =~= p@);
    }
    true
}

impl<T> Session<T> {
    /// Drop the top registry's entries whose key matches `prefix`
    /// (`exact`: equal to it; otherwise: starting with it); keep the rest.
    fn drop_keys(&mut self, prefix: &str, exact: bool)
        ensures
            final(self)@.len() == old(self)@.len(),
            forall|i: int| 0 <= i < old(self)@.len() - 1 ==> final(self)@[i] == old(self)@[i],
            exact ==> final(self).top() =~= old(self).top().remove_keys(Set::new(|k: Seq<char>| k == prefix@)),
            !exact ==> final(self).top() =~= old(self).top().remove_keys(Set::new(|k: Seq<char>| has_prefix(k, prefix@))),
    {
        let mut levels = self.take_levels();
        let last = levels.len() - 1;
        let mut old_top: Vec<Entry<T>> = Vec::new();
        std::mem::swap(&mut old_top, &mut levels[last]);
        let ghost orig = old_top@;
        let ghost keep = if exact { |k: Seq<char>| k != prefix@ } else { |k: Seq<char>| !has_prefix(k, prefix@) };
        let mut kept: Vec<Entry<T>> = Vec::new();
        let mut rest = old_top;
        let ghost mut done: int = 0;
        proof {
            assert(orig.subrange(0, 0) =~= Seq::<Entry<T>>::empty());
            assert(orig.subrange(0, orig.len() as int) =~= orig);
        }
        while rest.len() > 0
            invariant
                0 <= done <= orig.len(),
                rest@ == orig.subrange(done, orig.len() as int),
                kept@ == filter_level(orig.subrange(0, done), keep),
                keep == (if exact { |k: Seq<char>| k != prefix@ } else { |k: Seq<char>| !has_prefix(k, prefix@) }),
            decreases rest@.len(),
        {
            let e = rest.remove(0);
            let matches = if exact {
                e.key.as_str().unicode_len() == prefix.unicode_len() && starts_with(e.key.as_str(), prefix)
            } else {
                starts_with(e.key.as_str(), prefix)
            };
            proof {
                if exact {
                    if matches {
                        assert(e.key@.subrange(0, prefix@.len() as int) =~= e.key@);
                    } else if e.key@ == prefix@ {
                        assert(e.key@.subrange(0, prefix@.len() as int) =~= e.key@);
                    }
                }
                assert(matches == !keep(e.key@));
                assert(e == orig[done]);
                assert(orig.subrange(0, done + 1).drop_last() =~= orig.subrange(0, done));
                assert(orig.subrange(0, done + 1).last() == e);
                assert(rest@ =~= orig.subrange(done + 1, orig.len() as int));
            }
            if !matches {
                kept.push(e);
            }
            proof { done = done + 1; }
        }
        proof {
            assert(done == orig.len());
            lemma_filter_level(orig, keep);
            let m = level_map(orig);
            if exact {
                assert(m.restrict(Set::new(keep)) =~= m.remove_keys(Set::new(|k: Seq<char>| k == prefix@)));
            } else {
                assert(m.restrict(Set::new(keep)) =~= m.remove_keys(Set::new(|k: Seq<char>| has_prefix(k, prefix@))));
            }
        }
        levels.set(last, kept);
        self.put_levels(levels);
    }

    /// Move the registries out, leaving a single empty one.
    fn take_levels(&mut self) -> (l: Vec<Vec<Entry<T>>>)
        ensures
            l@ == old(self).levels@,
            l@.len() >= 1,
    {
        proof { use_type_invariant(&*self); }
        let mut l: Vec<Vec<Entry<T>>> = Vec::new();
        l.push(Vec::new());
        std::mem::swap(&mut l, &mut self.levels);
        l
    }

    /// Put registries back.
    fn put_levels(&mut self, l: Vec<Vec<Entry<T>>>)
        requires
            l@.len() >= 1,
        ensures
            final(self).levels@ == l@,
    {
        self.levels = l;
    }
}


/// Push an empty registry; it masks the ones below until the guard is
/// popped.
pub fn push_scope<T>(session: &mut Session<T>) -> (g: ScopeGuard)
    ensures
        final(session)@ == old(session)@.push(Map::empty()),
        g.depth == old(session)@.len(),
{
    let mut levels = session.take_levels();
    let depth = levels.len();
    levels.push(Vec::new());
    session.put_levels(levels);
    proof {
        assert(final(session)@ =~= old(session)@.push(Map::empty())) by {
            assert(levels@.last()@ =~= Seq::<Entry<T>>::empty());
        }
    }
    ScopeGuard { depth }
}

impl ScopeGuard {
    /// Pop the top registry, unless only the root is left.
    pub fn pop<T>(self, session: &mut Session<T>)
        ensures
            old(session)@.len() > 1 ==> final(session)@ == old(session)@.drop_last(),
            old(session)@.len() <= 1 ==> final(session)@ == old(session)@,
    {
        let mut levels = session.take_levels();
        if levels.len() > 1 {
            let _ = levels.pop();
        }
        session.put_levels(levels);
        proof {
            if old(session)@.len() > 1 {
                assert(final(session)@ =~= old(session)@.drop_last());
            } else {
                assert(final(session)@ =~= old(session)@);
            }
        }
    }
}

/// Empty the top registry.
pub fn clear<T>(session: &mut Session<T>)
    ensures
        final(session)@ == old(session)@.update(old(session)@.len() - 1, Map::empty()),
{
    let mut levels = session.take_levels();
    let last = levels.len() - 1;
    levels.set(last, Vec::new());
    session.put_levels(levels);
    proof {
        assert(final(session)@ =~= old(session)@.update(old(session)@.len() - 1, Map::empty())) by {
            assert(levels@[last as int]@ =~= Seq::<Entry<T>>::empty());
        }
    }
}

/// Forget the session epoch in the top registry (it is re-read on the next
/// `epoch_micros`).
pub fn reset_epoch<T>(session: &mut Session<T>)
    ensures
        final(session)@ == old(session)@.update(old(session)@.len() - 1,
            old(session)@.last().remove(epoch_key())),
{
    let key = "__epoch_us";
    proof { reveal_strlit("__epoch_us"); }
    proof { use_type_invariant(&*session); }
    session.drop_keys(key, true);
    proof {
        use_type_invariant(&*session);
        assert(final(session).top() == final(session)@.last());
        assert(old(session).top() == old(session)@.last());
        assert(key@ =~= epoch_key());
        assert(final(session)@ =~= old(session)@.update(old(session)@.len() - 1,
            old(session)@.last().remove(epoch_key()))) by {
            assert(old(session)@.last().remove_keys(Set::new(|k: Seq<char>| k == key@)) =~= old(session)@.last().remove(epoch_key()));
        }
    }
}

/// Remove every key of the top registry that starts with `prefix`.
pub fn clear_prefix<T>(session: &mut Session<T>, prefix: &str)
    ensures
        final(session)@ == old(session)@.update(old(session)@.len() - 1,
            old(session)@.last().remove_keys(Set::new(|k: Seq<char>| has_prefix(k, prefix@)))),
{
    proof { use_type_invariant(&*session); }
    session.drop_keys(prefix, false);
    proof {
        use_type_invariant(&*session);
        assert(final(session).top() == final(session)@.last());
        assert(old(session).top() == old(session)@.last());
        assert(final(session)@ =~= old(session)@.update(old(session)@.len() - 1,
            old(session)@.last().remove_keys(Set::new(|k: Seq<char>| has_prefix(k, prefix@)))));
    }
}

/// The value under `key` in the top registry when it was stored with type
/// tag `tag`; otherwise `init` (given the session) makes one, which is
/// stored under `key` and returned.
pub fn get_or_init<T: Clone, F: FnOnce(&mut Session<T>) -> T>(session: &mut Session<T>, key: &str, tag: u64, init: F) -> (r: T)
    requires
        forall|s: &mut Session<T>| init.requires((s,)),
    ensures
        final(session).top().dom().contains(key@) && final(session).top()[key@].0 == tag,
        old(session).top().dom().contains(key@) && old(session).top()[key@].0 == tag ==> {
            &&& cloned(old(session).top()[key@].1, r)
            &&& final(session)@ == old(session)@
        },
        !(old(session).top().dom().contains(key@) && old(session).top()[key@].0 == tag) ==> {
            &&& final(session).top().dom().contains(key@)
            &&& final(session).top()[key@].0 == tag
            &&& cloned(r, final(session).top()[key@].1)
            &&& exists|x: &mut Session<T>| #[trigger] init.ensures((x,), r) && *x == *old(session)
                && final(session)@ == final(x)@.update(final(x)@.len() - 1,
                    final(x)@.last().insert(key@, (tag, final(session).top()[key@].1)))
        },
{
    let k = String::from_str(key);
    match session.find_top(&k) {
        Some(i) => {
            proof { use_type_invariant(&*session); }
            let top = &session.levels[session.levels.len() - 1];
            if top[i].tag == tag {
                return top[i].value.clone();
            }
        }
        None => {}
    }
    let v = init(session);
    let stored = v.clone();
    let mut levels = session.take_levels();
    let last = levels.len() - 1;
    let mut top: Vec<Entry<T>> = Vec::new();
    std::mem::swap(&mut top, &mut levels[last]);
    let ghost t0 = top@;
    top.push(Entry { key: k, tag, value: stored });
    proof {
        assert(top@.drop_last() =~= t0);
    }
    levels.set(last, top);
    session.put_levels(levels);
    v
}

/// The session epoch (microseconds): read from the top registry, or taken
/// from `now` and stored there on first use.
pub fn epoch_micros<T: Clone, F: FnOnce(&mut Session<T>) -> T>(session: &mut Session<T>, now: F) -> (r: T)
    requires
        forall|s: &mut Session<T>| now.requires((s,)),
    ensures
        old(session).top().dom().contains(epoch_key()) && old(session).top()[epoch_key()].0 == EPOCH_TAG ==>
            cloned(old(session).top()[epoch_key()].1, r) && final(session)@ == old(session)@,
        final(session).top().dom().contains(epoch_key()),
{
    let key = "__epoch_us";
    proof { reveal_strlit("__epoch_us"); assert(key@ =~= epoch_key()); }
    proof { use_type_invariant(&*session); }
    let r = get_or_init(session, key, EPOCH_TAG, now);
    proof {
        use_type_invariant(&*session);
        assert(final(session).top() == final(session)@.last());
        assert(old(session).top() == old(session)@.last());
    }
    r
}


/// Pushing a scope and popping it gives back the same registries: the
/// pushed registry is never the root, so the pop removes exactly it.
pub proof fn law_push_then_pop_restores<T>(s: Seq<Map<Seq<char>, (u64, T)>>)
    requires
        s.len() >= 1,
    ensures
        s.push(Map::empty()).len() > 1,
        s.push(Map::empty()).drop_last() == s,
{
    assert(s.push(Map::empty()).drop_last() =~= s);
}

/// A pushed scope masks the registries below it: the top registry is then
/// the new, empty one, so no key is found there until the scope is popped.
pub proof fn law_pushed_scope_masks<T>(s: Seq<Map<Seq<char>, (u64, T)>>, k: Seq<char>)
    ensures
        !s.push(Map::empty()).last().dom().contains(k),
{
}

/// Clearing a prefix keeps every key that does not start with it, with its
/// value, and drops every key that does.
pub proof fn law_clear_prefix_keeps_others<T>(m: Map<Seq<char>, (u64, T)>, p: Seq<char>, k: Seq<char>)
    ensures
        !has_prefix(k, p) ==> (m.remove_keys(Set::new(|x: Seq<char>| has_prefix(x, p))).dom().contains(k) == m.dom().contains(k)),
        !has_prefix(k, p) && m.dom().contains(k) ==> m.remove_keys(Set::new(|x: Seq<char>| has_prefix(x, p)))[k] == m[k],
        has_prefix(k, p) ==> !m.remove_keys(Set::new(|x: Seq<char>| has_prefix(x, p))).dom().contains(k),
{
}

/// A session-persistent signal under `key` (stored with type tag `tag`):
/// the signal stored there, or a fresh one holding `initial`, created in
/// `rt` and stored. The signal, and so its value, survives rerenders that
/// run this again.
pub fn signal<V: Clone + PartialEq, B: Reaction<V>>(
    session: &mut Session<Signal>,
    rt: &mut Runtime<V, B>,
    key: &str,
    tag: u64,
    initial: V,
) -> (s: Signal)
    requires
        !(old(session).top().dom().contains(key@) && old(session).top()[key@].0 == tag) ==>
            old(rt).state().arena.can_insert_signal(),
    ensures
        old(session).top().dom().contains(key@) && old(session).top()[key@].0 == tag ==> {
            &&& s == old(session).top()[key@].1
            &&& final(session)@ == old(session)@
            &&& final(rt).state() == old(rt).state()
        },
        !(old(session).top().dom().contains(key@) && old(session).top()[key@].0 == tag) ==> {
            &&& final(session).top().dom().contains(key@)
            &&& final(session).top()[key@] == (tag, s)
            &&& final(rt).state().live(s)
            &&& final(rt).state().arena.sig_value(s.id) == initial
        },
{
    let k = String::from_str(key);
    match session.find_top(&k) {
        Some(i) => {
            proof { use_type_invariant(&*session); }
            let top = &session.levels[session.levels.len() - 1];
            if top[i].tag == tag {
                return top[i].value;
            }
        }
        None => {}
    }
    let fresh = Signal::new(rt, initial);
    let mut levels = session.take_levels();
    let last = levels.len() - 1;
    let mut top: Vec<Entry<Signal>> = Vec::new();
    std::mem::swap(&mut top, &mut levels[last]);
    let ghost t0 = top@;
    top.push(Entry { key: k, tag, value: fresh });
    proof {
        assert(top@.drop_last() =~= t0);
    }
    levels.set(last, top);
    session.put_levels(levels);
    fresh
}

} // verus!

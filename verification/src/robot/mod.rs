//! Robot automation: a registry of mounted elements (kind, test id,
//! label, available actions, parent/children links) and queries and
//! actions over it.
use vstd::prelude::*;
use vstd::string::StrSliceExecFns;
use crate::reactive::state::Signal;
use crate::reactive::runtime::{Runtime, Reaction, Ref, ArenaStats, arena_stats, same_frame, wrote};
use crate::reactive::arena::{ref_contents, count_some, count_live, total_len};

pub mod text;
pub mod json;
pub mod bridge;
pub mod components;
pub mod screenshot;
pub mod watch;
pub mod navigators;

verus! {

/// What an element is.
#[derive(Clone, Copy, Debug, PartialEq, Eq, Hash, Structural)]
pub enum ElementKind {
    View,
    Text,
    Button,
    Pressable,
    Image,
    Icon,
    TextInput,
    Toggle,
    ScrollView,
    Slider,
    ActivityIndicator,
    Virtualizer,
    Graphics,
    Navigator,
    TabNavigator,
    DrawerNavigator,
    Link,
    Overlay,
    Presence,
}

/// Slot of an element in the registry.
#[derive(Clone, Copy, Debug, PartialEq, Eq, Hash, Structural)]
pub struct ElementId(pub u32);

/// Which frame an action reads.
#[derive(Clone, Copy, Debug, PartialEq, Eq, Structural)]
pub enum FrameKind {
    /// Relative to the parent.
    Local,
    /// Relative to the window.
    Absolute,
    /// Physical device-screen pixels.
    Device,
}

/// The actions a backend wires to an element. The registry only knows
/// which of them are available (`ActionSet`).
pub trait Actions: Sized {
    /// A rectangle as the backend measures it.
    type Rect;
    fn click(&self);
    fn set_text(&self, text: String);
    fn set_toggle(&self, value: bool);
    fn focus(&self);
    fn blur(&self);
    fn frame(&self, which: FrameKind) -> Option<Self::Rect>;
    /// `{"x":…,"y":…,"width":…,"height":…}` for a rectangle.
    fn rect_json(r: &Self::Rect) -> String;
}

/// Which actions an element has.
#[derive(Clone, Copy, Debug, PartialEq, Eq, Structural)]
pub struct ActionSet {
    pub click: bool,
    pub set_text: bool,
    pub set_toggle: bool,
    pub focus: bool,
    pub blur: bool,
    pub frame: bool,
    pub absolute_frame: bool,
    pub device_frame: bool,
}

impl ActionSet {
    /// No action available.
    pub fn empty() -> (s: Self)
        ensures
            !s.click && !s.set_text && !s.set_toggle && !s.focus && !s.blur
                && !s.frame && !s.absolute_frame && !s.device_frame,
    {
        ActionSet { click: false, set_text: false, set_toggle: false, focus: false, blur: false,
            frame: false, absolute_frame: false, device_frame: false }
    }
}

/// A registered element.
pub struct RegistryEntry<A> {
    pub kind: ElementKind,
    pub test_id: Option<String>,
    pub label: Option<String>,
    pub available: ActionSet,
    pub actions: A,
    pub parent: Option<ElementId>,
    pub children: Vec<ElementId>,
}

/// A snapshot of one element.
#[derive(Clone, Debug)]
pub struct Element {
    pub id: ElementId,
    pub kind: ElementKind,
    pub test_id: Option<String>,
    pub label: Option<String>,
}

/// What an element snapshot says, as plain values.
pub struct ElementView {
    pub id: u32,
    pub kind: ElementKind,
    pub test_id: Option<Seq<char>>,
    pub label: Option<Seq<char>>,
}

pub open spec fn opt_view(s: Option<String>) -> Option<Seq<char>> {
    match s {
        Some(x) => Some(x@),
        None => None,
    }
}

impl View for Element {
    type V = ElementView;

    open spec fn view(&self) -> ElementView {
        ElementView { id: self.id.0, kind: self.kind, test_id: opt_view(self.test_id), label: opt_view(self.label) }
    }
}

/// The snapshot of entry `e` at slot `id`.
pub open spec fn entry_view<A>(id: u32, e: RegistryEntry<A>) -> ElementView {
    ElementView { id, kind: e.kind, test_id: opt_view(e.test_id), label: opt_view(e.label) }
}

/// A query over the registry.
#[derive(Clone, Debug)]
pub enum Query {
    TestId(String),
    Label(String),
    LabelContains(String),
    Kind(ElementKind),
    All,
}

/// Why an action could not run.
#[derive(Clone, Debug, PartialEq, Eq)]
pub enum RobotError {
    ElementGone,
    ActionNotAvailable(&'static str),
    NotFound,
}

/// A snapshot of an element and its live descendants.
pub struct TreeNode {
    pub id: ElementId,
    pub kind: ElementKind,
    pub test_id: Option<String>,
    pub label: Option<String>,
    pub children: Vec<TreeNode>,
}

/// `needle` occurs in `hay`.
pub open spec fn contains_seq(hay: Seq<char>, needle: Seq<char>) -> bool {
    exists|i: int| 0 <= i && i + needle.len() <= hay.len() && #[trigger] hay.subrange(i, i + needle.len()) == needle
}

/// Entry `e` answers query `q`.
pub open spec fn selects<A>(e: RegistryEntry<A>, q: Query) -> bool {
    match q {
        Query::TestId(t) => opt_view(e.test_id) == Some(t@),
        Query::Label(t) => opt_view(e.label) == Some(t@),
        Query::LabelContains(t) => e.label is Some && contains_seq(e.label->Some_0@, t@),
        Query::Kind(k) => e.kind == k,
        Query::All => true,
    }
}

/// The slots, in order, of the live entries answering `q`.
pub open spec fn select<A>(entries: Seq<Option<RegistryEntry<A>>>, q: Query) -> Seq<u32>
    decreases entries.len(),
{
    if entries.len() == 0 {
        Seq::empty()
    } else {
        let rest = select(entries.drop_last(), q);
        match entries.last() {
            Some(e) => if selects(e, q) { rest.push((entries.len() - 1) as u32) } else { rest },
            None => rest,
        }
    }
}

/// The registry of mounted elements, with a free list of slots and a
/// test-id index (the latest element registered under a test id).
pub struct Registry<A> {
    pub entries: Vec<Option<RegistryEntry<A>>>,
    pub free: Vec<u32>,
    pub by_test_id: Vec<(String, u32)>,
}

/// The last index entry under `t`.
pub open spec fn index_find(ix: Seq<(String, u32)>, t: Seq<char>) -> Option<u32>
    decreases ix.len(),
{
    if ix.len() == 0 {
        None
    } else if ix.last().0@ == t {
        Some(ix.last().1)
    } else {
        index_find(ix.drop_last(), t)
    }
}

impl<A> Registry<A> {
    pub open spec fn live(&self, id: u32) -> bool {
        id < self.entries@.len() && self.entries@[id as int] is Some
    }

    pub open spec fn entry(&self, id: u32) -> RegistryEntry<A> {
        self.entries@[id as int]->Some_0
    }

    pub open spec fn wf(&self) -> bool {
        &&& self.entries@.len() <= u32::MAX
        &&& forall|k: int| 0 <= k < self.free@.len() ==>
                (#[trigger] self.free@[k]) < self.entries@.len() && self.entries@[self.free@[k] as int] is None
        &&& forall|i: int, j: int| 0 <= i < self.free@.len() && 0 <= j < self.free@.len() && i != j ==>
                self.free@[i] != self.free@[j]
    }

    /// An empty registry.
    pub fn new() -> (r: Self)
        ensures
            r.wf(),
            r.entries@.len() == 0,
            r.by_test_id@.len() == 0,
    {
        Registry { entries: Vec::new(), free: Vec::new(), by_test_id: Vec::new() }
    }

    /// The live entry at `id`.
    pub fn get(&self, id: ElementId) -> (r: Option<&RegistryEntry<A>>)
        ensures
            r is Some <==> self.live(id.0),
            r matches Some(e) ==> *e == self.entry(id.0),
    {
        if (id.0 as usize) < self.entries.len() {
            match &self.entries[id.0 as usize] {
                Some(e) => Some(e),
                None => None,
            }
        } else {
            None
        }
    }

    /// The element indexed under `t`.
    pub fn find_by_test_id(&self, t: &String) -> (r: Option<ElementId>)
        ensures
            r matches Some(id) ==> index_find(self.by_test_id@, t@) == Some(id.0),
            r is None ==> index_find(self.by_test_id@, t@) is None,
    {
        let mut i = self.by_test_id.len();
        proof { assert(self.by_test_id@.subrange(0, i as int) =~= self.by_test_id@); }
        while i > 0
            invariant
                0 <= i <= self.by_test_id@.len(),
                index_find(self.by_test_id@, t@) == index_find(self.by_test_id@.subrange(0, i as int), t@),
            decreases i,
        {
            let ghost pre = self.by_test_id@.subrange(0, i as int);
            proof { assert(pre.drop_last() =~= self.by_test_id@.subrange(0, i - 1)); }
            if self.by_test_id[i - 1].0 == *t {
                return Some(ElementId(self.by_test_id[i - 1].1));
            }
            i = i - 1;
        }
        proof { assert(self.by_test_id@.subrange(0, 0) =~= Seq::<(String, u32)>::empty()); }
        None
    }

    /// Point the index entry for `t` at `id`.
    fn index_set(&mut self, t: String, id: u32)
        ensures
            forall|k: Seq<char>| #[trigger] index_find(final(self).by_test_id@, k)
                == if k == t@ { Some(id) } else { index_find(old(self).by_test_id@, k) },
            final(self).entries == old(self).entries,
            final(self).free == old(self).free,
    {
        let ghost ix = self.by_test_id@;
        self.by_test_id.push((t, id));
        proof {
            assert(self.by_test_id@.drop_last() =~= ix);
        }
    }

    /// Remove the index entries for `t`.
    fn index_remove(&mut self, t: &String)
        ensures
            forall|k: Seq<char>| #[trigger] index_find(final(self).by_test_id@, k)
                == if k == t@ { None } else { index_find(old(self).by_test_id@, k) },
            final(self).entries == old(self).entries,
            final(self).free == old(self).free,
    {
        let mut kept: Vec<(String, u32)> = Vec::new();
        let mut i: usize = 0;
        while i < self.by_test_id.len()
            invariant
                0 <= i <= self.by_test_id@.len(),
                self.by_test_id == old(self).by_test_id,
                self.entries == old(self).entries,
                self.free == old(self).free,
                forall|k: Seq<char>| #[trigger] index_find(kept@, k)
                    == if k == t@ { None } else { index_find(self.by_test_id@.subrange(0, i as int), k) },
            decreases self.by_test_id@.len() - i,
        {
            let ghost k0 = kept@;
            let ghost pre = self.by_test_id@.subrange(0, i as int);
            proof { assert(self.by_test_id@.subrange(0, i + 1).drop_last() =~= pre); }
            let same = self.by_test_id[i].0 == *t;
            let ghost pre1 = self.by_test_id@.subrange(0, i + 1);
            proof {
                assert(pre1.last() == self.by_test_id@[i as int]);
                assert(pre1.drop_last() =~= pre);
            }
            if !same {
                let e = (self.by_test_id[i].0.clone(), self.by_test_id[i].1);
                kept.push(e);
                proof {
                    assert(kept@.drop_last() =~= k0);
                    assert(kept@.last().0@ == pre1.last().0@);
                    assert(kept@.last().1 == pre1.last().1);
                    assert forall|k: Seq<char>| #[trigger] index_find(kept@, k)
                        == if k == t@ { None } else { index_find(pre1, k) } by {
                        assert(index_find(k0, k) == if k == t@ { None } else { index_find(pre, k) });
                    }
                }
            } else {
                proof {
                    assert forall|k: Seq<char>| #[trigger] index_find(kept@, k)
                        == if k == t@ { None } else { index_find(pre1, k) } by {
                        assert(index_find(k0, k) == if k == t@ { None } else { index_find(pre, k) });
                    }
                }
            }
            i = i + 1;
        }
        proof { assert(self.by_test_id@.subrange(0, self.by_test_id@.len() as int) =~= self.by_test_id@); }
        self.by_test_id = kept;
    }

    /// Register `entry` in a recycled slot (last freed first) or a new one;
    /// a test id indexes it.
    pub fn insert(&mut self, entry: RegistryEntry<A>) -> (id: ElementId)
        requires
            old(self).wf(),
            old(self).free@.len() > 0 || old(self).entries@.len() < u32::MAX,
        ensures
            final(self).wf(),
            final(self).live(id.0),
            final(self).entry(id.0) == entry,
            !old(self).live(id.0),
            old(self).free@.len() > 0 ==> id.0 == old(self).free@.last(),
            old(self).free@.len() == 0 ==> id.0 == old(self).entries@.len(),
            forall|i: u32| i != id.0 ==> (#[trigger] final(self).live(i) == old(self).live(i)),
            forall|i: u32| i != id.0 && old(self).live(i) ==> #[trigger] final(self).entry(i) == old(self).entry(i),
            forall|k: Seq<char>| #[trigger] index_find(final(self).by_test_id@, k)
                == if entry.test_id is Some && k == entry.test_id->Some_0@ { Some(id.0) } else { index_find(old(self).by_test_id@, k) },
    {
        let t = match &entry.test_id {
            Some(t) => Some(t.clone()),
            None => None,
        };
        let id = if self.free.len() > 0 {
            let idx = self.free.pop().unwrap();
            proof {
                assert(old(self).free@[old(self).free@.len() - 1] == idx);
                assert forall|k: int| 0 <= k < self.free@.len() implies self.free@[k] != idx by {
                    assert(old(self).free@[k] == self.free@[k]);
                }
            }
            self.entries.set(idx as usize, Some(entry));
            proof {
                assert forall|k: int| 0 <= k < self.free@.len() implies
                    (#[trigger] self.free@[k]) < self.entries@.len() && self.entries@[self.free@[k] as int] is None by {
                    assert(old(self).free@[k] == self.free@[k]);
                }
            }
            ElementId(idx)
        } else {
            let idx = self.entries.len() as u32;
            self.entries.push(Some(entry));
            ElementId(idx)
        };
        match t {
            Some(t) => self.index_set(t, id.0),
            None => {}
        }
        id
    }

    /// Unregister element `id`: drop its index entry, unlink it from its
    /// parent's children and free its slot. A free slot is left alone.
    pub fn remove(&mut self, id: ElementId) -> (gone: Option<RegistryEntry<A>>)
        requires
            old(self).wf(),
        ensures
            final(self).wf(),
            !final(self).live(id.0),
            gone is Some <==> old(self).live(id.0),
            gone matches Some(e) ==> e == old(self).entry(id.0),
            old(self).live(id.0) ==> final(self).free@ == old(self).free@.push(id.0),
            forall|i: u32| i != id.0 ==> (#[trigger] final(self).live(i) == old(self).live(i)),
            forall|i: u32| i != id.0 && old(self).live(i) ==> {
                let o = old(self).entry(i);
                let n = #[trigger] final(self).entry(i);
                &&& n.kind == o.kind && n.test_id == o.test_id && n.label == o.label
                &&& n.parent == o.parent && n.available == o.available
                &&& forall|c: ElementId| n.children@.contains(c) <==> (o.children@.contains(c) && (c != id
                        || !(old(self).live(id.0) && old(self).entry(id.0).parent == Some(ElementId(i)))))
            },
            !old(self).live(id.0) ==> final(self).entries@ == old(self).entries@ && final(self).by_test_id == old(self).by_test_id,
            old(self).live(id.0) ==> forall|k: Seq<char>| #[trigger] index_find(final(self).by_test_id@, k)
                == if old(self).entry(id.0).test_id matches Some(t) && k == t@ { None } else { index_find(old(self).by_test_id@, k) },
    {
        if !((id.0 as usize) < self.entries.len()) {
            return None;
        }
        let taken = self.entries[id.0 as usize].take();
        match taken {
            None => {
                proof { assert(self.entries@ =~= old(self).entries@); }
                None
            }
            Some(entry) => {
                proof {
                    assert forall|k: int| 0 <= k < self.free@.len() implies
                        (#[trigger] self.free@[k]) < self.entries@.len() && self.entries@[self.free@[k] as int] is None by {
                        assert(old(self).entries@[self.free@[k] as int] is None);
                    }
                }
                match &entry.test_id {
                    Some(t) => self.index_remove(t),
                    None => {}
                }
                match entry.parent {
                    Some(pid) => {
                        if (pid.0 as usize) < self.entries.len() && pid.0 != id.0 {
                            let p = self.entries[pid.0 as usize].take();
                            match p {
                                Some(mut pe) => {
                                    pe.children = without_child(&pe.children, id);
                                    self.entries.set(pid.0 as usize, Some(pe));
                                }
                                None => {}
                            }
                        }
                    }
                    None => {}
                }
                let ghost fl = self.free@;
                self.free.push(id.0);
                proof {
                    assert forall|i: int, j: int| 0 <= i < self.free@.len() && 0 <= j < self.free@.len() && i != j
                        implies self.free@[i] != self.free@[j] by {
                        if i < fl.len() && j < fl.len() {
                        } else if i < fl.len() {
                            assert(self.entries@[fl[i] as int] is None);
                        } else {
                            assert(self.entries@[fl[j] as int] is None);
                        }
                    }
                }
                Some(entry)
            }
        }
    }
}

/// `ids` without `x`, in order.
pub fn without_child(ids: &Vec<ElementId>, x: ElementId) -> (out: Vec<ElementId>)
    ensures
        forall|c: ElementId| out@.contains(c) <==> (ids@.contains(c) && c != x),
{
    let mut out: Vec<ElementId> = Vec::new();
    let mut i: usize = 0;
    while i < ids.len()
        invariant
            0 <= i <= ids@.len(),
            forall|c: ElementId| out@.contains(c) <==> (ids@.subrange(0, i as int).contains(c) && c != x),
        decreases ids@.len() - i,
    {
        let c = ids[i];
        let ghost o0 = out@;
        let ghost pre = ids@.subrange(0, i as int);
        if c != x {
            out.push(c);
        }
        proof {
            assert(ids@.subrange(0, i + 1) =~= pre.push(c));
            assert forall|d: ElementId| out@.contains(d) <==> (ids@.subrange(0, i + 1).contains(d) && d != x) by {
                if out@.contains(d) {
                    let k = choose|k: int| 0 <= k < out@.len() && out@[k] == d;
                    if k < o0.len() { assert(o0[k] == d); assert(o0.contains(d)); } else { assert(d == c); assert(pre.push(c)[i as int] == c); }
                }
                if ids@.subrange(0, i + 1).contains(d) && d != x {
                    let k = choose|k: int| 0 <= k < i + 1 && #[trigger] ids@.subrange(0, i + 1)[k] == d;
                    if k < i { assert(pre[k] == d); assert(pre.contains(d)); assert(o0.contains(d));
                        let m = choose|m: int| 0 <= m < o0.len() && o0[m] == d; assert(out@[m] == d); }
                    else { assert(out@[out@.len() - 1] == d); }
                }
            }
        }
        i = i + 1;
    }
    proof { assert(ids@.subrange(0, ids@.len() as int) =~= ids@); }
    out
}


/// A copy of `s`.
fn clone_opt(s: &Option<String>) -> (r: Option<String>)
    ensures
        r == *s,
{
    match s {
        Some(x) => Some(x.clone()),
        None => None,
    }
}

/// The snapshot of entry `e` at slot `id`.
fn element_of<A>(id: u32, e: &RegistryEntry<A>) -> (el: Element)
    ensures
        el@ == entry_view(id, *e),
{
    Element { id: ElementId(id), kind: e.kind, test_id: clone_opt(&e.test_id), label: clone_opt(&e.label) }
}

/// Whether entry `e` answers `q`.
fn entry_matches<A>(e: &RegistryEntry<A>, q: &Query) -> (b: bool)
    ensures
        b == selects(*e, *q),
{
    match q {
        Query::TestId(t) => match &e.test_id {
            Some(x) => *x == *t,
            None => false,
        },
        Query::Label(t) => match &e.label {
            Some(x) => *x == *t,
            None => false,
        },
        Query::LabelContains(t) => match &e.label {
            Some(x) => crate::robot::text::contains_str(x.as_str(), t.as_str()),
            None => false,
        },
        Query::Kind(k) => e.kind == *k,
        Query::All => true,
    }
}

/// The live slots among `ids`, in order.
pub open spec fn live_ids<A>(entries: Seq<Option<RegistryEntry<A>>>, ids: Seq<ElementId>) -> Seq<u32>
    decreases ids.len(),
{
    if ids.len() == 0 {
        Seq::empty()
    } else {
        let rest = live_ids(entries, ids.drop_last());
        let c = ids.last().0;
        if c < entries.len() && entries[c as int] is Some { rest.push(c) } else { rest }
    }
}

/// Entry at slot `i` is a snapshot root: live, with no live parent.
pub open spec fn is_root<A>(entries: Seq<Option<RegistryEntry<A>>>, i: int) -> bool {
    &&& entries[i] is Some
    &&& match entries[i]->Some_0.parent {
        None => true,
        Some(p) => !(p.0 < entries.len() && entries[p.0 as int] is Some),
    }
}

/// The snapshot roots among the first `n` slots, in order.
pub open spec fn roots<A>(entries: Seq<Option<RegistryEntry<A>>>, n: int) -> Seq<u32>
    decreases n,
{
    if n <= 0 {
        Seq::empty()
    } else if is_root(entries, n - 1) {
        roots(entries, n - 1).push((n - 1) as u32)
    } else {
        roots(entries, n - 1)
    }
}

/// `node` is the snapshot, `fuel` levels deep at most, of live slot
/// `node.id`: its fields are the entry's and its children are the
/// snapshots of the entry's live children, in order.
pub open spec fn tree_ok<A>(entries: Seq<Option<RegistryEntry<A>>>, node: TreeNode, fuel: nat) -> bool
    decreases fuel,
{
    let id = node.id.0;
    &&& fuel > 0
    &&& id < entries.len()
    &&& entries[id as int] is Some
    &&& {
        let e = entries[id as int]->Some_0;
        let kids = live_ids(entries, e.children@);
        &&& node.kind == e.kind
        &&& opt_view(node.test_id) == opt_view(e.test_id)
        &&& opt_view(node.label) == opt_view(e.label)
        &&& fuel > 1 ==> node.children@.len() == kids.len()
        &&& fuel == 1 ==> node.children@.len() == 0
        &&& forall|j: int| 0 <= j < node.children@.len() ==>
                (#[trigger] node.children@[j]).id.0 == kids[j] && tree_ok(entries, node.children@[j], (fuel - 1) as nat)
    }
}

/// Robot access to the element registry.
pub struct Robot<A> {
    reg: Registry<A>,
}

impl<A> Robot<A> {
    #[verifier::type_invariant]
    spec fn inv(self) -> bool {
        self.reg.wf()
    }

    /// The registry.
    pub closed spec fn registry(&self) -> Registry<A> {
        self.reg
    }
}

impl<A: Actions> Robot<A> {
    /// A robot over an empty registry.
    pub fn new() -> (r: Self)
        ensures
            r.registry().entries@.len() == 0,
            r.registry().by_test_id@.len() == 0,
    {
        Robot { reg: Registry::new() }
    }

    /// Forget every element.
    pub fn reset(&mut self)
        ensures
            final(self).registry().entries@.len() == 0,
            final(self).registry().by_test_id@.len() == 0,
    {
        self.reg = Registry::new();
    }

    /// Register a mounted element.
    pub fn register(&mut self, entry: RegistryEntry<A>) -> (id: ElementId)
        requires
            old(self).registry().free@.len() > 0 || old(self).registry().entries@.len() < u32::MAX,
        ensures
            final(self).registry().live(id.0),
            final(self).registry().entry(id.0) == entry,
            !old(self).registry().live(id.0),
            old(self).registry().free@.len() > 0 ==> id.0 == old(self).registry().free@.last(),
            old(self).registry().free@.len() == 0 ==> id.0 == old(self).registry().entries@.len(),
            forall|i: u32| i != id.0 ==> (#[trigger] final(self).registry().live(i) == old(self).registry().live(i)),
            forall|i: u32| i != id.0 && old(self).registry().live(i) ==>
                #[trigger] final(self).registry().entry(i) == old(self).registry().entry(i),
            forall|k: Seq<char>| #[trigger] index_find(final(self).registry().by_test_id@, k)
                == if entry.test_id is Some && k == entry.test_id->Some_0@ { Some(id.0) } else { index_find(old(self).registry().by_test_id@, k) },
    {
        proof { use_type_invariant(&*self); }
        let mut reg = Registry::new();
        std::mem::swap(&mut reg, &mut self.reg);
        let id = reg.insert(entry);
        self.reg = reg;
        id
    }

    /// Unregister an unmounted element: its test-id index entry goes, it
    /// is unlinked from its parent's children, and its slot is freed.
    /// Every other element stays as it was. An id that is not live
    /// changes nothing.
    pub fn deregister(&mut self, id: ElementId)
        ensures
            !final(self).registry().live(id.0),
            old(self).registry().live(id.0) ==> final(self).registry().free@ == old(self).registry().free@.push(id.0),
            forall|i: u32| i != id.0 ==> (#[trigger] final(self).registry().live(i) == old(self).registry().live(i)),
            forall|i: u32| i != id.0 && old(self).registry().live(i) ==> {
                let o = old(self).registry().entry(i);
                let n = #[trigger] final(self).registry().entry(i);
                &&& n.kind == o.kind && n.test_id == o.test_id && n.label == o.label
                &&& n.parent == o.parent && n.available == o.available
                &&& forall|c: ElementId| n.children@.contains(c) <==> (o.children@.contains(c) && (c != id
                        || !(old(self).registry().live(id.0) && old(self).registry().entry(id.0).parent == Some(ElementId(i)))))
            },
            !old(self).registry().live(id.0) ==> final(self).registry().entries@ == old(self).registry().entries@
                && final(self).registry().by_test_id == old(self).registry().by_test_id,
            old(self).registry().live(id.0) ==> forall|k: Seq<char>| #[trigger] index_find(final(self).registry().by_test_id@, k)
                == if old(self).registry().entry(id.0).test_id matches Some(t) && k == t@ { None }
                    else { index_find(old(self).registry().by_test_id@, k) },
    {
        proof { use_type_invariant(&*self); }
        let mut reg = Registry::new();
        std::mem::swap(&mut reg, &mut self.reg);
        let _ = reg.remove(id);
        self.reg = reg;
    }

    /// Record `child` as the last child of live element `parent`.
    pub fn add_child(&mut self, parent: ElementId, child: ElementId)
        ensures
            old(self).registry().live(parent.0) ==> final(self).registry().entry(parent.0).children@
                == old(self).registry().entry(parent.0).children@.push(child),
            forall|i: u32| #[trigger] final(self).registry().live(i) == old(self).registry().live(i),
            forall|i: u32| i != parent.0 && old(self).registry().live(i) ==>
                #[trigger] final(self).registry().entry(i) == old(self).registry().entry(i),
    {
        proof { use_type_invariant(&*self); }
        let mut reg = Registry::new();
        std::mem::swap(&mut reg, &mut self.reg);
        if (parent.0 as usize) < reg.entries.len() {
            let taken = reg.entries[parent.0 as usize].take();
            match taken {
                Some(mut e) => {
                    e.children.push(child);
                    reg.entries.set(parent.0 as usize, Some(e));
                }
                None => {}
            }
        }
        proof {
            assert forall|k: int| 0 <= k < reg.free@.len() implies
                (#[trigger] reg.free@[k]) < reg.entries@.len() && reg.entries@[reg.free@[k] as int] is None by {
                assert(old(self).registry().entries@[reg.free@[k] as int] is None);
            }
        }
        self.reg = reg;
    }

    /// Attach measuring actions to live element `id` once it has a frame:
    /// `actions` replaces its actions, and the three frame actions become
    /// available. A gone element is left alone.
    pub fn attach_frame_actions(&mut self, id: ElementId, actions: A)
        ensures
            old(self).registry().live(id.0) ==> {
                let e0 = old(self).registry().entry(id.0);
                let e1 = final(self).registry().entry(id.0);
                &&& e1.actions == actions
                &&& e1.available == (ActionSet { frame: true, absolute_frame: true, device_frame: true, ..e0.available })
                &&& e1.kind == e0.kind && e1.test_id == e0.test_id && e1.label == e0.label
                &&& e1.parent == e0.parent && e1.children == e0.children
            },
            forall|i: u32| #[trigger] final(self).registry().live(i) == old(self).registry().live(i),
            forall|i: u32| i != id.0 && old(self).registry().live(i) ==>
                #[trigger] final(self).registry().entry(i) == old(self).registry().entry(i),
            final(self).registry().by_test_id@ == old(self).registry().by_test_id@,
    {
        proof { use_type_invariant(&*self); }
        let mut reg = Registry::new();
        std::mem::swap(&mut reg, &mut self.reg);
        if (id.0 as usize) < reg.entries.len() {
            let taken = reg.entries[id.0 as usize].take();
            match taken {
                Some(mut e) => {
                    e.actions = actions;
                    e.available.frame = true;
                    e.available.absolute_frame = true;
                    e.available.device_frame = true;
                    reg.entries.set(id.0 as usize, Some(e));
                }
                None => {}
            }
        }
        proof {
            assert forall|k: int| 0 <= k < reg.free@.len() implies
                (#[trigger] reg.free@[k]) < reg.entries@.len() && reg.entries@[reg.free@[k] as int] is None by {
                assert(old(self).registry().entries@[reg.free@[k] as int] is None);
            }
        }
        self.reg = reg;
    }

    /// Every live element answering `q`, in slot order.
    pub fn find_all(&self, q: Query) -> (out: Vec<Element>)
        ensures
            out@.len() == select(self.registry().entries@, q).len(),
            forall|j: int| 0 <= j < out@.len() ==> {
                let id = select(self.registry().entries@, q)[j];
                #[trigger] out@[j]@ == entry_view(id, self.registry().entry(id))
            },
    {
        proof { use_type_invariant(self); }
        let entries = &self.reg.entries;
        let mut out: Vec<Element> = Vec::new();
        let mut i: usize = 0;
        while i < entries.len()
            invariant
                0 <= i <= entries@.len(),
                entries@.len() <= u32::MAX,
                entries@ == self.registry().entries@,
                out@.len() == select(entries@.subrange(0, i as int), q).len(),
                forall|j: int| 0 <= j < out@.len() ==> {
                    let id = select(entries@.subrange(0, i as int), q)[j];
                    &&& id < i
                    &&& #[trigger] out@[j]@ == entry_view(id, entries@[id as int]->Some_0)
                },
            decreases entries@.len() - i,
        {
            let ghost pre = entries@.subrange(0, i as int);
            let ghost pre1 = entries@.subrange(0, i + 1);
            proof {
                assert(pre1.drop_last() =~= pre);
                assert(pre1.last() == entries@[i as int]);
            }
            match &entries[i] {
                Some(e) => {
                    if entry_matches(e, &q) {
                        let el = element_of(i as u32, e);
                        out.push(el);
                    }
                }
                None => {}
            }
            i = i + 1;
        }
        proof { assert(entries@.subrange(0, entries@.len() as int) =~= entries@); }
        out
    }

    /// Every live element, in slot order.
    pub fn elements(&self) -> (out: Vec<Element>)
        ensures
            out@.len() == select(self.registry().entries@, Query::All).len(),
            forall|j: int| 0 <= j < out@.len() ==> {
                let id = select(self.registry().entries@, Query::All)[j];
                #[trigger] out@[j]@ == entry_view(id, self.registry().entry(id))
            },
    {
        self.find_all(Query::All)
    }

    /// How many live elements there are (of kind `kind`, if given).
    pub fn count(&self, kind: Option<ElementKind>) -> (n: usize)
        ensures
            kind matches Some(k) ==> n == select(self.registry().entries@, Query::Kind(k)).len(),
            kind is None ==> n == select(self.registry().entries@, Query::All).len(),
    {
        let q = match kind {
            Some(k) => Query::Kind(k),
            None => Query::All,
        };
        self.find_all(q).len()
    }

    /// The first live element answering `q` in slot order; for a test id,
    /// the element the test-id index points at, if it is live.
    pub fn find(&self, q: Query) -> (r: Option<Element>)
        ensures
            q matches Query::TestId(t) ==> match index_find(self.registry().by_test_id@, t@) {
                Some(id) => if self.registry().live(id) {
                        r is Some && r->Some_0@ == entry_view(id, self.registry().entry(id))
                    } else {
                        r is None
                    },
                None => r is None,
            },
            !(q is TestId) ==> match r {
                Some(el) => {
                    &&& self.registry().live(el.id.0)
                    &&& selects(self.registry().entry(el.id.0), q)
                    &&& el@ == entry_view(el.id.0, self.registry().entry(el.id.0))
                    &&& forall|j: u32| j < el.id.0 && #[trigger] self.registry().live(j) ==> !selects(self.registry().entry(j), q)
                },
                None => forall|j: u32| #[trigger] self.registry().live(j) ==> !selects(self.registry().entry(j), q),
            },
    {
        match &q {
            Query::TestId(t) => {
                match self.reg.find_by_test_id(t) {
                    Some(id) => match self.reg.get(id) {
                        Some(e) => Some(element_of(id.0, e)),
                        None => None,
                    },
                    None => None,
                }
            }
            _ => {
                proof { use_type_invariant(self); }
                let entries = &self.reg.entries;
                let mut i: usize = 0;
                while i < entries.len()
                    invariant
                        0 <= i <= entries@.len(),
                        entries@.len() <= u32::MAX,
                        entries@ == self.registry().entries@,
                        !(q is TestId),
                        forall|j: u32| j < i && #[trigger] self.registry().live(j) ==> !selects(self.registry().entry(j), q),
                    decreases entries@.len() - i,
                {
                    match &entries[i] {
                        Some(e) => {
                            if entry_matches(e, &q) {
                                return Some(element_of(i as u32, e));
                            }
                        }
                        None => {}
                    }
                    i = i + 1;
                }
                None
            }
        }
    }

    /// The live children of `el`, in order.
    pub fn children_of(&self, el: &Element) -> (out: Vec<Element>)
        ensures
            !self.registry().live(el.id.0) ==> out@.len() == 0,
            self.registry().live(el.id.0) ==> {
                let kids = live_ids(self.registry().entries@, self.registry().entry(el.id.0).children@);
                &&& out@.len() == kids.len()
                &&& forall|j: int| 0 <= j < out@.len() ==>
                        #[trigger] out@[j]@ == entry_view(kids[j], self.registry().entry(kids[j]))
            },
    {
        match self.reg.get(el.id) {
            None => Vec::new(),
            Some(e) => self.live_elements(&e.children),
        }
    }

    /// The live elements among `ids`, in order.
    fn live_elements(&self, ids: &Vec<ElementId>) -> (out: Vec<Element>)
        ensures
            out@.len() == live_ids(self.registry().entries@, ids@).len(),
            forall|j: int| 0 <= j < out@.len() ==> {
                let id = live_ids(self.registry().entries@, ids@)[j];
                #[trigger] out@[j]@ == entry_view(id, self.registry().entry(id))
            },
    {
        let mut out: Vec<Element> = Vec::new();
        let mut i: usize = 0;
        while i < ids.len()
            invariant
                0 <= i <= ids@.len(),
                out@.len() == live_ids(self.registry().entries@, ids@.subrange(0, i as int)).len(),
                forall|j: int| 0 <= j < out@.len() ==> {
                    let id = live_ids(self.registry().entries@, ids@.subrange(0, i as int))[j];
                    #[trigger] out@[j]@ == entry_view(id, self.registry().entry(id))
                },
            decreases ids@.len() - i,
        {
            let ghost pre = ids@.subrange(0, i as int);
            let ghost pre1 = ids@.subrange(0, i + 1);
            proof {
                assert(pre1.drop_last() =~= pre);
                assert(pre1.last() == ids@[i as int]);
            }
            match self.reg.get(ids[i]) {
                Some(e) => {
                    let el = element_of(ids[i].0, e);
                    out.push(el);
                }
                None => {}
            }
            i = i + 1;
        }
        proof { assert(ids@.subrange(0, ids@.len() as int) =~= ids@); }
        out
    }

    /// The live parent of `el`.
    pub fn parent_of(&self, el: &Element) -> (r: Option<Element>)
        ensures
            r is Some <==> (self.registry().live(el.id.0) && self.registry().entry(el.id.0).parent is Some
                && self.registry().live(self.registry().entry(el.id.0).parent->Some_0.0)),
            r matches Some(p) ==> p.id == self.registry().entry(el.id.0).parent->Some_0
                && p@ == entry_view(p.id.0, self.registry().entry(p.id.0)),
    {
        match self.reg.get(el.id) {
            None => None,
            Some(e) => match e.parent {
                None => None,
                Some(pid) => match self.reg.get(pid) {
                    Some(pe) => Some(element_of(pid.0, pe)),
                    None => None,
                },
            },
        }
    }

    /// The snapshot of live element `id` and its live descendants, at most
    /// `fuel` levels deep.
    fn build_tree_node(&self, id: ElementId, fuel: usize) -> (r: Option<TreeNode>)
        ensures
            r is Some <==> (fuel > 0 && self.registry().live(id.0)),
            r matches Some(n) ==> n.id == id && tree_ok(self.registry().entries@, n, fuel as nat),
        decreases fuel,
    {
        if fuel == 0 {
            return None;
        }
        match self.reg.get(id) {
            None => None,
            Some(e) => {
                let mut children: Vec<TreeNode> = Vec::new();
                if fuel > 1 {
                    let ids = &e.children;
                    let mut i: usize = 0;
                    while i < ids.len()
                        invariant
                            0 <= i <= ids@.len(),
                            fuel > 1,
                            children@.len() == live_ids(self.registry().entries@, ids@.subrange(0, i as int)).len(),
                            forall|j: int| 0 <= j < children@.len() ==>
                                (#[trigger] children@[j]).id.0 == live_ids(self.registry().entries@, ids@.subrange(0, i as int))[j]
                                && tree_ok(self.registry().entries@, children@[j], (fuel - 1) as nat),
                        decreases ids@.len() - i,
                    {
                        let ghost pre = ids@.subrange(0, i as int);
                        let ghost pre1 = ids@.subrange(0, i + 1);
                        proof {
                            assert(pre1.drop_last() =~= pre);
                            assert(pre1.last() == ids@[i as int]);
                        }
                        match self.build_tree_node(ids[i], fuel - 1) {
                            Some(n) => children.push(n),
                            None => {}
                        }
                        i = i + 1;
                    }
                    proof { assert(ids@.subrange(0, ids@.len() as int) =~= ids@); }
                }
                Some(TreeNode { id, kind: e.kind, test_id: clone_opt(&e.test_id), label: clone_opt(&e.label), children })
            }
        }
    }

    /// The snapshot of `el` and its live descendants; `None` once it is gone.
    pub fn subtree(&self, el: &Element) -> (r: Option<TreeNode>)
        ensures
            r is Some <==> self.registry().live(el.id.0),
            r matches Some(n) ==> n.id == el.id
                && tree_ok(self.registry().entries@, n, self.registry().entries@.len()),
    {
        proof { use_type_invariant(self); }
        let fuel = self.reg.entries.len();
        self.build_tree_node(el.id, fuel)
    }

    /// Snapshots of every root: each live element whose parent is absent
    /// or no longer live, in slot order.
    pub fn snapshot(&self) -> (out: Vec<TreeNode>)
        ensures
            out@.len() == roots(self.registry().entries@, self.registry().entries@.len() as int).len(),
            forall|j: int| 0 <= j < out@.len() ==>
                (#[trigger] out@[j]).id.0 == roots(self.registry().entries@, self.registry().entries@.len() as int)[j]
                && tree_ok(self.registry().entries@, out@[j], self.registry().entries@.len()),
    {
        proof { use_type_invariant(self); }
        let n = self.reg.entries.len();
        let mut out: Vec<TreeNode> = Vec::new();
        let mut i: usize = 0;
        while i < n
            invariant
                0 <= i <= n,
                n == self.registry().entries@.len(),
                n <= u32::MAX,
                out@.len() == roots(self.registry().entries@, i as int).len(),
                forall|j: int| 0 <= j < out@.len() ==>
                    (#[trigger] out@[j]).id.0 == roots(self.registry().entries@, i as int)[j]
                    && tree_ok(self.registry().entries@, out@[j], n as nat),
            decreases n - i,
        {
            let root = match &self.reg.entries[i] {
                Some(e) => match e.parent {
                    None => true,
                    Some(p) => self.reg.get(p).is_none(),
                },
                None => false,
            };
            if root {
                match self.build_tree_node(ElementId(i as u32), n) {
                    Some(t) => out.push(t),
                    None => {}
                }
            }
            i = i + 1;
        }
        out
    }
}


impl Query {
    pub fn test_id(id: &str) -> (q: Query)
        ensures
            q matches Query::TestId(t) && t@ == id@,
    {
        Query::TestId(String::from_str(id))
    }

    pub fn label(text: &str) -> (q: Query)
        ensures
            q matches Query::Label(t) && t@ == text@,
    {
        Query::Label(String::from_str(text))
    }

    pub fn label_contains(text: &str) -> (q: Query)
        ensures
            q matches Query::LabelContains(t) && t@ == text@,
    {
        Query::LabelContains(String::from_str(text))
    }

    pub fn kind(kind: ElementKind) -> (q: Query)
        ensures
            q == Query::Kind(kind),
    {
        Query::Kind(kind)
    }
}

impl RobotError {
    /// The human-readable message.
    pub fn message(&self) -> (m: String)
        ensures
            self is ElementGone ==> m@ == "element has been unmounted"@,
            self is NotFound ==> m@ == "no element matched the query"@,
            self matches RobotError::ActionNotAvailable(a) ==>
                m@ == "action '"@ + a@ + "' not available on this element"@,
    {
        match self {
            RobotError::ElementGone => String::from_str("element has been unmounted"),
            RobotError::NotFound => String::from_str("no element matched the query"),
            RobotError::ActionNotAvailable(a) => {
                let m = String::from_str("action '");
                let m = m.concat(a);
                m.concat("' not available on this element")
            }
        }
    }
}

impl<A: Actions> Robot<A> {
    /// The entry of `el`, or `ElementGone`.
    fn entry_of(&self, el: &Element) -> (r: Result<&RegistryEntry<A>, RobotError>)
        ensures
            r is Ok <==> self.registry().live(el.id.0),
            r matches Ok(e) ==> *e == self.registry().entry(el.id.0),
            r matches Err(x) ==> x == RobotError::ElementGone,
    {
        match self.reg.get(el.id) {
            Some(e) => Ok(e),
            None => Err(RobotError::ElementGone),
        }
    }

    /// The actions wired to `el`, for a host action the robot has no verb
    /// for; `ElementGone` once it is unmounted.
    pub fn actions(&self, el: &Element) -> (r: Result<&A, RobotError>)
        ensures
            r is Ok <==> self.registry().live(el.id.0),
            r matches Ok(a) ==> *a == self.registry().entry(el.id.0).actions,
            r matches Err(x) ==> x == RobotError::ElementGone,
    {
        match self.entry_of(el) {
            Ok(e) => Ok(&e.actions),
            Err(x) => Err(x),
        }
    }

    /// Tap `el`.
    pub fn click(&self, el: &Element) -> (r: Result<(), RobotError>)
        ensures
            !self.registry().live(el.id.0) ==> r == Err::<(), RobotError>(RobotError::ElementGone),
            self.registry().live(el.id.0) && !self.registry().entry(el.id.0).available.click ==>
                r == Err::<(), RobotError>(RobotError::ActionNotAvailable("click")),
            self.registry().live(el.id.0) && self.registry().entry(el.id.0).available.click ==> r is Ok,
            r is Ok ==> call_ensures(A::click, (&self.registry().entry(el.id.0).actions,), ()),
    {
        let e = self.entry_of(el)?;
        if !e.available.click {
            return Err(RobotError::ActionNotAvailable("click"));
        }
        e.actions.click();
        Ok(())
    }

    /// Replace the text of `el`.
    pub fn type_text(&self, el: &Element, text: &str) -> (r: Result<(), RobotError>)
        ensures
            !self.registry().live(el.id.0) ==> r == Err::<(), RobotError>(RobotError::ElementGone),
            self.registry().live(el.id.0) && !self.registry().entry(el.id.0).available.set_text ==>
                r == Err::<(), RobotError>(RobotError::ActionNotAvailable("type_text")),
            self.registry().live(el.id.0) && self.registry().entry(el.id.0).available.set_text ==> r is Ok,
            r is Ok ==> exists|t: String| t@ == text@ && #[trigger] call_ensures(A::set_text, (&self.registry().entry(el.id.0).actions, t), ()),
    {
        let e = self.entry_of(el)?;
        if !e.available.set_text {
            return Err(RobotError::ActionNotAvailable("type_text"));
        }
        e.actions.set_text(String::from_str(text));
        Ok(())
    }

    /// Set the toggle `el` to `value`.
    pub fn set_toggle(&self, el: &Element, value: bool) -> (r: Result<(), RobotError>)
        ensures
            !self.registry().live(el.id.0) ==> r == Err::<(), RobotError>(RobotError::ElementGone),
            self.registry().live(el.id.0) && !self.registry().entry(el.id.0).available.set_toggle ==>
                r == Err::<(), RobotError>(RobotError::ActionNotAvailable("set_toggle")),
            self.registry().live(el.id.0) && self.registry().entry(el.id.0).available.set_toggle ==> r is Ok,
            r is Ok ==> call_ensures(A::set_toggle, (&self.registry().entry(el.id.0).actions, value), ()),
    {
        let e = self.entry_of(el)?;
        if !e.available.set_toggle {
            return Err(RobotError::ActionNotAvailable("set_toggle"));
        }
        e.actions.set_toggle(value);
        Ok(())
    }

    /// Focus `el`.
    pub fn focus(&self, el: &Element) -> (r: Result<(), RobotError>)
        ensures
            !self.registry().live(el.id.0) ==> r == Err::<(), RobotError>(RobotError::ElementGone),
            self.registry().live(el.id.0) && !self.registry().entry(el.id.0).available.focus ==>
                r == Err::<(), RobotError>(RobotError::ActionNotAvailable("focus")),
            self.registry().live(el.id.0) && self.registry().entry(el.id.0).available.focus ==> r is Ok,
            r is Ok ==> call_ensures(A::focus, (&self.registry().entry(el.id.0).actions,), ()),
    {
        let e = self.entry_of(el)?;
        if !e.available.focus {
            return Err(RobotError::ActionNotAvailable("focus"));
        }
        e.actions.focus();
        Ok(())
    }

    /// Blur `el`.
    pub fn blur(&self, el: &Element) -> (r: Result<(), RobotError>)
        ensures
            !self.registry().live(el.id.0) ==> r == Err::<(), RobotError>(RobotError::ElementGone),
            self.registry().live(el.id.0) && !self.registry().entry(el.id.0).available.blur ==>
                r == Err::<(), RobotError>(RobotError::ActionNotAvailable("blur")),
            self.registry().live(el.id.0) && self.registry().entry(el.id.0).available.blur ==> r is Ok,
            r is Ok ==> call_ensures(A::blur, (&self.registry().entry(el.id.0).actions,), ()),
    {
        let e = self.entry_of(el)?;
        if !e.available.blur {
            return Err(RobotError::ActionNotAvailable("blur"));
        }
        e.actions.blur();
        Ok(())
    }

    /// Measure `el` the way `which` says.
    fn measure(&self, el: &Element, which: FrameKind) -> (r: Result<Option<A::Rect>, RobotError>)
        ensures
            !self.registry().live(el.id.0) ==> (r is Err && r->Err_0 == RobotError::ElementGone),
            self.registry().live(el.id.0) ==> {
                let s = self.registry().entry(el.id.0).available;
                let ok = match which { FrameKind::Local => s.frame, FrameKind::Absolute => s.absolute_frame, FrameKind::Device => s.device_frame };
                let name = match which { FrameKind::Local => "frame", FrameKind::Absolute => "absolute_frame", FrameKind::Device => "device_frame" };
                &&& !ok ==> (r is Err && r->Err_0 == RobotError::ActionNotAvailable(name))
                &&& ok ==> r is Ok
            },
            r matches Ok(x) ==> call_ensures(A::frame, (&self.registry().entry(el.id.0).actions, which), x),
    {
        let e = self.entry_of(el)?;
        let (ok, name) = match which {
            FrameKind::Local => (e.available.frame, "frame"),
            FrameKind::Absolute => (e.available.absolute_frame, "absolute_frame"),
            FrameKind::Device => (e.available.device_frame, "device_frame"),
        };
        if !ok {
            return Err(RobotError::ActionNotAvailable(name));
        }
        Ok(e.actions.frame(which))
    }

    /// The frame of `el` relative to its parent.
    pub fn frame(&self, el: &Element) -> (r: Result<Option<A::Rect>, RobotError>)
        ensures
            !self.registry().live(el.id.0) ==> (r is Err && r->Err_0 == RobotError::ElementGone),
            self.registry().live(el.id.0) && !self.registry().entry(el.id.0).available.frame ==>
                (r is Err && r->Err_0 == RobotError::ActionNotAvailable("frame")),
            self.registry().live(el.id.0) && self.registry().entry(el.id.0).available.frame ==> r is Ok,
            r matches Ok(x) ==> call_ensures(A::frame, (&self.registry().entry(el.id.0).actions, FrameKind::Local), x),
    {
        self.measure(el, FrameKind::Local)
    }

    /// The frame of `el` in window coordinates.
    pub fn absolute_frame(&self, el: &Element) -> (r: Result<Option<A::Rect>, RobotError>)
        ensures
            !self.registry().live(el.id.0) ==> (r is Err && r->Err_0 == RobotError::ElementGone),
            self.registry().live(el.id.0) && !self.registry().entry(el.id.0).available.absolute_frame ==>
                (r is Err && r->Err_0 == RobotError::ActionNotAvailable("absolute_frame")),
            self.registry().live(el.id.0) && self.registry().entry(el.id.0).available.absolute_frame ==> r is Ok,
            r matches Ok(x) ==> call_ensures(A::frame, (&self.registry().entry(el.id.0).actions, FrameKind::Absolute), x),
    {
        self.measure(el, FrameKind::Absolute)
    }

    /// The frame of `el` in device-screen pixels.
    pub fn device_frame(&self, el: &Element) -> (r: Result<Option<A::Rect>, RobotError>)
        ensures
            !self.registry().live(el.id.0) ==> (r is Err && r->Err_0 == RobotError::ElementGone),
            self.registry().live(el.id.0) && !self.registry().entry(el.id.0).available.device_frame ==>
                (r is Err && r->Err_0 == RobotError::ActionNotAvailable("device_frame")),
            self.registry().live(el.id.0) && self.registry().entry(el.id.0).available.device_frame ==> r is Ok,
            r matches Ok(x) ==> call_ensures(A::frame, (&self.registry().entry(el.id.0).actions, FrameKind::Device), x),
    {
        self.measure(el, FrameKind::Device)
    }

    /// Read `signal` without subscribing anything.
    pub fn read_signal<V: Clone + PartialEq, B: Reaction<V>>(&self, rt: &Runtime<V, B>, signal: Signal) -> (v: V)
        requires
            rt.state().live(signal),
        ensures
            cloned(rt.state().arena.sig_value(signal.id), v),
    {
        signal.get_untracked(rt)
    }

    /// Write `signal` (notifying as `Signal::set` does).
    pub fn write_signal<V: Clone + PartialEq, B: Reaction<V>>(&self, rt: &mut Runtime<V, B>, signal: Signal, value: V)
        requires
            old(rt).state().memo_depth == 0,
        ensures
            same_frame(old(rt).state(), final(rt).state()),
            !old(rt).state().live(signal) ==> final(rt).state() == old(rt).state(),
            wrote(old(rt).state(), final(rt).state(), signal, value),
    {
        signal.set(rt, value)
    }

    /// Update `signal` with `f` (notifying as `Signal::update` does).
    pub fn update_signal<V: Clone + PartialEq, B: Reaction<V>, F: FnOnce(V) -> V>(&self, rt: &mut Runtime<V, B>, signal: Signal, f: F)
        requires
            old(rt).state().memo_depth == 0,
            old(rt).state().live(signal) ==> f.requires((old(rt).state().arena.sig_value(signal.id),)),
        ensures
            same_frame(old(rt).state(), final(rt).state()),
            !old(rt).state().live(signal) ==> final(rt).state() == old(rt).state(),
            old(rt).state().live(signal) ==> exists|v: V| #[trigger] f.ensures((old(rt).state().arena.sig_value(signal.id),), v)
                && wrote(old(rt).state(), final(rt).state(), signal, v),
    {
        signal.update(rt, f)
    }

    /// Whether ref `r` holds a mounted handle.
    pub fn is_mounted<V: Clone + PartialEq, B: Reaction<V>>(&self, rt: &Runtime<V, B>, r: Ref) -> (b: bool)
        ensures
            b == (ref_contents(rt.state().arena.refs@, r.id) is Some),
    {
        r.is_mounted(rt)
    }

    /// The reactive arena's counters.
    pub fn arena_stats<V: Clone + PartialEq, B: Reaction<V>>(&self, rt: &Runtime<V, B>) -> (a: ArenaStats)
        ensures
            a.signals_in_use == count_some(rt.state().arena.values@),
            a.signals_total == rt.state().arena.values@.len(),
            a.effects_in_use == count_live(rt.state().arena.effects@),
            a.effects_total == rt.state().arena.effects@.len(),
            a.refs_in_use == count_some(rt.state().arena.refs@),
            a.refs_total == rt.state().arena.refs@.len(),
            a.total_subscribers == if total_len(rt.state().arena.subs@) <= usize::MAX { total_len(rt.state().arena.subs@) } else { usize::MAX as nat },
            a.total_deps == if total_len(rt.state().arena.deps@) <= usize::MAX { total_len(rt.state().arena.deps@) } else { usize::MAX as nat },
    {
        arena_stats(rt)
    }
}


/// Registering an element and deregistering it leaves every slot as live
/// or free as it was before.
pub proof fn law_register_then_deregister_restores_liveness<A>(r0: Registry<A>, r1: Registry<A>, r2: Registry<A>, id: u32)
    requires
        !r0.live(id),
        r1.live(id),
        forall|i: u32| i != id ==> (#[trigger] r1.live(i) == r0.live(i)),
        !r2.live(id),
        forall|i: u32| i != id ==> (#[trigger] r2.live(i) == r1.live(i)),
    ensures
        forall|i: u32| #[trigger] r2.live(i) == r0.live(i),
{
}

/// The slot of the last deregistered element is the next one registered
/// (the free list is last-in, first-out).
pub proof fn law_deregistered_slot_is_reused_next<A>(r0: Registry<A>, r1: Registry<A>, id: u32)
    requires
        r1.free@ == r0.free@.push(id),
    ensures
        r1.free@.len() > 0,
        r1.free@.last() == id,
{
}

/// Deregistering an element drops only its own test-id index entry: after
/// `deregister` of a live element (`before` to `after`), every other test
/// id is found exactly as before, and its own test id finds nothing.
pub proof fn law_deregister_keeps_other_test_ids<A: Actions>(before: Robot<A>, after: Robot<A>, id: ElementId, k: Seq<char>)
    requires
        exists|r: &mut Robot<A>| #[trigger] call_ensures(Robot::<A>::deregister, (r, id), ()) && *r == before && *final(r) == after,
        before.registry().live(id.0),
    ensures
        !(before.registry().entry(id.0).test_id is Some && before.registry().entry(id.0).test_id->Some_0@ == k) ==>
            index_find(after.registry().by_test_id@, k) == index_find(before.registry().by_test_id@, k),
        before.registry().entry(id.0).test_id is Some && before.registry().entry(id.0).test_id->Some_0@ == k ==>
            index_find(after.registry().by_test_id@, k) is None,
{
}

} // verus!

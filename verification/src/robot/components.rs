//! The component-method registry, beside the element registry: each
//! mounted component that declares methods gets a fresh instance id, and
//! automation can list the instances and invoke their methods by name.
//! An instance may be linked to the element it renders as.
use vstd::prelude::*;
use vstd::string::StrSliceExecFns;
use crate::robot::ElementId;
use crate::robot::bridge::{Args, json_quoted, json_string};
use crate::robot::json::{dec, decimal, join, json_array};
use crate::table::KeyTable;

verus! {

/// Per-instance id. Ids count up from 1 and wrap back to 1 after
/// `u32::MAX`.
#[derive(Clone, Copy, Debug, PartialEq, Eq, Hash, Structural)]
pub struct ComponentInstanceId(pub u32);

/// What invoking a component method does with the request's arguments.
pub trait MethodCall {
    fn call(&self, args: &Args) -> Result<(), String>;
}

/// One method a component exposes: its name, its arguments as
/// `(name, type)` pairs in declaration order, and the call.
pub struct Method<F> {
    pub name: &'static str,
    pub args: Vec<(&'static str, &'static str)>,
    pub invoke: F,
}

/// A registered component: its name and methods.
pub struct ComponentEntry<F> {
    pub name: &'static str,
    pub methods: Vec<Method<F>>,
}

/// The names of an entry's methods, in order.
pub open spec fn method_names<F>(e: ComponentEntry<F>) -> Seq<Seq<char>> {
    Seq::new(e.methods@.len(), |i: int| e.methods@[i].name@)
}

/// Position `i` holds the first method of `e` named `name`.
pub open spec fn first_method<F>(e: ComponentEntry<F>, name: Seq<char>, i: int) -> bool {
    &&& 0 <= i < e.methods@.len()
    &&& e.methods@[i].name@ == name
    &&& forall|j: int| 0 <= j < i ==> e.methods@[j].name@ != name
}

/// The call of the first method named `method` of `instance` with `args`
/// gave `r`.
pub open spec fn method_called<F: MethodCall>(entries: Map<u32, ComponentEntry<F>>, instance: u32, method: Seq<char>,
    args: Args, r: Result<(), String>) -> bool {
    exists|i: int| first_method(entries[instance], method, i)
        && #[trigger] call_ensures(F::call, (&entries[instance].methods@[i].invoke, &args), r)
}

/// `invoke_method`'s call for bridge arguments `args` was made with the
/// method's JSON arguments (`{}` when none are given), and its result
/// decided the reply `r`: an error is handed back, a success answers.
pub open spec fn invoked_with<F: MethodCall>(entries: Map<u32, ComponentEntry<F>>, args: Args, r: Result<String, String>) -> bool {
    exists|inner: Args, c: Result<(), String>|
        #[trigger] method_called(entries, #[verifier::truncate] (args.instance_id->Some_0 as u32), args.method->Some_0@, inner, c)
        && inner.raw@ == (match args.method_args { Some(a) => a@, None => "{}"@ })
        && (c is Err ==> r is Err && r->Err_0 == c->Err_0)
        && (c is Ok ==> r is Ok)
}

/// Items joined by `", "`.
pub open spec fn comma_list(items: Seq<Seq<char>>) -> Seq<char>
    decreases items.len(),
{
    if items.len() == 0 {
        Seq::empty()
    } else if items.len() == 1 {
        items[0]
    } else {
        comma_list(items.drop_last()) + ", "@ + items.last()
    }
}

/// Proof of a registration; hand it back to `release` when the component
/// unmounts.
pub struct ComponentRegistration {
    id: ComponentInstanceId,
}

impl ComponentRegistration {
    /// The instance it registered.
    pub closed spec fn instance(&self) -> ComponentInstanceId {
        self.id
    }

    /// The instance id.
    pub fn id(&self) -> (i: ComponentInstanceId)
        ensures
            i == self.instance(),
    {
        self.id
    }
}

/// One registered instance as `list_components` reports it.
pub struct ComponentSnapshot {
    pub id: ComponentInstanceId,
    pub name: &'static str,
    pub methods: Vec<(&'static str, Vec<(&'static str, &'static str)>)>,
    /// The element the instance renders as, if linked.
    pub element_id: Option<ElementId>,
}

/// The component registry.
pub struct Components<F> {
    entries: KeyTable<ComponentEntry<F>>,
    links: KeyTable<ElementId>,
    pending: Option<ComponentInstanceId>,
    next: u32,
}

/// The id after `n`: counting up, `u32::MAX` wrapping to 1.
pub open spec fn next_instance(n: u32) -> u32 {
    if n == u32::MAX { 1 } else { (n + 1) as u32 }
}

impl<F> Components<F> {
    /// Registered instances by id.
    pub closed spec fn entries(&self) -> Map<u32, ComponentEntry<F>> {
        self.entries@
    }

    /// Registered ids, in registration order.
    pub closed spec fn order(&self) -> Seq<u32> {
        self.entries.keys()
    }

    /// The element each linked instance renders as.
    pub closed spec fn links(&self) -> Map<u32, ElementId> {
        self.links@
    }

    /// The instance the next registered element will be linked to.
    pub closed spec fn pending(&self) -> Option<ComponentInstanceId> {
        self.pending
    }

    /// The id the next registration gets.
    pub closed spec fn next_id(&self) -> u32 {
        self.next
    }

    /// No component, no link, ids from 1.
    pub fn new() -> (c: Self)
        ensures
            c.entries() == Map::<u32, ComponentEntry<F>>::empty(),
            c.links() == Map::<u32, ElementId>::empty(),
            c.pending() is None,
            c.next_id() == 1,
    {
        Components { entries: KeyTable::new(), links: KeyTable::new(), pending: None, next: 1 }
    }

    /// Register a freshly mounted instance of component `name` with its
    /// methods, under the next id.
    pub fn register_component(&mut self, name: &'static str, methods: Vec<Method<F>>) -> (reg: ComponentRegistration)
        ensures
            reg.instance().0 == old(self).next_id(),
            final(self).next_id() == next_instance(old(self).next_id()),
            final(self).entries() == old(self).entries().insert(reg.instance().0,
                ComponentEntry { name, methods }),
            !old(self).entries().dom().contains(reg.instance().0) ==>
                final(self).order() == old(self).order().push(reg.instance().0),
            old(self).entries().dom().contains(reg.instance().0) ==> final(self).order() == old(self).order(),
            final(self).links() == old(self).links(),
            final(self).pending() == old(self).pending(),
    {
        let id = self.next;
        self.next = if self.next == u32::MAX { 1 } else { self.next + 1 };
        self.entries.insert(id, ComponentEntry { name, methods });
        ComponentRegistration { id: ComponentInstanceId(id) }
    }

    /// The instance unmounted: forget it and its element link.
    pub fn release(&mut self, reg: ComponentRegistration)
        ensures
            final(self).entries() == old(self).entries().remove(reg.instance().0),
            final(self).links() == old(self).links().remove(reg.instance().0),
            final(self).pending() == old(self).pending(),
            final(self).next_id() == old(self).next_id(),
    {
        let _ = self.entries.remove(reg.id.0);
        let _ = self.links.remove(reg.id.0);
    }

    /// The next registered element is `instance`'s root.
    pub fn set_pending_component_link(&mut self, instance: ComponentInstanceId)
        ensures
            final(self).pending() == Some(instance),
            final(self).entries() == old(self).entries(),
            final(self).links() == old(self).links(),
            final(self).next_id() == old(self).next_id(),
    {
        self.pending = Some(instance);
    }

    /// Take the pending link, clearing it: only the first registration
    /// after arming links.
    pub fn take_pending_component_link(&mut self) -> (p: Option<ComponentInstanceId>)
        ensures
            p == old(self).pending(),
            final(self).pending() is None,
            final(self).entries() == old(self).entries(),
            final(self).links() == old(self).links(),
            final(self).next_id() == old(self).next_id(),
    {
        let p = self.pending;
        self.pending = None;
        p
    }

    /// Record that `instance` renders as `element`.
    pub fn link_component_element(&mut self, instance: ComponentInstanceId, element: ElementId)
        ensures
            final(self).links() == old(self).links().insert(instance.0, element),
            final(self).entries() == old(self).entries(),
            final(self).pending() == old(self).pending(),
            final(self).next_id() == old(self).next_id(),
    {
        self.links.insert(instance.0, element);
    }

    /// An instance that renders as `element`, if any.
    pub fn component_for_element(&self, element: ElementId) -> (r: Option<ComponentInstanceId>)
        ensures
            r matches Some(i) ==> self.links().dom().contains(i.0) && self.links()[i.0] == element,
            r is None ==> forall|k: u32| #[trigger] self.links().dom().contains(k) ==> self.links()[k] != element,
    {
        let n = self.links.len();
        let mut i: usize = 0;
        while i < n
            invariant
                0 <= i <= n,
                n == self.links.keys().len(),
                self.links.keys().len() == self.links.vals().len(),
                forall|k: u32| #[trigger] self.links@.dom().contains(k) <==> self.links.keys().contains(k),
                forall|j: int| 0 <= j < self.links.keys().len() ==> #[trigger] self.links@[self.links.keys()[j]] == self.links.vals()[j],
                forall|j: int| 0 <= j < i ==> self.links.vals()[j] != element,
            decreases n - i,
        {
            if *self.links.value_at(i) == element {
                let k = self.links.key_at(i);
                return Some(ComponentInstanceId(k));
            }
            i = i + 1;
        }
        proof {
            assert forall|k: u32| #[trigger] self.links@.dom().contains(k) implies self.links@[k] != element by {
                let j = choose|j: int| 0 <= j < self.links.keys().len() && self.links.keys()[j] == k;
                assert(self.links@[self.links.keys()[j]] == self.links.vals()[j]);
            }
        }
        None
    }
}

/// What `invoke_method` answers before any call is made: the instance is
/// gone, or it has no method of that name (the message lists those it
/// has).
pub open spec fn method_error<F>(entries: Map<u32, ComponentEntry<F>>, instance: u32, method: Seq<char>) -> Option<Seq<char>> {
    if !entries.dom().contains(instance) {
        Some("component instance "@ + dec(instance as nat) + " not found"@)
    } else if !method_names(entries[instance]).contains(method) {
        Some("component '"@ + entries[instance].name@ + "' has no method '"@ + method + "'; available: ["@
            + comma_list(method_names(entries[instance])) + "]"@)
    } else {
        None
    }
}

impl<F: MethodCall> Components<F> {
    /// The bridge verb `invoke_method`: the instance and the method must
    /// be named (`missing 'instance_id' argument`, `missing 'method'
    /// argument` otherwise; the id is taken modulo 2^32); then the method
    /// is invoked with the given arguments (an empty object when none are
    /// given, as the JSON text of the arguments the method gets) and a
    /// success answers `"ok"`.
    pub fn invoke_verb(&self, args: &Args) -> (r: Result<String, String>)
        ensures
            args.instance_id is None ==> r is Err && r->Err_0@ == "missing 'instance_id' argument"@,
            args.instance_id is Some && args.method is None ==> r is Err && r->Err_0@ == "missing 'method' argument"@,
            args.instance_id is Some && args.method is Some ==> {
                &&& method_error(self.entries(), #[verifier::truncate] (args.instance_id->Some_0 as u32),
                        args.method->Some_0@) matches Some(e) ==> r is Err && r->Err_0@ == e
                &&& r matches Ok(v) ==> v@ == "\"ok\""@
                &&& method_error(self.entries(), #[verifier::truncate] (args.instance_id->Some_0 as u32),
                        args.method->Some_0@) is None ==> invoked_with(self.entries(), *args, r)
            },
    {
        proof {
            reveal_strlit("missing 'instance_id' argument");
            reveal_strlit("missing 'method' argument");
            reveal_strlit("\"ok\"");
            reveal_strlit("{}");
        }
        let instance = match args.instance_id {
            Some(i) => i as u32,
            None => { return Err(String::from_str("missing 'instance_id' argument")); }
        };
        let method = match &args.method {
            Some(m) => m,
            None => { return Err(String::from_str("missing 'method' argument")); }
        };
        let raw = match &args.method_args {
            Some(a) => a.clone(),
            None => String::from_str("{}"),
        };
        let inner = Args {
            test_id: None, label: None, label_contains: None, kind: None, element_id: None, text: None,
            value: None, instance_id: None, method: None, method_args: None, raw,
        };
        let r = self.invoke_method(ComponentInstanceId(instance), method.as_str(), &inner);
        let ghost gi = inner;
        let ghost gr = r;
        let out = match r {
            Ok(()) => Ok(String::from_str("\"ok\"")),
            Err(e) => Err(e),
        };
        proof {
            if method_error(self.entries(), instance, method@) is None {
                assert(method_called(self.entries(), instance, method@, gi, gr));
            }
        }
        out
    }

    /// Invoke method `method` of `instance` with `args`: the first method
    /// of that name is called and its result handed back.
    pub fn invoke_method(&self, instance: ComponentInstanceId, method: &str, args: &Args) -> (r: Result<(), String>)
        ensures
            method_error(self.entries(), instance.0, method@) matches Some(m) ==> r is Err && r->Err_0@ == m,
            method_error(self.entries(), instance.0, method@) is None ==>
                method_called(self.entries(), instance.0, method@, *args, r),
    {
        let entry = match self.entries.get(instance.0) {
            Some(e) => e,
            None => {
                proof {
                    reveal_strlit("component instance ");
                    reveal_strlit(" not found");
                }
                let mut m = String::from_str("component instance ");
                let d = decimal(instance.0 as u64);
                m.append(d.as_str());
                m.append(" not found");
                return Err(m);
            }
        };
        let key = String::from_str(method);
        let n = entry.methods.len();
        let mut i: usize = 0;
        while i < n
            invariant
                0 <= i <= n,
                n == entry.methods@.len(),
                key@ == method@,
                self.entries().dom().contains(instance.0),
                self.entries()[instance.0] == *entry,
                forall|j: int| 0 <= j < i ==> entry.methods@[j].name@ != method@,
            decreases n - i,
        {
            if String::from_str(entry.methods[i].name) == key {
                proof {
                    assert(method_names(*entry)[i as int] == method@);
                    assert(method_names(*entry).contains(method@));
                    assert(first_method(*entry, method@, i as int));
                }
                let r = entry.methods[i].invoke.call(args);
                proof { assert(method_called(self.entries(), instance.0, method@, *args, r)); }
                return r;
            }
            i = i + 1;
        }
        proof {
            reveal_strlit("component '");
            reveal_strlit("' has no method '");
            reveal_strlit("'; available: [");
            reveal_strlit("]");
            assert(!method_names(*entry).contains(method@));
        }
        let mut m = String::from_str("component '");
        m.append(entry.name);
        m.append("' has no method '");
        m.append(method);
        m.append("'; available: [");
        let names = names_list(&entry.methods);
        m.append(names.as_str());
        m.append("]");
        Err(m)
    }
}

fn names_list<F>(methods: &Vec<Method<F>>) -> (r: String)
    ensures
        r@ == comma_list(Seq::new(methods@.len(), |i: int| methods@[i].name@)),
{
    proof { reveal_strlit(", "); }
    let mut out = String::new();
    let mut i: usize = 0;
    while i < methods.len()
        invariant
            0 <= i <= methods@.len(),
            out@ == comma_list(Seq::new(i as nat, |k: int| methods@[k].name@)),
        decreases methods@.len() - i,
    {
        let ghost before = Seq::new(i as nat, |k: int| methods@[k].name@);
        let ghost after = Seq::new((i + 1) as nat, |k: int| methods@[k].name@);
        proof {
            assert(after.drop_last() =~= before);
            assert(after.last() == methods@[i as int].name@);
        }
        if i > 0 {
            out.append(", ");
        }
        out.append(methods[i].name);
        proof {
            if i == 0 {
                assert(out@ =~= comma_list(after));
            } else {
                assert(out@ =~= comma_list(after));
            }
        }
        i = i + 1;
    }
    proof { assert(Seq::new(methods@.len(), |k: int| methods@[k].name@) =~= Seq::new(i as nat, |k: int| methods@[k].name@)); }
    out
}

/// The element `k` is linked to, if any.
pub open spec fn link_of(links: Map<u32, ElementId>, k: u32) -> Option<ElementId> {
    if links.dom().contains(k) { Some(links[k]) } else { None }
}

/// `{"name":…,"type":…}` for one argument.
pub open spec fn arg_json(a: (&'static str, &'static str)) -> Seq<char> {
    "{\"name\":"@ + json_quoted(a.0@) + ",\"type\":"@ + json_quoted(a.1@) + "}"@
}

/// `{"name":…,"args":[…]}` for one method.
pub open spec fn method_json<F>(m: Method<F>) -> Seq<char> {
    "{\"name\":"@ + json_quoted(m.name@) + ",\"args\":["@
        + join(Seq::new(m.args@.len(), |i: int| arg_json(m.args@[i]))) + "]}"@
}

/// The record of instance `id`.
pub open spec fn component_json<F>(id: u32, e: ComponentEntry<F>, link: Option<ElementId>) -> Seq<char> {
    "{\"instance_id\":"@ + dec(id as nat) + ",\"name\":"@ + json_quoted(e.name@) + ",\"element_id\":"@
        + (match link { Some(x) => dec(x.0 as nat), None => "null"@ }) + ",\"methods\":["@
        + join(Seq::new(e.methods@.len(), |i: int| method_json(e.methods@[i]))) + "]}"@
}

fn arg_record(a: (&'static str, &'static str)) -> (r: String)
    ensures
        r@ == arg_json(a),
{
    proof {
        reveal_strlit("{\"name\":");
        reveal_strlit(",\"type\":");
        reveal_strlit("}");
    }
    let mut out = String::from_str("{\"name\":");
    let n = json_string(a.0);
    out.append(n.as_str());
    out.append(",\"type\":");
    let t = json_string(a.1);
    out.append(t.as_str());
    out.append("}");
    out
}

fn method_record<F>(m: &Method<F>) -> (r: String)
    ensures
        r@ == method_json(*m),
{
    proof {
        reveal_strlit("{\"name\":");
        reveal_strlit(",\"args\":");
        reveal_strlit("}");
    }
    let mut items: Vec<String> = Vec::new();
    let mut i: usize = 0;
    while i < m.args.len()
        invariant
            0 <= i <= m.args@.len(),
            items@.len() == i,
            forall|j: int| 0 <= j < i ==> #[trigger] items@[j]@ == arg_json(m.args@[j]),
        decreases m.args@.len() - i,
    {
        items.push(arg_record(m.args[i]));
        i = i + 1;
    }
    let args = json_array(&items);
    proof {
        assert(Seq::new(items@.len(), |i: int| items@[i]@) =~= Seq::new(m.args@.len(), |i: int| arg_json(m.args@[i])));
    }
    let mut out = String::from_str("{\"name\":");
    let n = json_string(m.name);
    out.append(n.as_str());
    out.append(",\"args\":");
    out.append(args.as_str());
    out.append("}");
    proof {
        reveal_strlit("[");
        reveal_strlit("]");
        reveal_strlit("]}");
        reveal_strlit(",\"args\":[");
        assert(out@ =~= method_json(*m));
    }
    out
}

fn component_record<F>(id: u32, e: &ComponentEntry<F>, link: Option<ElementId>) -> (r: String)
    ensures
        r@ == component_json(id, *e, link),
{
    proof {
        reveal_strlit("{\"instance_id\":");
        reveal_strlit(",\"name\":");
        reveal_strlit(",\"element_id\":");
        reveal_strlit("null");
        reveal_strlit(",\"methods\":");
        reveal_strlit("}");
    }
    let mut items: Vec<String> = Vec::new();
    let mut i: usize = 0;
    while i < e.methods.len()
        invariant
            0 <= i <= e.methods@.len(),
            items@.len() == i,
            forall|j: int| 0 <= j < i ==> #[trigger] items@[j]@ == method_json(e.methods@[j]),
        decreases e.methods@.len() - i,
    {
        items.push(method_record(&e.methods[i]));
        i = i + 1;
    }
    let methods = json_array(&items);
    proof {
        assert(Seq::new(items@.len(), |i: int| items@[i]@) =~= Seq::new(e.methods@.len(), |i: int| method_json(e.methods@[i])));
    }
    let mut out = String::from_str("{\"instance_id\":");
    let d = decimal(id as u64);
    out.append(d.as_str());
    out.append(",\"name\":");
    let n = json_string(e.name);
    out.append(n.as_str());
    out.append(",\"element_id\":");
    match link {
        Some(x) => {
            let l = decimal(x.0 as u64);
            out.append(l.as_str());
        }
        None => out.append("null"),
    }
    out.append(",\"methods\":");
    out.append(methods.as_str());
    out.append("}");
    proof {
        reveal_strlit("[");
        reveal_strlit("]");
        reveal_strlit("]}");
        reveal_strlit(",\"methods\":[");
        assert(out@ =~= component_json(id, *e, link));
    }
    out
}

impl<F> Components<F> {
    /// Snapshots of every registered instance, in registration order.
    pub fn list_components(&self) -> (out: Vec<ComponentSnapshot>)
        ensures
            out@.len() == self.order().len(),
            forall|j: int| 0 <= j < out@.len() ==> {
                let k = self.order()[j];
                let e = self.entries()[k];
                &&& (#[trigger] out@[j]).id.0 == k
                &&& out@[j].name == e.name
                &&& out@[j].element_id == link_of(self.links(), k)
                &&& out@[j].methods@.len() == e.methods@.len()
                &&& forall|m: int| 0 <= m < e.methods@.len() ==>
                        (#[trigger] out@[j].methods@[m]).0 == e.methods@[m].name && out@[j].methods@[m].1@ == e.methods@[m].args@
            },
    {
        let n = self.entries.len();
        let mut out: Vec<ComponentSnapshot> = Vec::new();
        let mut i: usize = 0;
        while i < n
            invariant
                0 <= i <= n,
                n == self.entries.keys().len(),
                self.entries.keys().len() == self.entries.vals().len(),
                forall|j: int| 0 <= j < self.entries.keys().len() ==>
                    #[trigger] self.entries@[self.entries.keys()[j]] == self.entries.vals()[j],
                out@.len() == i,
                forall|j: int| 0 <= j < i ==> {
                    let k = self.order()[j];
                    let e = self.entries()[k];
                    &&& (#[trigger] out@[j]).id.0 == k
                    &&& out@[j].name == e.name
                    &&& out@[j].element_id == link_of(self.links(), k)
                    &&& out@[j].methods@.len() == e.methods@.len()
                    &&& forall|m: int| 0 <= m < e.methods@.len() ==>
                            (#[trigger] out@[j].methods@[m]).0 == e.methods@[m].name && out@[j].methods@[m].1@ == e.methods@[m].args@
                },
            decreases n - i,
        {
            let k = self.entries.key_at(i);
            let e = self.entries.value_at(i);
            proof { assert(self.entries@[k] == *e); }
            let mut methods: Vec<(&'static str, Vec<(&'static str, &'static str)>)> = Vec::new();
            let mut m: usize = 0;
            while m < e.methods.len()
                invariant
                    0 <= m <= e.methods@.len(),
                    methods@.len() == m,
                    forall|x: int| 0 <= x < m ==>
                        (#[trigger] methods@[x]).0 == e.methods@[x].name && methods@[x].1@ == e.methods@[x].args@,
                decreases e.methods@.len() - m,
            {
                let meth = &e.methods[m];
                let mut args: Vec<(&'static str, &'static str)> = Vec::new();
                let mut a: usize = 0;
                while a < meth.args.len()
                    invariant
                        0 <= a <= meth.args@.len(),
                        args@ == meth.args@.subrange(0, a as int),
                    decreases meth.args@.len() - a,
                {
                    let pair = meth.args[a];
                    args.push(pair);
                    proof { assert(args@ =~= meth.args@.subrange(0, a + 1)); }
                    a = a + 1;
                }
                proof { assert(args@ =~= meth.args@); }
                methods.push((meth.name, args));
                m = m + 1;
            }
            let link = match self.links.get(k) {
                Some(x) => Some(*x),
                None => None,
            };
            out.push(ComponentSnapshot { id: ComponentInstanceId(k), name: e.name, methods, element_id: link });
            i = i + 1;
        }
        out
    }

    /// The JSON array of every instance's record, in registration order.
    pub open spec fn listing_json(&self) -> Seq<char> {
        "["@ + join(Seq::new(self.order().len(), |j: int| component_json(self.order()[j],
            self.entries()[self.order()[j]], link_of(self.links(), self.order()[j])))) + "]"@
    }

    /// The JSON array of every instance's record, in registration order.
    pub fn components_json(&self) -> (r: String)
        ensures
            r@ == self.listing_json(),
    {
        let n = self.entries.len();
        let mut items: Vec<String> = Vec::new();
        let mut i: usize = 0;
        while i < n
            invariant
                0 <= i <= n,
                n == self.entries.keys().len(),
                self.entries.keys().len() == self.entries.vals().len(),
                forall|j: int| 0 <= j < self.entries.keys().len() ==>
                    #[trigger] self.entries@[self.entries.keys()[j]] == self.entries.vals()[j],
                items@.len() == i,
                forall|j: int| 0 <= j < i ==> #[trigger] items@[j]@ == component_json(self.order()[j],
                    self.entries()[self.order()[j]], link_of(self.links(), self.order()[j])),
            decreases n - i,
        {
            let k = self.entries.key_at(i);
            let e = self.entries.value_at(i);
            proof { assert(self.entries@[k] == *e); }
            let link = match self.links.get(k) {
                Some(x) => Some(*x),
                None => None,
            };
            items.push(component_record(k, e, link));
            i = i + 1;
        }
        let r = json_array(&items);
        proof {
            assert(Seq::new(items@.len(), |i: int| items@[i]@) =~= Seq::new(self.order().len(), |j: int| component_json(self.order()[j],
                self.entries()[self.order()[j]], link_of(self.links(), self.order()[j]))));
        }
        r
    }
}

} // verus!

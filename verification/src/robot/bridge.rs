//! The robot bridge's command layer: the app identity it advertises, the
//! registration record, custom verbs, argument parsing and the command
//! dispatcher. The socket that carries commands lives with the host.
use vstd::prelude::*;
use vstd::string::StrSliceExecFns;
use crate::robot::{Robot, Actions, Query, Element, ElementId, ElementKind, RobotError, select, selects, RegistryEntry,
    Registry, TreeNode, FrameKind, ActionSet, live_ids, roots, tree_ok,
    entry_view, index_find, opt_view};
use crate::robot::json::{dec, digit, decimal, kind_name, kind_str, kind_of_name, element_json, element_json_spec, json_array,
    join, tree_json_spec, tree_node_json};
use crate::robot::text::{find_str, find_from, skip_while, digits_value, char_is_ws, is_ws, lemma_find_from_bounds};
use crate::reactive::runtime::{Runtime, Reaction, arena_stats};
use crate::reactive::state::State;
use crate::reactive::arena::{count_some, count_live, total_len};
use crate::robot::components::{Components, MethodCall, method_error, invoked_with};

verus! {

/// The port the bridge listens on unless told otherwise.
pub const DEFAULT_PORT: u16 = 9718;

/// The port the auto-polled bridge asks for: the one the environment
/// names (already parsed) when it is not 0, else `default_port`.
pub fn requested_port(configured: Option<u16>, default_port: u16) -> (p: u16)
    ensures
        p == match configured {
            Some(q) => if q != 0 { q } else { default_port },
            None => default_port,
        },
{
    match configured {
        Some(q) => if q != 0 { q } else { default_port },
        None => default_port,
    }
}

/// One decision of starting the auto-polled bridge, given whether one is
/// already running, the port last asked for and whether binding it
/// failed: the port to bind next, or `None` when there is nothing (more)
/// to do. Starting is idempotent; a named port that cannot be bound
/// falls back to an ephemeral one (port 0); when that fails too, the
/// bridge is not started.
pub fn bind_step(started: bool, requested: u16, bind_failed: bool) -> (next: Option<u16>)
    ensures
        started ==> next is None,
        !started && !bind_failed ==> next == Some(requested),
        !started && bind_failed && requested != 0 ==> next == Some(0u16),
        bind_failed && requested == 0 ==> next is None,
{
    if started {
        None
    } else if !bind_failed {
        Some(requested)
    } else if requested != 0 {
        Some(0)
    } else {
        None
    }
}

/// The lower-case hex digit of `v` (below 16).
pub open spec fn hex_digit(v: int) -> char {
    if v < 10 { ('0' as int + v) as char } else { ('a' as int + v - 10) as char }
}

/// How a JSON string literal writes char `c`: a quote and a backslash are
/// escaped by a backslash, backspace, tab, line feed, form feed and
/// carriage return by their short escapes, the other control chars below
/// U+0020 as `\u00xx` with lower-case hex; every other char as it is.
pub open spec fn json_escape(c: char) -> Seq<char> {
    let n = c as int;
    if c == '"' { seq!['\\', '"'] }
    else if c == '\\' { seq!['\\', '\\'] }
    else if n == 8 { seq!['\\', 'b'] }
    else if n == 9 { seq!['\\', 't'] }
    else if n == 10 { seq!['\\', 'n'] }
    else if n == 12 { seq!['\\', 'f'] }
    else if n == 13 { seq!['\\', 'r'] }
    else if n < 32 { seq!['\\', 'u', '0', '0', hex_digit(n / 16), hex_digit(n % 16)] }
    else { seq![c] }
}

/// The chars of `s`, each written as `json_escape` says.
pub open spec fn json_escaped(s: Seq<char>) -> Seq<char>
    decreases s.len(),
{
    if s.len() == 0 { Seq::empty() } else { json_escaped(s.drop_last()) + json_escape(s.last()) }
}

/// The JSON string literal of `s`: its escaped chars between quotes.
pub open spec fn json_quoted(s: Seq<char>) -> Seq<char> {
    seq!['"'] + json_escaped(s) + seq!['"']
}

/// `serde_json::to_string` on a string slice: the JSON string literal of
/// `s`, escaped by serde_json's escape table (`json_quoted`).
/// Serialising a `str` does not fail, so the error arm is never taken.
#[verifier::external_body]
pub(crate) fn json_string(s: &str) -> (r: String)
    ensures
        r@ == json_quoted(s@),
{
    match serde_json::to_string(s) {
        Ok(v) => v,
        Err(_) => String::new(),
    }
}

/// An optional string as a JSON literal, or `null`.
pub open spec fn opt_quoted(o: Option<Seq<char>>) -> Seq<char> {
    match o {
        Some(v) => json_quoted(v),
        None => "null"@,
    }
}

fn opt_json_string(o: &Option<String>) -> (r: String)
    ensures
        r@ == opt_quoted(opt_view(*o)),
{
    match o {
        Some(v) => json_string(v.as_str()),
        None => {
            proof { reveal_strlit("null"); }
            String::from_str("null")
        }
    }
}

/// The identity the app advertises.
#[derive(Clone, Debug, Default)]
pub struct AppIdentity {
    pub name: String,
    pub bundle_id: Option<String>,
    pub project_root: Option<String>,
}

/// The registration record written for discovery.
pub open spec fn registration_spec(port: u16, pid: u32, id: AppIdentity) -> Seq<char> {
    "{\"port\":"@ + dec(port as nat) + ",\"pid\":"@ + dec(pid as nat) + ",\"name\":"@ + json_quoted(id.name@)
        + ",\"bundle_id\":"@ + opt_quoted(opt_view(id.bundle_id)) + ",\"project_root\":"@
        + opt_quoted(opt_view(id.project_root)) + ",\"proto\":1}"@
}

/// `{"port":…,"pid":…,"name":…,"bundle_id":…,"project_root":…,"proto":1}`.
pub fn bridge_registration_json(port: u16, pid: u32, identity: &AppIdentity) -> (r: String)
    ensures
        r@ == registration_spec(port, pid, *identity),
{
    proof {
        reveal_strlit("{\"port\":");
        reveal_strlit(",\"pid\":");
        reveal_strlit(",\"name\":");
        reveal_strlit(",\"bundle_id\":");
        reveal_strlit(",\"project_root\":");
        reveal_strlit(",\"proto\":1}");
    }
    let mut out = String::from_str("{\"port\":");
    let p = decimal(port as u64);
    out.append(p.as_str());
    out.append(",\"pid\":");
    let d = decimal(pid as u64);
    out.append(d.as_str());
    out.append(",\"name\":");
    let n = json_string(identity.name.as_str());
    out.append(n.as_str());
    out.append(",\"bundle_id\":");
    let b = opt_json_string(&identity.bundle_id);
    out.append(b.as_str());
    out.append(",\"project_root\":");
    let rt = opt_json_string(&identity.project_root);
    out.append(rt.as_str());
    out.append(",\"proto\":1}");
    out
}

/// The pid a registration record carries: the digits after the first
/// `"pid":` (white space skipped), if there are any and they fit a `u32`.
pub open spec fn pid_field(body: Seq<char>) -> Option<u32> {
    match find_from(body, "\"pid\":"@, 0) {
        None => None,
        Some(p) => {
            let a = skip_while(body, p + 6, true);
            let b = skip_while(body, a, false);
            if b == a || digits_value(body.subrange(a, b)) > u32::MAX {
                None
            } else {
                Some(digits_value(body.subrange(a, b)) as u32)
            }
        }
    }
}

/// Read the pid out of a registration record.
pub fn parse_pid_field(body: &str) -> (r: Option<u32>)
    ensures
        r == pid_field(body@),
{
    let sep = "\"pid\":";
    proof { reveal_strlit("\"pid\":"); }
    let found = find_str(body, sep);
    match found {
        None => None,
        Some(p) => {
            let m = body.unicode_len();
            proof {
                assert(sep@.len() == 6);
                lemma_find_from_bounds(body@, sep@, 0);
                assert(p + 6 <= m);
            }
            let mut i: usize = p + 6;
            while i < m && char_is_ws(body.get_char(i))
                invariant
                    m == body@.len(),
                    p + 6 <= i <= m,
                    skip_while(body@, (p + 6) as int, true) == skip_while(body@, i as int, true),
                decreases m - i,
            {
                i = i + 1;
            }
            let a = i;
            proof { assert(skip_while(body@, (p + 6) as int, true) == a); }
            let mut v: u64 = 0;
            let mut over = false;
            proof { assert(body@.subrange(a as int, a as int) =~= Seq::<char>::empty()); }
            while i < m && '0' <= body.get_char(i) && body.get_char(i) <= '9'
                invariant
                    m == body@.len(),
                    a <= i <= m,
                    skip_while(body@, a as int, false) == skip_while(body@, i as int, false),
                    forall|k: int| a <= k < i ==> '0' <= #[trigger] body@[k] && body@[k] <= '9',
                    !over ==> v == digits_value(body@.subrange(a as int, i as int)) && v <= u32::MAX,
                    over ==> digits_value(body@.subrange(a as int, i as int)) > u32::MAX,
                decreases m - i,
            {
                let c = body.get_char(i);
                proof {
                    assert(body@.subrange(a as int, i + 1).drop_last() =~= body@.subrange(a as int, i as int));
                    assert(body@.subrange(a as int, i + 1).last() == c);
                }
                if !over {
                    let d = (c as u64) - 48;
                    v = v * 10 + d;
                    if v > 0xFFFF_FFFFu64 {
                        over = true;
                    }
                }
                i = i + 1;
            }
            proof { assert(skip_while(body@, a as int, false) == i); }
            if i == a || over {
                None
            } else {
                Some(v as u32)
            }
        }
    }
}

/// Every char of `dec(n)` is a decimal digit, and there is at least one.
pub proof fn lemma_dec_digits(n: nat)
    ensures
        dec(n).len() >= 1,
        forall|i: int| 0 <= i < dec(n).len() ==> '0' <= #[trigger] dec(n)[i] && dec(n)[i] <= '9',
        digits_value(dec(n)) == n,
    decreases n,
{
    let r = n % 10;
    assert(r < 10);
    assert((digit(r) as int) == r + 48);
    if n >= 10 {
        lemma_dec_digits(n / 10);
        let d = dec(n);
        assert(d.drop_last() =~= dec(n / 10));
        assert(d.last() == digit(r));
        assert(n == (n / 10) * 10 + n % 10) by (nonlinear_arith);
        assert(digits_value(d) == digits_value(dec(n / 10)) * 10 + ((d.last() as int) - 48) as nat);
    } else {
        assert(n % 10 == n);
        let d = dec(n);
        assert(d == seq![digit(n)]);
        assert(d.drop_last() =~= Seq::<char>::empty());
        assert(digits_value(d) == digits_value(d.drop_last()) * 10 + ((d.last() as int) - 48) as nat);
    }
}

proof fn lemma_find_first(s: Seq<char>, p: Seq<char>, from: int, at: int)
    requires
        0 <= from <= at,
        at + p.len() <= s.len(),
        s.subrange(at, at + p.len()) == p,
        forall|k: int| from <= k < at ==> #[trigger] s.subrange(k, k + p.len()) != p,
    ensures
        find_from(s, p, from) == Some(at),
    decreases at - from,
{
    if from < at {
        lemma_find_first(s, p, from + 1, at);
    }
}

proof fn lemma_skip_digits(s: Seq<char>, from: int, to: int)
    requires
        0 <= from <= to < s.len(),
        forall|k: int| from <= k < to ==> '0' <= #[trigger] s[k] && s[k] <= '9',
        !('0' <= s[to] && s[to] <= '9'),
    ensures
        skip_while(s, from, false) == to,
    decreases to - from,
{
    if from < to {
        lemma_skip_digits(s, from + 1, to);
    }
}

/// The pid a registration record carries reads back out of it.
pub proof fn law_registration_pid_round_trips(port: u16, pid: u32, id: AppIdentity)
    ensures
        pid_field(registration_spec(port, pid, id)) == Some(pid),
{
    reveal_strlit("{\"port\":");
    reveal_strlit(",\"pid\":");
    reveal_strlit("\"pid\":");
    reveal_strlit(",\"name\":");
    let key = "\"pid\":"@;
    let dp = dec(port as nat);
    let dd = dec(pid as nat);
    lemma_dec_digits(port as nat);
    lemma_dec_digits(pid as nat);
    let head = "{\"port\":"@ + dp + ",\"pid\":"@;
    let tail = ",\"name\":"@ + json_quoted(id.name@) + ",\"bundle_id\":"@ + opt_quoted(opt_view(id.bundle_id))
        + ",\"project_root\":"@ + opt_quoted(opt_view(id.project_root)) + ",\"proto\":1}"@;
    let body = registration_spec(port, pid, id);
    assert(body =~= head + dd + tail);
    let n = dp.len() as int;
    let p0 = 8 + n + 1;
    let a = p0 + 6;
    let b = a + dd.len();
    assert(head.len() == p0 + 6);
    assert forall|i: int| 0 <= i < head.len() implies #[trigger] body[i] == head[i] by {}
    assert forall|i: int| 0 <= i < dd.len() implies #[trigger] body[a + i] == dd[i] by {}
    assert(body[b] == ',');
    assert(body.subrange(p0, p0 + 6) =~= key);
    assert forall|k: int| 0 <= k < p0 implies #[trigger] body.subrange(k, k + key.len()) != key by {
        let w = body.subrange(k, k + key.len());
        if k == 1 {
            assert(w[2] == 'o');
        } else if k == 6 {
            assert(w[1] == ':');
        } else if 8 <= k < 8 + n {
            assert(w[0] == dp[k - 8]);
        } else {
            assert(w[0] != '"');
        }
    }
    lemma_find_first(body, key, 0, p0);
    assert(!is_ws(body[a]));
    assert(skip_while(body, a, true) == a);
    assert forall|k: int| a <= k < b implies '0' <= #[trigger] body[k] && body[k] <= '9' by {
        assert(body[k] == dd[k - a]);
    }
    lemma_skip_digits(body, a, b);
    assert(body.subrange(a, b) =~= dd);
}

/// The element kind named `s` (its variant name).
pub fn parse_element_kind(s: &str) -> (r: Option<ElementKind>)
    ensures
        r == kind_of_name(s@),
{
    let t = String::from_str(s);
    if t == String::from_str("View") { return Some(ElementKind::View); }
    if t == String::from_str("Text") { return Some(ElementKind::Text); }
    if t == String::from_str("Button") { return Some(ElementKind::Button); }
    if t == String::from_str("Pressable") { return Some(ElementKind::Pressable); }
    if t == String::from_str("Image") { return Some(ElementKind::Image); }
    if t == String::from_str("Icon") { return Some(ElementKind::Icon); }
    if t == String::from_str("TextInput") { return Some(ElementKind::TextInput); }
    if t == String::from_str("Toggle") { return Some(ElementKind::Toggle); }
    if t == String::from_str("ScrollView") { return Some(ElementKind::ScrollView); }
    if t == String::from_str("Slider") { return Some(ElementKind::Slider); }
    if t == String::from_str("ActivityIndicator") { return Some(ElementKind::ActivityIndicator); }
    if t == String::from_str("Virtualizer") { return Some(ElementKind::Virtualizer); }
    if t == String::from_str("Graphics") { return Some(ElementKind::Graphics); }
    if t == String::from_str("Navigator") { return Some(ElementKind::Navigator); }
    if t == String::from_str("TabNavigator") { return Some(ElementKind::TabNavigator); }
    if t == String::from_str("DrawerNavigator") { return Some(ElementKind::DrawerNavigator); }
    if t == String::from_str("Link") { return Some(ElementKind::Link); }
    if t == String::from_str("Overlay") { return Some(ElementKind::Overlay); }
    if t == String::from_str("Presence") { return Some(ElementKind::Presence); }
    None
}


/// The arguments of a bridge command, as the fields the verbs read. The
/// raw JSON text is kept for custom verbs.
#[derive(Clone, Debug, Default)]
pub struct Args {
    pub test_id: Option<String>,
    pub label: Option<String>,
    pub label_contains: Option<String>,
    pub kind: Option<String>,
    pub element_id: Option<u64>,
    pub text: Option<String>,
    pub value: Option<bool>,
    /// `invoke_method`: the component instance, the method's name and
    /// the JSON text of the arguments handed to it.
    pub instance_id: Option<u64>,
    pub method: Option<String>,
    pub method_args: Option<String>,
    pub raw: String,
}

/// The query the arguments ask for: the first of `test_id`, `label`,
/// `label_contains`, `kind` that is given, else every element.
pub open spec fn query_spec(a: Args) -> Option<Query> {
    if a.test_id is Some {
        Some(Query::TestId(a.test_id->Some_0))
    } else if a.label is Some {
        Some(Query::Label(a.label->Some_0))
    } else if a.label_contains is Some {
        Some(Query::LabelContains(a.label_contains->Some_0))
    } else if a.kind is Some {
        match kind_of_name(a.kind->Some_0@) {
            Some(k) => Some(Query::Kind(k)),
            None => None,
        }
    } else {
        Some(Query::All)
    }
}

/// Two queries ask the same thing.
pub open spec fn same_query(a: Query, b: Query) -> bool {
    match (a, b) {
        (Query::TestId(x), Query::TestId(y)) => x@ == y@,
        (Query::Label(x), Query::Label(y)) => x@ == y@,
        (Query::LabelContains(x), Query::LabelContains(y)) => x@ == y@,
        (Query::Kind(x), Query::Kind(y)) => x == y,
        (Query::All, Query::All) => true,
        _ => false,
    }
}

/// Queries that ask the same thing select the same entries.
pub proof fn lemma_same_query_selects<A>(a: Query, b: Query)
    requires
        same_query(a, b),
    ensures
        forall|e: RegistryEntry<A>| #[trigger] selects(e, a) == selects(e, b),
        forall|entries: Seq<Option<RegistryEntry<A>>>| #[trigger] select(entries, a) == select(entries, b),
{
    assert forall|entries: Seq<Option<RegistryEntry<A>>>| #[trigger] select(entries, a) == select(entries, b) by {
        lemma_select_same(entries, a, b);
    }
}

proof fn lemma_select_same<A>(entries: Seq<Option<RegistryEntry<A>>>, a: Query, b: Query)
    requires
        same_query(a, b),
    ensures
        select(entries, a) == select(entries, b),
    decreases entries.len(),
{
    if entries.len() > 0 {
        lemma_select_same(entries.drop_last(), a, b);
    }
}

/// The query of a command's arguments; an unknown kind name is an error.
pub fn parse_query(args: &Args) -> (r: Result<Query, String>)
    ensures
        query_spec(*args) matches Some(q) ==> r is Ok && same_query(r->Ok_0, q),
        query_spec(*args) is None ==> r is Err && r->Err_0@ == "unknown element kind: "@ + args.kind->Some_0@,
{
    match &args.test_id {
        Some(t) => return Ok(Query::TestId(t.clone())),
        None => {}
    }
    match &args.label {
        Some(t) => return Ok(Query::Label(t.clone())),
        None => {}
    }
    match &args.label_contains {
        Some(t) => return Ok(Query::LabelContains(t.clone())),
        None => {}
    }
    match &args.kind {
        Some(k) => match parse_element_kind(k.as_str()) {
            Some(kind) => Ok(Query::Kind(kind)),
            None => {
                proof { reveal_strlit("unknown element kind: "); }
                let m = String::from_str("unknown element kind: ");
                Err(m.concat(k.as_str()))
            }
        },
        None => Ok(Query::All),
    }
}

/// The element a command names by `element_id` (the id keeps its low 32
/// bits).
pub fn resolve_element(args: &Args) -> (r: Result<Element, String>)
    ensures
        args.element_id is None ==> r is Err && r->Err_0@ == "missing 'element_id' argument"@,
        args.element_id matches Some(id) ==> r is Ok && r->Ok_0.id.0 == id as u32,
{
    match args.element_id {
        None => {
            proof { reveal_strlit("missing 'element_id' argument"); }
            Err(String::from_str("missing 'element_id' argument"))
        }
        Some(id) => Ok(Element { id: ElementId(#[verifier::truncate] (id as u32)), kind: ElementKind::View, test_id: None, label: None }),
    }
}


/// A custom bridge verb registered by the host (a screenshot, a log
/// reader, …).
pub trait Command {
    fn invoke(&self, args: &Args) -> Result<String, String>;
}

/// The bridge's state: the advertised identity and the custom verbs.
pub struct Bridge<C> {
    identity: Option<AppIdentity>,
    names: Vec<String>,
    handlers: Vec<C>,
}

impl<C> Bridge<C> {
    #[verifier::type_invariant]
    spec fn inv(self) -> bool {
        &&& self.names@.len() == self.handlers@.len()
        &&& forall|i: int, j: int| 0 <= i < self.names@.len() && 0 <= j < self.names@.len() && i != j ==>
                self.names@[i]@ != self.names@[j]@
    }

    /// The custom verbs by name.
    pub closed spec fn commands(&self) -> Map<Seq<char>, C> {
        Map::new(|k: Seq<char>| exists|i: int| 0 <= i < self.names@.len() && self.names@[i]@ == k,
            |k: Seq<char>| self.handlers@[choose|i: int| 0 <= i < self.names@.len() && self.names@[i]@ == k])
    }

    /// The identity set by `set_app_identity`, if any.
    pub closed spec fn identity(&self) -> Option<AppIdentity> {
        self.identity
    }

    /// No identity, no custom verbs.
    pub fn new() -> (b: Self)
        ensures
            b.identity() is None,
            b.commands() == Map::<Seq<char>, C>::empty(),
    {
        let b = Bridge { identity: None, names: Vec::new(), handlers: Vec::new() };
        proof { assert(b.commands() =~= Map::<Seq<char>, C>::empty()); }
        b
    }

    fn index_of(&self, name: &str) -> (r: Option<usize>)
        ensures
            r is Some <==> exists|i: int| 0 <= i < self.names@.len() && self.names@[i]@ == name@,
            r matches Some(i) ==> i < self.names@.len() && self.names@[i as int]@ == name@,
    {
        let key = String::from_str(name);
        let mut i: usize = 0;
        while i < self.names.len()
            invariant
                0 <= i <= self.names@.len(),
                key@ == name@,
                forall|j: int| 0 <= j < i ==> self.names@[j]@ != name@,
            decreases self.names@.len() - i,
        {
            if self.names[i] == key {
                return Some(i);
            }
            i = i + 1;
        }
        None
    }

    /// The handler of custom verb `name`.
    pub fn find_command(&self, name: &str) -> (r: Option<&C>)
        ensures
            r is Some <==> self.commands().dom().contains(name@),
            r matches Some(h) ==> *h == self.commands()[name@],
    {
        proof { use_type_invariant(self); }
        match self.index_of(name) {
            Some(i) => {
                proof {
                    let j = choose|j: int| 0 <= j < self.names@.len() && self.names@[j]@ == name@;
                    assert(j == i);
                }
                Some(&self.handlers[i])
            }
            None => None,
        }
    }

    /// Register `handler` for verb `name`, replacing an earlier one.
    pub fn register_command(&mut self, name: &str, handler: C)
        ensures
            final(self).commands() == old(self).commands().insert(name@, handler),
            final(self).identity() == old(self).identity(),
    {
        proof { use_type_invariant(&*self); }
        let idx = self.index_of(name);
        let mut whole = Bridge { identity: None, names: Vec::new(), handlers: Vec::new() };
        std::mem::swap(&mut whole, self);
        let Bridge { identity, mut names, mut handlers } = whole;
        let ghost n0 = names@;
        let ghost h0 = handlers@;
        match idx {
            Some(i) => {
                let mut slot = handler;
                std::mem::swap(&mut slot, &mut handlers[i]);
                *self = Bridge { identity, names, handlers };
                proof {
                    assert forall|k: Seq<char>| #[trigger] self.commands().dom().contains(k) implies
                        self.commands()[k] == old(self).commands().insert(name@, handler)[k] by {
                        let j = choose|j: int| 0 <= j < self.names@.len() && self.names@[j]@ == k;
                        if k == name@ {
                            assert(j == i);
                        } else {
                            let j0 = choose|j0: int| 0 <= j0 < n0.len() && n0[j0]@ == k;
                            assert(j0 == j);
                        }
                    }
                    assert forall|k: Seq<char>| #[trigger] self.commands().dom().contains(k) <==>
                        old(self).commands().insert(name@, handler).dom().contains(k) by {
                        if k == name@ { assert(self.names@[i as int]@ == k); }
                    }
                    assert(self.commands() =~= old(self).commands().insert(name@, handler));
                }
            }
            None => {
                names.push(String::from_str(name));
                handlers.push(handler);
                proof {
                    assert forall|a: int, b: int| 0 <= a < names@.len() && 0 <= b < names@.len() && a != b
                        implies names@[a]@ != names@[b]@ by {
                        if a < n0.len() && b < n0.len() {
                        } else if a < n0.len() {
                            assert(n0[a]@ != name@);
                        } else {
                            assert(n0[b]@ != name@);
                        }
                    }
                }
                *self = Bridge { identity, names, handlers };
                proof {
                    assert forall|k: Seq<char>| #[trigger] self.commands().dom().contains(k) <==>
                        old(self).commands().insert(name@, handler).dom().contains(k) by {
                        if k == name@ { assert(self.names@[n0.len() as int]@ == k); }
                        if k != name@ && old(self).commands().dom().contains(k) {
                            let j0 = choose|j0: int| 0 <= j0 < n0.len() && n0[j0]@ == k;
                            assert(self.names@[j0]@ == k);
                        }
                        if k != name@ && self.commands().dom().contains(k) {
                            let j = choose|j: int| 0 <= j < self.names@.len() && self.names@[j]@ == k;
                            assert(n0[j]@ == k);
                        }
                    }
                    assert forall|k: Seq<char>| #[trigger] self.commands().dom().contains(k) implies
                        self.commands()[k] == old(self).commands().insert(name@, handler)[k] by {
                        let j = choose|j: int| 0 <= j < self.names@.len() && self.names@[j]@ == k;
                        if k == name@ {
                            assert(j == n0.len());
                        } else {
                            assert(j < n0.len());
                            let j0 = choose|j0: int| 0 <= j0 < n0.len() && n0[j0]@ == k;
                            assert(j0 == j);
                        }
                    }
                    assert(self.commands() =~= old(self).commands().insert(name@, handler));
                }
            }
        }
    }

    /// Remove custom verb `name`.
    pub fn unregister_command(&mut self, name: &str)
        ensures
            final(self).commands() == old(self).commands().remove(name@),
            final(self).identity() == old(self).identity(),
    {
        proof { use_type_invariant(&*self); }
        let idx = self.index_of(name);
        match idx {
            None => {
                proof { assert(self.commands() =~= old(self).commands().remove(name@)); }
            }
            Some(i) => {
                let mut whole = Bridge { identity: None, names: Vec::new(), handlers: Vec::new() };
                std::mem::swap(&mut whole, self);
                let Bridge { identity, mut names, mut handlers } = whole;
                let ghost n0 = names@;
                let _ = names.remove(i);
                let _ = handlers.remove(i);
                proof {
                    assert forall|a: int, b: int| 0 <= a < names@.len() && 0 <= b < names@.len() && a != b
                        implies names@[a]@ != names@[b]@ by {
                        let a0 = if a < i { a } else { a + 1 };
                        let b0 = if b < i { b } else { b + 1 };
                        assert(names@[a] == n0[a0]);
                        assert(names@[b] == n0[b0]);
                    }
                }
                *self = Bridge { identity, names, handlers };
                proof {
                    assert forall|k: Seq<char>| #[trigger] self.commands().dom().contains(k) <==>
                        old(self).commands().remove(name@).dom().contains(k) by {
                        if self.commands().dom().contains(k) {
                            let j = choose|j: int| 0 <= j < self.names@.len() && self.names@[j]@ == k;
                            let j0 = if j < i { j } else { j + 1 };
                            assert(n0[j0]@ == k);
                            assert(j0 != i);
                        }
                        if old(self).commands().remove(name@).dom().contains(k) {
                            let j0 = choose|j0: int| 0 <= j0 < n0.len() && n0[j0]@ == k;
                            assert(j0 != i);
                            let j = if j0 < i { j0 } else { j0 - 1 };
                            assert(self.names@[j]@ == k);
                        }
                    }
                    assert forall|k: Seq<char>| #[trigger] self.commands().dom().contains(k) implies
                        self.commands()[k] == old(self).commands().remove(name@)[k] by {
                        let j = choose|j: int| 0 <= j < self.names@.len() && self.names@[j]@ == k;
                        let j0 = if j < i { j } else { j + 1 };
                        assert(n0[j0]@ == k);
                        let c0 = choose|c0: int| 0 <= c0 < n0.len() && n0[c0]@ == k;
                        assert(c0 == j0);
                    }
                    assert(self.commands() =~= old(self).commands().remove(name@));
                }
            }
        }
    }

    /// Advertise `identity` from now on.
    pub fn set_app_identity(&mut self, identity: AppIdentity)
        ensures
            final(self).identity() == Some(identity),
            final(self).commands() == old(self).commands(),
    {
        proof { use_type_invariant(&*self); }
        let mut whole = Bridge { identity: None, names: Vec::new(), handlers: Vec::new() };
        std::mem::swap(&mut whole, self);
        let Bridge { identity: _, names, handlers } = whole;
        *self = Bridge { identity: Some(identity), names, handlers };
        proof { assert(self.commands() =~= old(self).commands()); }
    }

    /// The advertised identity; `app` with no optional fields when none
    /// was set.
    pub fn current_identity(&self) -> (id: AppIdentity)
        ensures
            self.identity() matches Some(x) ==> id.name@ == x.name@ && opt_view(id.bundle_id) == opt_view(x.bundle_id)
                && opt_view(id.project_root) == opt_view(x.project_root),
            self.identity() is None ==> id.name@ == "app"@ && id.bundle_id is None && id.project_root is None,
    {
        match &self.identity {
            Some(x) => AppIdentity {
                name: x.name.clone(),
                bundle_id: match &x.bundle_id { Some(b) => Some(b.clone()), None => None },
                project_root: match &x.project_root { Some(r) => Some(r.clone()), None => None },
            },
            None => {
                proof { reveal_strlit("app"); }
                AppIdentity { name: String::from_str("app"), bundle_id: None, project_root: None }
            }
        }
    }
}


/// The verbs the bridge answers.
#[derive(Clone, Copy, Debug, PartialEq, Eq, Structural)]
pub enum Verb {
    Ping,
    GetIdentity,
    FindElement,
    FindAllElements,
    Click,
    TypeText,
    SetToggle,
    Focus,
    Blur,
    GetSnapshot,
    GetChildren,
    GetParent,
    CountElements,
    GetFrame,
    GetAbsoluteFrame,
    GetDeviceFrame,
    GetArenaStats,
    GetPerfCounters,
    ClearPerfCounters,
    ListComponents,
    InvokeMethod,
    /// A verb whose data the host keeps: slider values, logs, watched
    /// signals, navigators.
    Host,
    /// Anything else: a custom verb, or an unknown one.
    Other,
}

/// The verb named `s`.
pub open spec fn verb_of(s: Seq<char>) -> Verb {
    if s == "ping"@ { Verb::Ping }
    else if s == "get_identity"@ { Verb::GetIdentity }
    else if s == "find_element"@ { Verb::FindElement }
    else if s == "find_all_elements"@ { Verb::FindAllElements }
    else if s == "click"@ { Verb::Click }
    else if s == "type_text"@ { Verb::TypeText }
    else if s == "set_toggle"@ { Verb::SetToggle }
    else if s == "focus"@ { Verb::Focus }
    else if s == "blur"@ { Verb::Blur }
    else if s == "get_snapshot"@ { Verb::GetSnapshot }
    else if s == "get_children"@ { Verb::GetChildren }
    else if s == "get_parent"@ { Verb::GetParent }
    else if s == "count_elements"@ { Verb::CountElements }
    else if s == "get_frame"@ { Verb::GetFrame }
    else if s == "get_absolute_frame"@ { Verb::GetAbsoluteFrame }
    else if s == "get_device_frame"@ { Verb::GetDeviceFrame }
    else if s == "get_arena_stats"@ { Verb::GetArenaStats }
    else if s == "get_perf_counters"@ { Verb::GetPerfCounters }
    else if s == "clear_perf_counters"@ { Verb::ClearPerfCounters }
    else if s == "list_components"@ { Verb::ListComponents }
    else if s == "invoke_method"@ { Verb::InvokeMethod }
    else if s == "set_slider"@ || s == "get_logs"@ || s == "clear_logs"@
        || s == "list_watched_signals"@ || s == "read_signal"@
        || s == "list_navigators"@ || s == "get_navigator_state"@ { Verb::Host }
    else { Verb::Other }
}

fn is_str(t: &String, lit: &str) -> (b: bool)
    ensures
        b == (t@ == lit@),
{
    *t == String::from_str(lit)
}

/// The verb a command names.
pub fn parse_verb(cmd: &str) -> (v: Verb)
    ensures
        v == verb_of(cmd@),
{
    let t = String::from_str(cmd);
    if is_str(&t, "ping") { return Verb::Ping; }
    if is_str(&t, "get_identity") { return Verb::GetIdentity; }
    if is_str(&t, "find_element") { return Verb::FindElement; }
    if is_str(&t, "find_all_elements") { return Verb::FindAllElements; }
    if is_str(&t, "click") { return Verb::Click; }
    if is_str(&t, "type_text") { return Verb::TypeText; }
    if is_str(&t, "set_toggle") { return Verb::SetToggle; }
    if is_str(&t, "focus") { return Verb::Focus; }
    if is_str(&t, "blur") { return Verb::Blur; }
    if is_str(&t, "get_snapshot") { return Verb::GetSnapshot; }
    if is_str(&t, "get_children") { return Verb::GetChildren; }
    if is_str(&t, "get_parent") { return Verb::GetParent; }
    if is_str(&t, "count_elements") { return Verb::CountElements; }
    if is_str(&t, "get_frame") { return Verb::GetFrame; }
    if is_str(&t, "get_absolute_frame") { return Verb::GetAbsoluteFrame; }
    if is_str(&t, "get_device_frame") { return Verb::GetDeviceFrame; }
    if is_str(&t, "get_arena_stats") { return Verb::GetArenaStats; }
    if is_str(&t, "get_perf_counters") { return Verb::GetPerfCounters; }
    if is_str(&t, "clear_perf_counters") { return Verb::ClearPerfCounters; }
    if is_str(&t, "list_components") { return Verb::ListComponents; }
    if is_str(&t, "invoke_method") { return Verb::InvokeMethod; }
    if is_str(&t, "set_slider") || is_str(&t, "get_logs") || is_str(&t, "clear_logs")
        || is_str(&t, "list_watched_signals")
        || is_str(&t, "read_signal") || is_str(&t, "list_navigators") || is_str(&t, "get_navigator_state") {
        return Verb::Host;
    }
    Verb::Other
}

/// A reply's text, success or error.
pub open spec fn reply_view(r: Result<String, String>) -> Result<Seq<char>, Seq<char>> {
    match r {
        Ok(s) => Ok(s@),
        Err(e) => Err(e@),
    }
}

/// The text of a robot error.
pub open spec fn error_text(e: RobotError) -> Seq<char> {
    match e {
        RobotError::ElementGone => "element has been unmounted"@,
        RobotError::NotFound => "no element matched the query"@,
        RobotError::ActionNotAvailable(a) => "action '"@ + a@ + "' not available on this element"@,
    }
}

/// A verb that acts on, or measures, one element.
pub open spec fn is_action(v: Verb) -> bool {
    v is Click || v is TypeText || v is SetToggle || v is Focus || v is Blur || v is GetFrame
        || v is GetAbsoluteFrame || v is GetDeviceFrame
}

/// A verb that measures an element.
pub open spec fn is_frame(v: Verb) -> bool {
    v is GetFrame || v is GetAbsoluteFrame || v is GetDeviceFrame
}

/// Whether an element offering `s` can serve action verb `v`.
pub open spec fn action_flag(v: Verb, s: ActionSet) -> bool {
    match v {
        Verb::Click => s.click,
        Verb::TypeText => s.set_text,
        Verb::SetToggle => s.set_toggle,
        Verb::Focus => s.focus,
        Verb::Blur => s.blur,
        Verb::GetFrame => s.frame,
        Verb::GetAbsoluteFrame => s.absolute_frame,
        Verb::GetDeviceFrame => s.device_frame,
        _ => false,
    }
}

/// The action an action verb performs, as errors name it.
pub open spec fn action_name(v: Verb) -> Seq<char> {
    match v {
        Verb::Click => "click"@,
        Verb::TypeText => "type_text"@,
        Verb::SetToggle => "set_toggle"@,
        Verb::Focus => "focus"@,
        Verb::Blur => "blur"@,
        Verb::GetFrame => "frame"@,
        Verb::GetAbsoluteFrame => "absolute_frame"@,
        _ => "device_frame"@,
    }
}

/// What action verb `v` answers: an argument it lacks, an unmounted
/// element or a missing action is an error; a measuring verb answers
/// the measured rectangle (or `null`), another `"ok"`.
pub open spec fn action_reply<A>(reg: Registry<A>, v: Verb, a: Args, r: Result<Seq<char>, Seq<char>>) -> bool {
    match a.element_id {
        None => r == Err::<Seq<char>, Seq<char>>("missing 'element_id' argument"@),
        Some(id) => {
            let i = id as u32;
            if v is TypeText && a.text is None {
                r == Err::<Seq<char>, Seq<char>>("missing 'text' argument"@)
            } else if v is SetToggle && a.value is None {
                r == Err::<Seq<char>, Seq<char>>("missing 'value' argument"@)
            } else if !reg.live(i) {
                r == Err::<Seq<char>, Seq<char>>("element has been unmounted"@)
            } else if !action_flag(v, reg.entry(i).available) {
                r == Err::<Seq<char>, Seq<char>>("action '"@ + action_name(v) + "' not available on this element"@)
            } else if is_frame(v) {
                r is Ok
            } else {
                r == Ok::<Seq<char>, Seq<char>>("\"ok\""@)
            }
        }
    }
}

fn done(r: Result<(), RobotError>) -> (out: Result<String, String>)
    ensures
        r is Ok ==> reply_view(out) == Ok::<Seq<char>, Seq<char>>("\"ok\""@),
        r matches Err(e) ==> reply_view(out) == Err::<Seq<char>, Seq<char>>(error_text(e)),
{
    match r {
        Ok(()) => Ok(String::from_str("\"ok\"")),
        Err(e) => Err(e.message()),
    }
}

fn measured<A: Actions>(robot: &Robot<A>, r: Result<Option<A::Rect>, RobotError>) -> (out: Result<String, String>)
    ensures
        r is Ok ==> out is Ok,
        r matches Ok(x) ==> rendered::<A>(x, out->Ok_0),
        r matches Err(e) ==> reply_view(out) == Err::<Seq<char>, Seq<char>>(error_text(e)),
{
    match r {
        Ok(Some(rect)) => Ok(A::rect_json(&rect)),
        Ok(None) => {
            proof { reveal_strlit("null"); }
            Ok(String::from_str("null"))
        }
        Err(e) => Err(e.message()),
    }
}

/// `out` is the reply for measured rectangle `x`: the rectangle as
/// `rect_json` renders it, or `null`.
pub open spec fn rendered<A: Actions>(x: Option<A::Rect>, out: String) -> bool {
    match x {
        Some(rect) => call_ensures(A::rect_json, (&rect,), out),
        None => out@ == "null"@,
    }
}

/// The element `a` names (by slot) answered `r` for action verb `v`: when
/// the reply is a success, that element's action was called with exactly
/// the requested text or value, and a measuring verb's reply renders what
/// the element's `frame` returned for the verb's frame kind.
pub open spec fn action_called<A: Actions>(reg: Registry<A>, v: Verb, a: Args, r: Result<String, String>) -> bool {
    a.element_id is Some && r is Ok ==> {
        let act = reg.entry(#[verifier::truncate] (a.element_id->Some_0 as u32)).actions;
        match v {
            Verb::Click => call_ensures(A::click, (&act,), ()),
            Verb::TypeText => a.text is Some
                && exists|s: String| s@ == a.text->Some_0@ && #[trigger] call_ensures(A::set_text, (&act, s), ()),
            Verb::SetToggle => a.value is Some && call_ensures(A::set_toggle, (&act, a.value->Some_0), ()),
            Verb::Focus => call_ensures(A::focus, (&act,), ()),
            Verb::Blur => call_ensures(A::blur, (&act,), ()),
            Verb::GetFrame => exists|x: Option<A::Rect>| #[trigger] call_ensures(A::frame, (&act, FrameKind::Local), x)
                && rendered::<A>(x, r->Ok_0),
            Verb::GetAbsoluteFrame => exists|x: Option<A::Rect>| #[trigger] call_ensures(A::frame, (&act, FrameKind::Absolute), x)
                && rendered::<A>(x, r->Ok_0),
            Verb::GetDeviceFrame => exists|x: Option<A::Rect>| #[trigger] call_ensures(A::frame, (&act, FrameKind::Device), x)
                && rendered::<A>(x, r->Ok_0),
            _ => true,
        }
    }
}

fn run_action<A: Actions>(robot: &Robot<A>, v: Verb, args: &Args) -> (r: Result<String, String>)
    requires
        is_action(v),
    ensures
        action_reply(robot.registry(), v, *args, reply_view(r)),
        action_called(robot.registry(), v, *args, r),
{
    let el = match resolve_element(args) {
        Ok(el) => el,
        Err(e) => return Err(e),
    };
    match v {
        Verb::Click => done(robot.click(&el)),
        Verb::TypeText => match &args.text {
            None => {
                proof { reveal_strlit("missing 'text' argument"); }
                Err(String::from_str("missing 'text' argument"))
            }
            Some(t) => done(robot.type_text(&el, t.as_str())),
        },
        Verb::SetToggle => match args.value {
            None => {
                proof { reveal_strlit("missing 'value' argument"); }
                Err(String::from_str("missing 'value' argument"))
            }
            Some(b) => done(robot.set_toggle(&el, b)),
        },
        Verb::Focus => done(robot.focus(&el)),
        Verb::Blur => done(robot.blur(&el)),
        Verb::GetFrame => measured(robot, robot.frame(&el)),
        Verb::GetAbsoluteFrame => measured(robot, robot.absolute_frame(&el)),
        _ => measured(robot, robot.device_frame(&el)),
    }
}

/// A verb that reads the element tree.
pub open spec fn is_query(v: Verb) -> bool {
    v is FindElement || v is FindAllElements || v is GetSnapshot || v is GetChildren || v is GetParent
        || v is CountElements
}

/// Live slot `id` is the first, in slot order, answering `q`.
pub open spec fn first_match<A>(reg: Registry<A>, q: Query, id: u32) -> bool {
    &&& reg.live(id)
    &&& selects(reg.entry(id), q)
    &&& forall|j: u32| j < id && #[trigger] reg.live(j) ==> !selects(reg.entry(j), q)
}

/// `out` is what `find_element` answers for `q`: the record of the
/// element found, or `null`.
pub open spec fn find_reply<A>(reg: Registry<A>, q: Query, out: Seq<char>) -> bool {
    match q {
        Query::TestId(t) => match index_find(reg.by_test_id@, t@) {
            Some(id) => if reg.live(id) {
                out == element_json_spec(entry_view(id, reg.entry(id)))
            } else {
                out == "null"@
            },
            None => out == "null"@,
        },
        _ => if exists|id: u32| #[trigger] first_match(reg, q, id) {
            exists|id: u32| #[trigger] first_match(reg, q, id) && out == element_json_spec(entry_view(id, reg.entry(id)))
        } else {
            out == "null"@
        },
    }
}

/// The JSON array of the records of live slots `ids`.
pub open spec fn ids_json<A>(reg: Registry<A>, ids: Seq<u32>) -> Seq<char> {
    "["@ + join(Seq::new(ids.len(), |i: int| element_json_spec(entry_view(ids[i], reg.entry(ids[i]))))) + "]"@
}

/// The live children of slot `id`, in order (none once it is gone).
pub open spec fn children_ids<A>(reg: Registry<A>, id: u32) -> Seq<u32> {
    if reg.live(id) { live_ids(reg.entries@, reg.entry(id).children@) } else { Seq::empty() }
}

/// The record of the live parent of slot `id`, or `null`.
pub open spec fn parent_reply<A>(reg: Registry<A>, id: u32) -> Seq<char> {
    if reg.live(id) && reg.entry(id).parent is Some && reg.live(reg.entry(id).parent->Some_0.0) {
        let p = reg.entry(id).parent->Some_0.0;
        element_json_spec(entry_view(p, reg.entry(p)))
    } else {
        "null"@
    }
}

/// `out` is the JSON array of the snapshots of every root.
pub open spec fn snapshot_reply<A>(reg: Registry<A>, out: Seq<char>) -> bool {
    let r = roots(reg.entries@, reg.entries@.len() as int);
    exists|nodes: Seq<TreeNode>| {
        &&& #[trigger] nodes.len() == r.len()
        &&& forall|j: int| 0 <= j < nodes.len() ==>
                (#[trigger] nodes[j]).id.0 == r[j] && tree_ok(reg.entries@, nodes[j], reg.entries@.len())
        &&& out == "["@ + join(Seq::new(nodes.len(), |j: int| tree_json_spec(nodes[j]))) + "]"@
    }
}

/// The query `count_elements` counts with: the kind named, else all.
pub open spec fn count_query(a: Args) -> Query {
    match a.kind {
        Some(k) => match kind_of_name(k@) {
            Some(kind) => Query::Kind(kind),
            None => Query::All,
        },
        None => Query::All,
    }
}

/// What tree-reading verb `v` answers.
pub open spec fn query_reply<A>(reg: Registry<A>, v: Verb, a: Args, r: Result<Seq<char>, Seq<char>>) -> bool {
    match v {
        Verb::FindElement => match query_spec(a) {
            None => r == Err::<Seq<char>, Seq<char>>("unknown element kind: "@ + a.kind->Some_0@),
            Some(q) => r is Ok && find_reply(reg, q, r->Ok_0),
        },
        Verb::FindAllElements => match query_spec(a) {
            None => r == Err::<Seq<char>, Seq<char>>("unknown element kind: "@ + a.kind->Some_0@),
            Some(q) => r == Ok::<Seq<char>, Seq<char>>(ids_json(reg, select(reg.entries@, q))),
        },
        Verb::GetSnapshot => r is Ok && snapshot_reply(reg, r->Ok_0),
        Verb::GetChildren => match a.element_id {
            None => r == Err::<Seq<char>, Seq<char>>("missing 'element_id' argument"@),
            Some(id) => r == Ok::<Seq<char>, Seq<char>>(ids_json(reg, children_ids(reg, id as u32))),
        },
        Verb::GetParent => match a.element_id {
            None => r == Err::<Seq<char>, Seq<char>>("missing 'element_id' argument"@),
            Some(id) => r == Ok::<Seq<char>, Seq<char>>(parent_reply(reg, id as u32)),
        },
        Verb::CountElements => r == Ok::<Seq<char>, Seq<char>>(dec(select(reg.entries@, count_query(a)).len())),
        _ => true,
    }
}

/// The JSON array of element records.
fn elements_reply(els: &Vec<Element>) -> (r: String)
    ensures
        r@ == "["@ + join(Seq::new(els@.len(), |i: int| element_json_spec(els@[i]@))) + "]"@,
{
    let mut items: Vec<String> = Vec::new();
    let mut i: usize = 0;
    while i < els.len()
        invariant
            0 <= i <= els@.len(),
            items@.len() == i,
            forall|j: int| 0 <= j < i ==> #[trigger] items@[j]@ == element_json_spec(els@[j]@),
        decreases els@.len() - i,
    {
        items.push(element_json(&els[i]));
        i = i + 1;
    }
    let r = json_array(&items);
    proof {
        assert(Seq::new(items@.len(), |i: int| items@[i]@) =~= Seq::new(els@.len(), |i: int| element_json_spec(els@[i]@)));
    }
    r
}

/// The JSON array of tree snapshots.
fn nodes_reply(nodes: &Vec<TreeNode>) -> (r: String)
    ensures
        r@ == "["@ + join(Seq::new(nodes@.len(), |i: int| tree_json_spec(nodes@[i]))) + "]"@,
{
    let mut items: Vec<String> = Vec::new();
    let mut i: usize = 0;
    while i < nodes.len()
        invariant
            0 <= i <= nodes@.len(),
            items@.len() == i,
            forall|j: int| 0 <= j < i ==> #[trigger] items@[j]@ == tree_json_spec(nodes@[j]),
        decreases nodes@.len() - i,
    {
        items.push(tree_node_json(&nodes[i]));
        i = i + 1;
    }
    let r = json_array(&items);
    proof {
        assert(Seq::new(items@.len(), |i: int| items@[i]@) =~= Seq::new(nodes@.len(), |i: int| tree_json_spec(nodes@[i])));
    }
    r
}

fn run_query<A: Actions>(robot: &Robot<A>, v: Verb, args: &Args) -> (r: Result<String, String>)
    requires
        is_query(v),
    ensures
        query_reply(robot.registry(), v, *args, reply_view(r)),
{
    let ghost reg = robot.registry();
    match v {
        Verb::FindElement => {
            let q = match parse_query(args) {
                Ok(q) => q,
                Err(e) => return Err(e),
            };
            let ghost qs = query_spec(*args)->Some_0;
            proof { lemma_same_query_selects::<A>(q, qs); }
            match robot.find(q) {
                Some(el) => {
                    let out = element_json(&el);
                    proof {
                        if !(qs is TestId) {
                            assert(first_match(reg, qs, el.id.0));
                        }
                    }
                    Ok(out)
                }
                None => {
                    proof {
                        reveal_strlit("null");
                        if !(qs is TestId) {
                            assert forall|id: u32| !first_match(reg, qs, id) by {
                                if reg.live(id) {
                                    assert(!selects(reg.entry(id), q));
                                }
                            }
                        }
                    }
                    Ok(String::from_str("null"))
                }
            }
        }
        Verb::FindAllElements => {
            let q = match parse_query(args) {
                Ok(q) => q,
                Err(e) => return Err(e),
            };
            let ghost qs = query_spec(*args)->Some_0;
            proof { lemma_same_query_selects::<A>(q, qs); }
            let els = robot.find_all(q);
            let out = elements_reply(&els);
            proof {
                let ids = select(reg.entries@, qs);
                assert(Seq::new(els@.len(), |i: int| element_json_spec(els@[i]@))
                    =~= Seq::new(ids.len(), |i: int| element_json_spec(entry_view(ids[i], reg.entry(ids[i])))));
            }
            Ok(out)
        }
        Verb::GetSnapshot => {
            let nodes = robot.snapshot();
            let out = nodes_reply(&nodes);
            proof {
                let r = roots(reg.entries@, reg.entries@.len() as int);
                assert(nodes@.len() == r.len());
                assert(snapshot_reply(reg, out@));
            }
            Ok(out)
        }
        Verb::GetChildren => {
            let el = match resolve_element(args) {
                Ok(el) => el,
                Err(e) => return Err(e),
            };
            let els = robot.children_of(&el);
            let out = elements_reply(&els);
            proof {
                let ids = children_ids(reg, el.id.0);
                assert(Seq::new(els@.len(), |i: int| element_json_spec(els@[i]@))
                    =~= Seq::new(ids.len(), |i: int| element_json_spec(entry_view(ids[i], reg.entry(ids[i])))));
            }
            Ok(out)
        }
        Verb::GetParent => {
            let el = match resolve_element(args) {
                Ok(el) => el,
                Err(e) => return Err(e),
            };
            match robot.parent_of(&el) {
                Some(p) => Ok(element_json(&p)),
                None => {
                    proof { reveal_strlit("null"); }
                    Ok(String::from_str("null"))
                }
            }
        }
        _ => {
            let kind = match &args.kind {
                Some(k) => parse_element_kind(k.as_str()),
                None => None,
            };
            let n = robot.count(kind);
            Ok(decimal(n as u64))
        }
    }
}

/// What `get_identity` answers: the advertised identity (or the default
/// one) and the process id.
pub open spec fn identity_reply(o: Option<AppIdentity>, pid: u32) -> Seq<char> {
    let name = match o { Some(x) => x.name@, None => "app"@ };
    let bundle = match o { Some(x) => opt_view(x.bundle_id), None => None };
    let root = match o { Some(x) => opt_view(x.project_root), None => None };
    "{\"name\":"@ + json_quoted(name) + ",\"bundle_id\":"@ + opt_quoted(bundle) + ",\"project_root\":"@
        + opt_quoted(root) + ",\"pid\":"@ + dec(pid as nat) + "}"@
}

/// `n`, or `usize::MAX` when it does not fit.
pub open spec fn clamp_usize(n: nat) -> nat {
    if n <= usize::MAX { n } else { usize::MAX as nat }
}

/// What `get_arena_stats` answers: the eight arena counters.
pub open spec fn arena_reply<V, B>(st: State<V, B>) -> Seq<char> {
    "{\"signals_in_use\":"@ + dec(count_some(st.arena.values@)) + ",\"signals_total\":"@ + dec(st.arena.values@.len())
        + ",\"effects_in_use\":"@ + dec(count_live(st.arena.effects@)) + ",\"effects_total\":"@
        + dec(st.arena.effects@.len()) + ",\"refs_in_use\":"@ + dec(count_some(st.arena.refs@))
        + ",\"refs_total\":"@ + dec(st.arena.refs@.len()) + ",\"total_subscribers\":"@
        + dec(clamp_usize(total_len(st.arena.subs@))) + ",\"total_deps\":"@
        + dec(clamp_usize(total_len(st.arena.deps@))) + "}"@
}

fn identity_json<C>(bridge: &Bridge<C>, pid: u32) -> (r: String)
    ensures
        r@ == identity_reply(bridge.identity(), pid),
{
    proof {
        reveal_strlit("{\"name\":");
        reveal_strlit(",\"bundle_id\":");
        reveal_strlit(",\"project_root\":");
        reveal_strlit(",\"pid\":");
        reveal_strlit("}");
    }
    let id = bridge.current_identity();
    let mut out = String::from_str("{\"name\":");
    let n = json_string(id.name.as_str());
    out.append(n.as_str());
    out.append(",\"bundle_id\":");
    let b = opt_json_string(&id.bundle_id);
    out.append(b.as_str());
    out.append(",\"project_root\":");
    let rt = opt_json_string(&id.project_root);
    out.append(rt.as_str());
    out.append(",\"pid\":");
    let p = decimal(pid as u64);
    out.append(p.as_str());
    out.append("}");
    out
}

fn push_field(out: &mut String, key: &str, n: usize)
    ensures
        final(out)@ == old(out)@ + key@ + dec(n as nat),
{
    out.append(key);
    let d = decimal(n as u64);
    out.append(d.as_str());
}

fn arena_json<A: Actions, V: Clone + PartialEq, B: Reaction<V>>(robot: &Robot<A>, rt: &Runtime<V, B>) -> (r: String)
    ensures
        r@ == arena_reply(rt.state()),
{
    proof {
        reveal_strlit("{\"signals_in_use\":");
        reveal_strlit(",\"signals_total\":");
        reveal_strlit(",\"effects_in_use\":");
        reveal_strlit(",\"effects_total\":");
        reveal_strlit(",\"refs_in_use\":");
        reveal_strlit(",\"refs_total\":");
        reveal_strlit(",\"total_subscribers\":");
        reveal_strlit(",\"total_deps\":");
        reveal_strlit("}");
    }
    let s = robot.arena_stats(rt);
    let mut out = String::new();
    push_field(&mut out, "{\"signals_in_use\":", s.signals_in_use);
    push_field(&mut out, ",\"signals_total\":", s.signals_total);
    push_field(&mut out, ",\"effects_in_use\":", s.effects_in_use);
    push_field(&mut out, ",\"effects_total\":", s.effects_total);
    push_field(&mut out, ",\"refs_in_use\":", s.refs_in_use);
    push_field(&mut out, ",\"refs_total\":", s.refs_total);
    push_field(&mut out, ",\"total_subscribers\":", s.total_subscribers);
    push_field(&mut out, ",\"total_deps\":", s.total_deps);
    out.append("}");
    proof { assert(out@ =~= arena_reply(rt.state())); }
    out
}

/// The verbs whose data the host keeps (see `Verb::Host`). The bridge
/// hands them over with the command's name and arguments.
pub trait HostVerbs {
    fn run(&self, verb: &str, args: &Args) -> Result<String, String>;
}

/// Run bridge command `cmd`: a built-in verb first, then a host verb,
/// then a custom one; anything else is `unknown command`. `pid` is the
/// process id `get_identity` reports.
pub fn dispatch<A: Actions, C: Command, M: MethodCall, H: HostVerbs, V: Clone + PartialEq, B: Reaction<V>>(
    robot: &Robot<A>,
    bridge: &Bridge<C>,
    components: &Components<M>,
    host: &H,
    rt: &Runtime<V, B>,
    pid: u32,
    cmd: &str,
    args: &Args,
) -> (r: Result<String, String>)
    ensures
        verb_of(cmd@) == Verb::Ping ==> reply_view(r) == Ok::<Seq<char>, Seq<char>>("\"pong\""@),
        verb_of(cmd@) == Verb::GetIdentity ==>
            reply_view(r) == Ok::<Seq<char>, Seq<char>>(identity_reply(bridge.identity(), pid)),
        is_query(verb_of(cmd@)) ==> query_reply(robot.registry(), verb_of(cmd@), *args, reply_view(r)),
        is_action(verb_of(cmd@)) ==> action_reply(robot.registry(), verb_of(cmd@), *args, reply_view(r)),
        is_action(verb_of(cmd@)) ==> action_called(robot.registry(), verb_of(cmd@), *args, r),
        verb_of(cmd@) == Verb::GetArenaStats ==>
            reply_view(r) == Ok::<Seq<char>, Seq<char>>(arena_reply(rt.state())),
        verb_of(cmd@) == Verb::GetPerfCounters ==> reply_view(r) == Err::<Seq<char>, Seq<char>>(
            "perf disabled: rebuild the target app with the `debug-stats` feature to capture phase counters"@),
        verb_of(cmd@) == Verb::ClearPerfCounters ==> reply_view(r) == Err::<Seq<char>, Seq<char>>(
            "perf disabled: rebuild the target app with the `debug-stats` feature"@),
        verb_of(cmd@) == Verb::Other && !bridge.commands().dom().contains(cmd@) ==>
            reply_view(r) == Err::<Seq<char>, Seq<char>>("unknown command: "@ + cmd@),
        verb_of(cmd@) == Verb::Other && bridge.commands().dom().contains(cmd@) ==>
            call_ensures(C::invoke, (&bridge.commands()[cmd@], args), r),
        verb_of(cmd@) == Verb::Host ==> call_ensures(H::run, (host, cmd, args), r),
        verb_of(cmd@) == Verb::ListComponents ==> reply_view(r) == Ok::<Seq<char>, Seq<char>>(components.listing_json()),
        verb_of(cmd@) == Verb::InvokeMethod ==> {
            &&& args.instance_id is None ==> reply_view(r) == Err::<Seq<char>, Seq<char>>("missing 'instance_id' argument"@)
            &&& args.instance_id is Some && args.method is None ==>
                reply_view(r) == Err::<Seq<char>, Seq<char>>("missing 'method' argument"@)
            &&& args.instance_id is Some && args.method is Some ==> {
                &&& method_error(components.entries(), #[verifier::truncate] (args.instance_id->Some_0 as u32),
                        args.method->Some_0@) matches Some(e) ==> reply_view(r) == Err::<Seq<char>, Seq<char>>(e)
                &&& r matches Ok(v) ==> v@ == "\"ok\""@
                &&& method_error(components.entries(), #[verifier::truncate] (args.instance_id->Some_0 as u32),
                        args.method->Some_0@) is None ==> invoked_with(components.entries(), *args, r)
            }
        },
{
    let v = parse_verb(cmd);
    match v {
        Verb::Ping => {
            proof { reveal_strlit("\"pong\""); }
            Ok(String::from_str("\"pong\""))
        }
        Verb::GetIdentity => Ok(identity_json(bridge, pid)),
        Verb::FindElement | Verb::FindAllElements | Verb::GetSnapshot | Verb::GetChildren | Verb::GetParent
        | Verb::CountElements => run_query(robot, v, args),
        Verb::Click | Verb::TypeText | Verb::SetToggle | Verb::Focus | Verb::Blur | Verb::GetFrame
        | Verb::GetAbsoluteFrame | Verb::GetDeviceFrame => run_action(robot, v, args),
        Verb::GetArenaStats => Ok(arena_json(robot, rt)),
        Verb::GetPerfCounters => Err(String::from_str(
            "perf disabled: rebuild the target app with the `debug-stats` feature to capture phase counters")),
        Verb::ClearPerfCounters => Err(String::from_str(
            "perf disabled: rebuild the target app with the `debug-stats` feature")),
        Verb::ListComponents => Ok(components.components_json()),
        Verb::InvokeMethod => components.invoke_verb(args),
        Verb::Host => host.run(cmd, args),
        Verb::Other => match bridge.find_command(cmd) {
            Some(h) => h.invoke(args),
            None => {
                proof { reveal_strlit("unknown command: "); }
                let m = String::from_str("unknown command: ");
                Err(m.concat(cmd))
            }
        },
    }
}

/// The response line for command `id`: `{"id":…,"ok":…}` with the reply,
/// or `{"id":…,"err":…}` with the error as a JSON string.
pub open spec fn response_spec(id: u64, r: Result<Seq<char>, Seq<char>>) -> Seq<char> {
    match r {
        Ok(v) => "{\"id\":"@ + dec(id as nat) + ",\"ok\":"@ + v + "}"@,
        Err(m) => "{\"id\":"@ + dec(id as nat) + ",\"err\":"@ + json_quoted(m) + "}"@,
    }
}

/// Frame the reply to command `id` for the wire.
pub fn response_line(id: u64, r: &Result<String, String>) -> (out: String)
    ensures
        out@ == response_spec(id, reply_view(*r)),
{
    proof {
        reveal_strlit("{\"id\":");
        reveal_strlit(",\"ok\":");
        reveal_strlit(",\"err\":");
        reveal_strlit("}");
    }
    let mut out = String::from_str("{\"id\":");
    let d = decimal(id);
    out.append(d.as_str());
    match r {
        Ok(v) => {
            out.append(",\"ok\":");
            out.append(v.as_str());
        }
        Err(m) => {
            out.append(",\"err\":");
            let q = json_string(m.as_str());
            out.append(q.as_str());
        }
    }
    out.append("}");
    out
}

/// Through the bridge, `set_toggle` passes exactly the requested value to
/// the named element's toggle action, and `type_text` exactly the
/// requested text to its text action: for a live element offering the
/// action, with the argument given, the reply is `"ok"` and the element's
/// action was called with that argument.
pub proof fn law_bridge_passes_requested_value_and_text<A: Actions, C: Command, M: MethodCall, H: HostVerbs,
    V: Clone + PartialEq, B: Reaction<V>>(robot: Robot<A>, bridge: Bridge<C>, components: Components<M>, host: H,
    rt: Runtime<V, B>, pid: u32, cmd: &str, args: Args, r: Result<String, String>)
    requires
        call_ensures(dispatch::<A, C, M, H, V, B>, (&robot, &bridge, &components, &host, &rt, pid, cmd, &args), r),
        args.element_id is Some,
        robot.registry().live(#[verifier::truncate] (args.element_id->Some_0 as u32)),
    ensures
        ({
            let e = robot.registry().entry(#[verifier::truncate] (args.element_id->Some_0 as u32));
            &&& verb_of(cmd@) == Verb::SetToggle && args.value is Some && e.available.set_toggle ==>
                reply_view(r) == Ok::<Seq<char>, Seq<char>>("\"ok\""@)
                && call_ensures(A::set_toggle, (&e.actions, args.value->Some_0), ())
            &&& verb_of(cmd@) == Verb::TypeText && args.text is Some && e.available.set_text ==>
                reply_view(r) == Ok::<Seq<char>, Seq<char>>("\"ok\""@)
                && exists|t: String| t@ == args.text->Some_0@ && #[trigger] call_ensures(A::set_text, (&e.actions, t), ())
        }),
{
}

} // verus!

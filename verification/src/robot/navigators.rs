//! How the bridge reports a mounted navigator: its identity, the active
//! route and path, its depth and its back stack.
use vstd::prelude::*;
use crate::robot::bridge::{json_quoted, json_string};
use crate::robot::json::{dec, decimal, join, json_array};

verus! {

/// What the bridge shows of one mounted navigator.
pub struct NavSnapshot {
    pub nav_id: u32,
    /// The navigator kind, reported as `type_name`.
    /// The element the navigator renders as, if mounted.
    pub element_id: Option<u32>,
    pub kind_name: String,
    pub active_route: String,
    pub active_path: String,
    pub depth: usize,
    pub can_go_back: bool,
    pub is_current: bool,
    pub base: String,
    /// The back stack, bottom first, as `(route, path)`.
    pub stack: Vec<(String, String)>,
}

/// `true` or `false`.
pub open spec fn bool_json(b: bool) -> Seq<char> {
    if b { "true"@ } else { "false"@ }
}

/// One back-stack entry: `{"route":…,"path":…}`.
pub open spec fn stack_entry_json(e: (String, String)) -> Seq<char> {
    "{\"route\":"@ + json_quoted(e.0@) + ",\"path\":"@ + json_quoted(e.1@) + "}"@
}

/// The navigator record the bridge answers with.
pub open spec fn nav_json(s: NavSnapshot) -> Seq<char> {
    "{\"nav_id\":"@ + dec(s.nav_id as nat)
        + ",\"element_id\":"@ + match s.element_id { Some(id) => dec(id as nat), None => "null"@ }
        + ",\"type_name\":"@ + json_quoted(s.kind_name@)
        + ",\"active_route\":"@ + json_quoted(s.active_route@)
        + ",\"active_path\":"@ + json_quoted(s.active_path@)
        + ",\"depth\":"@ + dec(s.depth as nat)
        + ",\"can_go_back\":"@ + bool_json(s.can_go_back)
        + ",\"is_current\":"@ + bool_json(s.is_current)
        + ",\"base\":"@ + json_quoted(s.base@)
        + ",\"stack\":"@ + "["@ + join(Seq::new(s.stack@.len(), |i: int| stack_entry_json(s.stack@[i]))) + "]"@ + "}"@
}

fn bool_text(b: bool) -> (r: &'static str)
    ensures
        r@ == bool_json(b),
{
    proof {
        reveal_strlit("true");
        reveal_strlit("false");
    }
    if b { "true" } else { "false" }
}

/// The JSON record of navigator `s` (`nav_json`).
pub fn nav_snapshot_json(s: &NavSnapshot) -> (r: String)
    ensures
        r@ == nav_json(*s),
{
    proof {
        reveal_strlit("{\"route\":");
        reveal_strlit(",\"path\":");
        reveal_strlit("}");
        reveal_strlit("{\"nav_id\":");
        reveal_strlit(",\"element_id\":");
        reveal_strlit("null");
        reveal_strlit(",\"type_name\":");
        reveal_strlit(",\"active_route\":");
        reveal_strlit(",\"active_path\":");
        reveal_strlit(",\"depth\":");
        reveal_strlit(",\"can_go_back\":");
        reveal_strlit(",\"is_current\":");
        reveal_strlit(",\"base\":");
        reveal_strlit(",\"stack\":");
    }
    let mut items: Vec<String> = Vec::new();
    let mut i: usize = 0;
    while i < s.stack.len()
        invariant
            0 <= i <= s.stack@.len(),
            items@.len() == i,
            forall|j: int| 0 <= j < i ==> #[trigger] items@[j]@ == stack_entry_json(s.stack@[j]),
        decreases s.stack@.len() - i,
    {
        let e = &s.stack[i];
        let mut out = String::from_str("{\"route\":");
        let r = json_string(e.0.as_str());
        out.append(r.as_str());
        out.append(",\"path\":");
        let p = json_string(e.1.as_str());
        out.append(p.as_str());
        out.append("}");
        items.push(out);
        i = i + 1;
    }
    let stack = json_array(&items);
    let mut out = String::from_str("{\"nav_id\":");
    let d = decimal(s.nav_id as u64);
    out.append(d.as_str());
    out.append(",\"element_id\":");
    match s.element_id {
        Some(id) => {
            let e = decimal(id as u64);
            out.append(e.as_str());
        }
        None => out.append("null"),
    }
    out.append(",\"type_name\":");
    let t = json_string(s.kind_name.as_str());
    out.append(t.as_str());
    out.append(",\"active_route\":");
    let ar = json_string(s.active_route.as_str());
    out.append(ar.as_str());
    out.append(",\"active_path\":");
    let ap = json_string(s.active_path.as_str());
    out.append(ap.as_str());
    out.append(",\"depth\":");
    let dd = decimal(s.depth as u64);
    out.append(dd.as_str());
    out.append(",\"can_go_back\":");
    out.append(bool_text(s.can_go_back));
    out.append(",\"is_current\":");
    out.append(bool_text(s.is_current));
    out.append(",\"base\":");
    let b = json_string(s.base.as_str());
    out.append(b.as_str());
    out.append(",\"stack\":");
    out.append(stack.as_str());
    out.append("}");
    proof {
        assert(Seq::new(items@.len(), |i: int| items@[i]@) =~= Seq::new(s.stack@.len(), |i: int| stack_entry_json(s.stack@[i])));
        reveal_strlit("[");
        reveal_strlit("]");
        assert(out@ =~= nav_json(*s));
    }
    out
}

} // verus!

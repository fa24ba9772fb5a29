//! The JSON text the robot bridge writes: decimal numbers, escaped
//! strings, element and tree records.
use vstd::prelude::*;
use vstd::string::StrSliceExecFns;
use crate::robot::{Element, ElementKind, ElementView, TreeNode, opt_view};

verus! {

/// The decimal digit `d` (below ten).
pub open spec fn digit(d: nat) -> char {
    (d + 48) as char
}

/// The decimal representation of `n`.
pub open spec fn dec(n: nat) -> Seq<char>
    decreases n,
{
    if n < 10 {
        seq![digit(n)]
    } else {
        dec(n / 10) + seq![digit(n % 10)]
    }
}

/// The single-digit text of `d`.
fn digit_str(d: u64) -> (s: &'static str)
    requires
        d < 10,
    ensures
        s@ == seq![digit(d as nat)],
{
    proof {
        reveal_strlit("0"); reveal_strlit("1"); reveal_strlit("2"); reveal_strlit("3"); reveal_strlit("4");
        reveal_strlit("5"); reveal_strlit("6"); reveal_strlit("7"); reveal_strlit("8"); reveal_strlit("9");
    }
    match d {
        0 => "0",
        1 => "1",
        2 => "2",
        3 => "3",
        4 => "4",
        5 => "5",
        6 => "6",
        7 => "7",
        8 => "8",
        _ => "9",
    }
}

/// `n` in decimal.
pub fn decimal(n: u64) -> (s: String)
    ensures
        s@ == dec(n as nat),
    decreases n,
{
    if n < 10 {
        String::from_str(digit_str(n))
    } else {
        let mut s = decimal(n / 10);
        s.append(digit_str(n % 10));
        s
    }
}

/// `s` with backslashes and double quotes escaped by a backslash.
pub open spec fn esc(s: Seq<char>) -> Seq<char>
    decreases s.len(),
{
    if s.len() == 0 {
        Seq::empty()
    } else {
        let c = s.last();
        esc(s.drop_last()) + if c == '\\' { seq!['\\', '\\'] } else if c == '"' { seq!['\\', '"'] } else { seq![c] }
    }
}

/// An optional string as JSON: quoted with `esc`, or `null`.
pub open spec fn opt_json(s: Option<Seq<char>>) -> Seq<char> {
    match s {
        Some(v) => seq!['"'] + esc(v) + seq!['"'],
        None => seq!['n', 'u', 'l', 'l'],
    }
}

/// The variant name of an element kind.
pub open spec fn kind_name(k: ElementKind) -> Seq<char> {
    match k {
        ElementKind::View => "View"@,
        ElementKind::Text => "Text"@,
        ElementKind::Button => "Button"@,
        ElementKind::Pressable => "Pressable"@,
        ElementKind::Image => "Image"@,
        ElementKind::Icon => "Icon"@,
        ElementKind::TextInput => "TextInput"@,
        ElementKind::Toggle => "Toggle"@,
        ElementKind::ScrollView => "ScrollView"@,
        ElementKind::Slider => "Slider"@,
        ElementKind::ActivityIndicator => "ActivityIndicator"@,
        ElementKind::Virtualizer => "Virtualizer"@,
        ElementKind::Graphics => "Graphics"@,
        ElementKind::Navigator => "Navigator"@,
        ElementKind::TabNavigator => "TabNavigator"@,
        ElementKind::DrawerNavigator => "DrawerNavigator"@,
        ElementKind::Link => "Link"@,
        ElementKind::Overlay => "Overlay"@,
        ElementKind::Presence => "Presence"@,
    }
}

/// The name of `k`, as `Debug` prints it.
pub fn kind_str(k: ElementKind) -> (s: &'static str)
    ensures
        s@ == kind_name(k),
{
    match k {
        ElementKind::View => "View",
        ElementKind::Text => "Text",
        ElementKind::Button => "Button",
        ElementKind::Pressable => "Pressable",
        ElementKind::Image => "Image",
        ElementKind::Icon => "Icon",
        ElementKind::TextInput => "TextInput",
        ElementKind::Toggle => "Toggle",
        ElementKind::ScrollView => "ScrollView",
        ElementKind::Slider => "Slider",
        ElementKind::ActivityIndicator => "ActivityIndicator",
        ElementKind::Virtualizer => "Virtualizer",
        ElementKind::Graphics => "Graphics",
        ElementKind::Navigator => "Navigator",
        ElementKind::TabNavigator => "TabNavigator",
        ElementKind::DrawerNavigator => "DrawerNavigator",
        ElementKind::Link => "Link",
        ElementKind::Overlay => "Overlay",
        ElementKind::Presence => "Presence",
    }
}

/// Append `v` with backslashes and double quotes escaped.
fn push_escaped(out: &mut String, v: &str)
    ensures
        final(out)@ == old(out)@ + esc(v@),
{
    let n = v.unicode_len();
    let mut i: usize = 0;
    proof { assert(v@.subrange(0, 0) =~= Seq::<char>::empty()); }
    while i < n
        invariant
            n == v@.len(),
            0 <= i <= n,
            out@ == old(out)@ + esc(v@.subrange(0, i as int)),
        decreases n - i,
    {
        let c = v.get_char(i);
        let ghost pre = v@.subrange(0, i as int);
        proof {
            assert(v@.subrange(0, i + 1).drop_last() =~= pre);
            assert(v@.subrange(0, i + 1).last() == c);
            reveal_strlit("\\\\");
            reveal_strlit("\\\"");
        }
        if c == '\\' {
            out.append("\\\\");
        } else if c == '"' {
            out.append("\\\"");
        } else {
            out.append(v.substring_char(i, i + 1));
            proof { assert(v@.subrange(i as int, i + 1) =~= seq![c]); }
        }
        proof {
            assert(out@ =~= old(out)@ + esc(v@.subrange(0, i + 1)));
        }
        i = i + 1;
    }
    proof { assert(v@.subrange(0, n as int) =~= v@); }
}

/// An optional string as JSON.
pub fn opt_str_json(s: Option<&str>) -> (r: String)
    ensures
        r@ == opt_json(match s { Some(v) => Some(v@), None => None }),
{
    proof { reveal_strlit("\""); reveal_strlit("null"); }
    match s {
        Some(v) => {
            let mut out = String::from_str("\"");
            push_escaped(&mut out, v);
            out.append("\"");
            out
        }
        None => String::from_str("null"),
    }
}

/// `Some(&text)` of an optional string.
fn as_opt_str(s: &Option<String>) -> (r: Option<&str>)
    ensures
        match r { Some(v) => Some(v@), None => None } == opt_view(*s),
{
    match s {
        Some(v) => Some(v.as_str()),
        None => None,
    }
}

/// The JSON record of an element snapshot.
pub open spec fn element_json_spec(e: ElementView) -> Seq<char> {
    "{\"id\":"@ + dec(e.id as nat) + ",\"kind\":\""@ + kind_name(e.kind) + "\",\"test_id\":"@
        + opt_json(e.test_id) + ",\"label\":"@ + opt_json(e.label) + "}"@
}

/// `{"id":…,"kind":"…","test_id":…,"label":…}` for `el`.
pub fn element_json(el: &Element) -> (r: String)
    ensures
        r@ == element_json_spec(el@),
{
    proof {
        reveal_strlit("{\"id\":");
        reveal_strlit(",\"kind\":\"");
        reveal_strlit("\",\"test_id\":");
        reveal_strlit(",\"label\":");
        reveal_strlit("}");
    }
    let mut out = String::from_str("{\"id\":");
    let id = decimal(el.id.0 as u64);
    out.append(id.as_str());
    out.append(",\"kind\":\"");
    out.append(kind_str(el.kind));
    out.append("\",\"test_id\":");
    let t = opt_str_json(as_opt_str(&el.test_id));
    out.append(t.as_str());
    out.append(",\"label\":");
    let l = opt_str_json(as_opt_str(&el.label));
    out.append(l.as_str());
    out.append("}");
    out
}

/// Items joined by commas.
pub open spec fn join(items: Seq<Seq<char>>) -> Seq<char>
    decreases items.len(),
{
    if items.len() == 0 {
        Seq::empty()
    } else if items.len() == 1 {
        items[0]
    } else {
        join(items.drop_last()) + seq![','] + items.last()
    }
}

/// The JSON record of a tree snapshot, children nested.
pub open spec fn tree_json_spec(n: TreeNode) -> Seq<char>
    decreases n, 1nat, 0int,
{
    "{\"id\":"@ + dec(n.id.0 as nat) + ",\"kind\":\""@ + kind_name(n.kind) + "\",\"test_id\":"@
        + opt_json(opt_view(n.test_id)) + ",\"label\":"@ + opt_json(opt_view(n.label)) + ",\"children\":["@
        + kids_json(n, n.children@.len() as int) + "]}"@
}

/// The records of the first `k` children of `n`, joined by commas.
pub open spec fn kids_json(n: TreeNode, k: int) -> Seq<char>
    decreases n, 0nat, k,
{
    if k <= 0 || k > n.children@.len() {
        Seq::empty()
    } else {
        proof { assert(decreases_to!(n => n.children@[k - 1])); }
        if k == 1 {
            tree_json_spec(n.children@[0])
        } else {
            kids_json(n, k - 1) + seq![','] + tree_json_spec(n.children@[k - 1])
        }
    }
}

/// Append `items` joined by commas to `out`.
fn push_joined(out: &mut String, items: &Vec<String>)
    ensures
        final(out)@ == old(out)@ + join(Seq::new(items@.len(), |i: int| items@[i]@)),
{
    let mut i: usize = 0;
    proof { reveal_strlit(","); }
    while i < items.len()
        invariant
            0 <= i <= items@.len(),
            out@ == old(out)@ + join(Seq::new(i as nat, |k: int| items@[k]@)),
        decreases items@.len() - i,
    {
        let ghost before = Seq::new(i as nat, |k: int| items@[k]@);
        let ghost after = Seq::new((i + 1) as nat, |k: int| items@[k]@);
        proof {
            assert(after.drop_last() =~= before);
            assert(after.len() == i + 1);
            assert(after.last() == items@[i as int]@);
        }
        let ghost o0 = out@;
        if i > 0 {
            out.append(",");
            proof {
                reveal_strlit(",");
                assert(","@ == seq![',']);
                assert(out@ == o0 + seq![',']);
            }
        }
        out.append(items[i].as_str());
        proof {
            if i == 0 {
                assert(join(after) == items@[0]@);
                assert(join(before) == Seq::<char>::empty());
                assert(out@ =~= old(out)@ + join(after));
            } else {
                assert(join(after) == join(before) + seq![','] + items@[i as int]@);
                assert(out@ == o0 + seq![','] + items@[i as int]@);
                assert(out@ =~= old(out)@ + join(after));
            }
        }
        i = i + 1;
    }
    proof { assert(Seq::new(items@.len(), |i: int| items@[i]@) =~= Seq::new(i as nat, |k: int| items@[k]@)); }
}

/// `[a,b,…]` of already-rendered JSON items.
pub fn json_array(items: &Vec<String>) -> (r: String)
    ensures
        r@ == "["@ + join(Seq::new(items@.len(), |i: int| items@[i]@)) + "]"@,
{
    proof { reveal_strlit("["); reveal_strlit("]"); }
    let mut out = String::from_str("[");
    push_joined(&mut out, items);
    out.append("]");
    out
}

/// The JSON record of `node` and its descendants.
pub fn tree_node_json(node: &TreeNode) -> (r: String)
    ensures
        r@ == tree_json_spec(*node),
    decreases node,
{
    proof {
        reveal_strlit("{\"id\":");
        reveal_strlit(",\"kind\":\"");
        reveal_strlit("\",\"test_id\":");
        reveal_strlit(",\"label\":");
        reveal_strlit(",\"children\":[");
    }
    let mut out = String::from_str("{\"id\":");
    let id = decimal(node.id.0 as u64);
    out.append(id.as_str());
    out.append(",\"kind\":\"");
    out.append(kind_str(node.kind));
    out.append("\",\"test_id\":");
    let t = opt_str_json(as_opt_str(&node.test_id));
    out.append(t.as_str());
    out.append(",\"label\":");
    let l = opt_str_json(as_opt_str(&node.label));
    out.append(l.as_str());
    out.append(",\"children\":[");
    let ghost head = out@;
    let mut i: usize = 0;
    while i < node.children.len()
        invariant
            0 <= i <= node.children@.len(),
            out@ == head + kids_json(*node, i as int),
        decreases node.children@.len() - i,
    {
        proof { assert(decreases_to!(node => node.children@[i as int])); }
        let k = tree_node_json(&node.children[i]);
        if i > 0 {
            out.append(",");
            proof { reveal_strlit(","); }
        }
        out.append(k.as_str());
        proof {
            assert(out@ =~= head + kids_json(*node, i + 1));
        }
        i = i + 1;
    }
    out.append("]}");
    proof {
        reveal_strlit("]}");
        assert(out@ =~= tree_json_spec(*node));
    }
    out
}


/// The kind whose variant name is `s`.
pub open spec fn kind_of_name(s: Seq<char>) -> Option<ElementKind> {
    if s == "View"@ { Some(ElementKind::View) }
    else if s == "Text"@ { Some(ElementKind::Text) }
    else if s == "Button"@ { Some(ElementKind::Button) }
    else if s == "Pressable"@ { Some(ElementKind::Pressable) }
    else if s == "Image"@ { Some(ElementKind::Image) }
    else if s == "Icon"@ { Some(ElementKind::Icon) }
    else if s == "TextInput"@ { Some(ElementKind::TextInput) }
    else if s == "Toggle"@ { Some(ElementKind::Toggle) }
    else if s == "ScrollView"@ { Some(ElementKind::ScrollView) }
    else if s == "Slider"@ { Some(ElementKind::Slider) }
    else if s == "ActivityIndicator"@ { Some(ElementKind::ActivityIndicator) }
    else if s == "Virtualizer"@ { Some(ElementKind::Virtualizer) }
    else if s == "Graphics"@ { Some(ElementKind::Graphics) }
    else if s == "Navigator"@ { Some(ElementKind::Navigator) }
    else if s == "TabNavigator"@ { Some(ElementKind::TabNavigator) }
    else if s == "DrawerNavigator"@ { Some(ElementKind::DrawerNavigator) }
    else if s == "Link"@ { Some(ElementKind::Link) }
    else if s == "Overlay"@ { Some(ElementKind::Overlay) }
    else if s == "Presence"@ { Some(ElementKind::Presence) }
    else { None }
}

/// Reading a kind's name gives the kind back.
pub proof fn lemma_kind_name_round_trip(k: ElementKind)
    ensures
        kind_of_name(kind_name(k)) == Some(k),
{
    reveal_strlit("View"); reveal_strlit("Text"); reveal_strlit("Button"); reveal_strlit("Pressable");
    reveal_strlit("Image"); reveal_strlit("Icon"); reveal_strlit("TextInput"); reveal_strlit("Toggle");
    reveal_strlit("ScrollView"); reveal_strlit("Slider"); reveal_strlit("ActivityIndicator");
    reveal_strlit("Virtualizer"); reveal_strlit("Graphics"); reveal_strlit("Navigator");
    reveal_strlit("TabNavigator"); reveal_strlit("DrawerNavigator"); reveal_strlit("Link");
    reveal_strlit("Overlay"); reveal_strlit("Presence");
    let n = kind_name(k);
    assert(n.len() > 0);
    match k {
        ElementKind::View => {}
        ElementKind::Text => { assert(n[0] != 'V'); }
        ElementKind::Button => { assert(n[0] != 'V' && n[0] != 'T'); }
        ElementKind::Pressable => { assert(n[0] == 'P' && n.len() == 9); }
        ElementKind::Image => { assert(n[0] == 'I' && n.len() == 5); }
        ElementKind::Icon => { assert(n[0] == 'I' && n.len() == 4); }
        ElementKind::TextInput => { assert(n[0] == 'T' && n.len() == 9); }
        ElementKind::Toggle => { assert(n[0] == 'T' && n.len() == 6); }
        ElementKind::ScrollView => { assert(n[0] == 'S' && n.len() == 10); }
        ElementKind::Slider => { assert(n[0] == 'S' && n.len() == 6); }
        ElementKind::ActivityIndicator => { assert(n[0] == 'A'); }
        ElementKind::Virtualizer => { assert(n[0] == 'V' && n.len() == 11); }
        ElementKind::Graphics => { assert(n[0] == 'G'); }
        ElementKind::Navigator => { assert(n[0] == 'N'); }
        ElementKind::TabNavigator => { assert(n[0] == 'T' && n.len() == 12); }
        ElementKind::DrawerNavigator => { assert(n[0] == 'D'); }
        ElementKind::Link => { assert(n[0] == 'L'); }
        ElementKind::Overlay => { assert(n[0] == 'O'); }
        ElementKind::Presence => { assert(n[0] == 'P' && n.len() == 8); }
    }
}

} // verus!

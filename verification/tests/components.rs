use runtime_core::robot::bridge::Args;
use runtime_core::robot::components::{ComponentInstanceId, Components, Method, MethodCall};
use runtime_core::robot::ElementId;
use std::cell::Cell;
use std::rc::Rc;

/// A method that counts its calls, or fails.
struct Call {
    calls: Rc<Cell<u32>>,
    fail: bool,
}

impl MethodCall for Call {
    fn call(&self, args: &Args) -> Result<(), String> {
        if self.fail {
            return Err(format!("bad args: {}", args.raw));
        }
        self.calls.set(self.calls.get() + 1);
        Ok(())
    }
}

fn method(name: &'static str, args: Vec<(&'static str, &'static str)>, calls: &Rc<Cell<u32>>, fail: bool) -> Method<Call> {
    Method { name, args, invoke: Call { calls: calls.clone(), fail } }
}

#[test]
fn element_component_link_round_trips() {
    let mut c: Components<Call> = Components::new();
    let reg = c.register_component("Counter", Vec::new());
    let id = reg.id();
    let element = ElementId(4242);

    c.set_pending_component_link(id);
    assert_eq!(c.take_pending_component_link(), Some(id));
    assert_eq!(c.take_pending_component_link(), None, "pending link is one-shot — descendants must not re-link");
    c.link_component_element(id, element);

    assert_eq!(c.component_for_element(element), Some(id), "reverse lookup");
    let snap = c.list_components();
    let entry = snap.iter().find(|s| s.id == id).expect("registered");
    assert_eq!(entry.element_id, Some(element), "surfaced in list_components");

    c.release(reg);
    assert_eq!(c.component_for_element(element), None, "link dropped with the component registration");
}

#[test]
fn ids_count_up_and_are_not_reused() {
    let mut c: Components<Call> = Components::new();
    let a = c.register_component("A", Vec::new());
    let b = c.register_component("B", Vec::new());
    assert_eq!(a.id(), ComponentInstanceId(1));
    assert_eq!(b.id(), ComponentInstanceId(2));
    c.release(a);
    let d = c.register_component("D", Vec::new());
    assert_eq!(d.id(), ComponentInstanceId(3));
    let names: Vec<&str> = c.list_components().iter().map(|s| s.name).collect();
    assert_eq!(names, vec!["B", "D"]);
}

#[test]
fn invoke_method_reports_missing_instance_and_method() {
    let calls = Rc::new(Cell::new(0u32));
    let mut c: Components<Call> = Components::new();
    let reg = c.register_component(
        "Counter",
        vec![method("reset", Vec::new(), &calls, false), method("bump_by", vec![("n", "i32")], &calls, true)],
    );
    let args = Args::default();
    assert_eq!(c.invoke_method(reg.id(), "reset", &args), Ok(()));
    assert_eq!(calls.get(), 1);
    assert_eq!(
        c.invoke_method(reg.id(), "nope", &args),
        Err("component 'Counter' has no method 'nope'; available: [reset, bump_by]".to_string())
    );
    assert_eq!(
        c.invoke_method(ComponentInstanceId(99), "reset", &args),
        Err("component instance 99 not found".to_string())
    );
    let bad = Args { raw: "{\"n\":\"x\"}".to_string(), ..Args::default() };
    assert_eq!(c.invoke_method(reg.id(), "bump_by", &bad), Err("bad args: {\"n\":\"x\"}".to_string()));
}

#[test]
fn components_json_lists_methods_and_links() {
    let calls = Rc::new(Cell::new(0u32));
    let mut c: Components<Call> = Components::new();
    let reg = c.register_component("Counter", vec![method("bump_by", vec![("n", "i32")], &calls, false)]);
    c.link_component_element(reg.id(), ElementId(7));
    let _other = c.register_component("Plain", Vec::new());
    assert_eq!(
        c.components_json(),
        "[{\"instance_id\":1,\"name\":\"Counter\",\"element_id\":7,\"methods\":[{\"name\":\"bump_by\",\"args\":[{\"name\":\"n\",\"type\":\"i32\"}]}]},{\"instance_id\":2,\"name\":\"Plain\",\"element_id\":null,\"methods\":[]}]"
    );
    let parsed: serde_json::Value = serde_json::from_str(&c.components_json()).unwrap();
    assert_eq!(parsed[0]["methods"][0]["args"][0]["type"], "i32");
}

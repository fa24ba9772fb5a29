use runtime_core::reactive::runtime::{untrack, Reaction, Runtime};
use runtime_core::reactive::state::Signal;
use runtime_core::robot::bridge::{
    bridge_registration_json, dispatch, parse_element_kind, parse_pid_field, parse_verb, response_line, AppIdentity,
    Args, Bridge, Command, HostVerbs, Verb, bind_step, requested_port,
};
use runtime_core::robot::components::{Components, Method, MethodCall};
use runtime_core::robot::{ActionSet, Actions, ElementKind, FrameKind, RegistryEntry, Robot};

/// Callbacks that do nothing: these tests only read the arena.
struct Quiet;

impl Reaction<i64> for Quiet {
    fn run(&mut self, _rt: &mut Runtime<i64, Quiet>) {}
    fn compute(&mut self, _rt: &mut Runtime<i64, Quiet>) -> i64 {
        0
    }
    fn same(&mut self, a: &i64, b: &i64) -> bool {
        a == b
    }
    fn changed(&mut self, _rt: &mut Runtime<i64, Quiet>, _now: &Vec<i64>, _prev: &Option<Vec<i64>>) {}
    fn fire(&mut self, _rt: &mut Runtime<i64, Quiet>) {}
}

/// An element whose device frame is a fixed rectangle.
#[derive(Clone)]
struct Fixed;

impl Actions for Fixed {
    type Rect = (f32, f32, f32, f32);
    fn click(&self) {}
    fn set_text(&self, _text: String) {}
    fn set_toggle(&self, _value: bool) {}
    fn focus(&self) {}
    fn blur(&self) {}
    fn frame(&self, which: FrameKind) -> Option<Self::Rect> {
        match which {
            FrameKind::Device => Some((120.0, 240.0, 80.0, 40.0)),
            _ => None,
        }
    }
    fn rect_json(r: &Self::Rect) -> String {
        format!("{{\"x\":{},\"y\":{},\"width\":{},\"height\":{}}}", r.0, r.1, r.2, r.3)
    }
}

/// A custom verb that echoes the `v` argument back.
struct Echo;

impl Command for Echo {
    fn invoke(&self, args: &Args) -> Result<String, String> {
        let parsed: serde_json::Value = serde_json::from_str(&args.raw).unwrap_or(serde_json::Value::Null);
        let v = parsed.get("v").and_then(|v| v.as_i64()).unwrap_or(-1);
        Ok(format!("{{\"echo\":{v}}}"))
    }
}

/// A custom verb that answers a fixed payload.
struct Hijack;

impl Command for Hijack {
    fn invoke(&self, _args: &Args) -> Result<String, String> {
        Ok("\"hijacked\"".to_string())
    }
}

/// Either custom verb.
enum Custom {
    Echo(Echo),
    Hijack(Hijack),
}

impl Command for Custom {
    fn invoke(&self, args: &Args) -> Result<String, String> {
        match self {
            Custom::Echo(e) => e.invoke(args),
            Custom::Hijack(h) => h.invoke(args),
        }
    }
}

/// A host that knows no verb of its own.
struct NoHost;

impl HostVerbs for NoHost {
    fn run(&self, verb: &str, _args: &Args) -> Result<String, String> {
        Err(format!("host verb {verb} not wired"))
    }
}

/// A component method that succeeds, recording the arguments it got.
struct Record(std::rc::Rc<std::cell::RefCell<Vec<String>>>);

impl MethodCall for Record {
    fn call(&self, args: &Args) -> Result<(), String> {
        self.0.borrow_mut().push(args.raw.clone());
        Ok(())
    }
}

struct Fixture {
    robot: Robot<Fixed>,
    bridge: Bridge<Custom>,
    components: Components<Record>,
    rt: Runtime<i64, Quiet>,
}

impl Fixture {
    fn new() -> Fixture {
        Fixture { robot: Robot::new(), bridge: Bridge::new(), components: Components::new(), rt: Runtime::new() }
    }

    fn invoke(&self, cmd: &str, args: &Args) -> Result<String, String> {
        dispatch(&self.robot, &self.bridge, &self.components, &NoHost, &self.rt, 4242, cmd, args)
    }
}

fn raw(json: &str) -> Args {
    Args { raw: json.to_string(), ..Args::default() }
}

fn with_element(id: u32) -> Args {
    Args { element_id: Some(id as u64), ..Args::default() }
}

fn demo(bundle: Option<&str>, root: Option<&str>) -> AppIdentity {
    AppIdentity {
        name: "demo".to_string(),
        bundle_id: bundle.map(|s| s.to_string()),
        project_root: root.map(|s| s.to_string()),
    }
}

#[test]
fn registration_json_carries_port_pid_name_and_optionals() {
    let identity = demo(Some("com.example.demo"), Some("/tmp/demo"));
    let json = bridge_registration_json(42, 4242, &identity);
    let parsed: serde_json::Value = serde_json::from_str(&json).expect("bridge registration JSON must round-trip");
    assert_eq!(parsed["port"].as_u64(), Some(42));
    assert_eq!(parsed["name"].as_str(), Some("demo"));
    assert_eq!(parsed["bundle_id"].as_str(), Some("com.example.demo"));
    assert_eq!(parsed["project_root"].as_str(), Some("/tmp/demo"));
    assert_eq!(parsed["proto"].as_u64(), Some(1));
    assert!(parsed["pid"].as_u64().is_some(), "pid must be numeric");
}

#[test]
fn registration_json_null_optionals_when_unset() {
    let json = bridge_registration_json(9000, 4242, &demo(None, None));
    let parsed: serde_json::Value = serde_json::from_str(&json).expect("bridge registration JSON must round-trip");
    assert!(parsed["bundle_id"].is_null());
    assert!(parsed["project_root"].is_null());
}

#[test]
fn registration_json_is_exact() {
    let json = bridge_registration_json(9000, 7, &demo(Some("com.x"), None));
    assert_eq!(
        json,
        "{\"port\":9000,\"pid\":7,\"name\":\"demo\",\"bundle_id\":\"com.x\",\"project_root\":null,\"proto\":1}"
    );
}

#[test]
fn registration_json_escapes_the_name() {
    let identity = AppIdentity { name: "a\"b".to_string(), bundle_id: None, project_root: None };
    let json = bridge_registration_json(1, 2, &identity);
    let parsed: serde_json::Value = serde_json::from_str(&json).unwrap();
    assert_eq!(parsed["name"].as_str(), Some("a\"b"));
}

#[test]
fn parse_pid_field_extracts_pid_from_registration_body() {
    let body = bridge_registration_json(55, 31337, &demo(None, None));
    let pid = parse_pid_field(&body).expect("pid must parse out of the registration JSON");
    assert_eq!(pid, 31337);
    // Malformed / missing → None, never a panic.
    assert_eq!(parse_pid_field("{\"port\":1}"), None);
    assert_eq!(parse_pid_field("{\"pid\":\"oops\"}"), None);
}

#[test]
fn parse_pid_field_skips_white_space_and_rejects_overflow() {
    assert_eq!(parse_pid_field("{\"pid\":   17,\"x\":1}"), Some(17));
    assert_eq!(parse_pid_field("{\"pid\":4294967295}"), Some(4294967295));
    assert_eq!(parse_pid_field("{\"pid\":4294967296}"), None);
    assert_eq!(parse_pid_field("{\"pid\":}"), None);
}

#[test]
fn element_kinds_parse_by_name() {
    assert_eq!(parse_element_kind("Button"), Some(ElementKind::Button));
    assert_eq!(parse_element_kind("Presence"), Some(ElementKind::Presence));
    assert_eq!(parse_element_kind("button"), None);
}

#[test]
fn verbs_parse_by_name() {
    assert_eq!(parse_verb("ping"), Verb::Ping);
    assert_eq!(parse_verb("get_device_frame"), Verb::GetDeviceFrame);
    assert_eq!(parse_verb("get_logs"), Verb::Host);
    assert_eq!(parse_verb("screenshot"), Verb::Other);
}

#[test]
fn custom_command_dispatches_and_unregisters() {
    let mut f = Fixture::new();
    // Unknown verb errors before registration.
    let before = f.invoke("unit_echo", &raw("{\"v\":7}"));
    assert!(before.is_err(), "unregistered verb must be 'unknown command', got {before:?}");
    assert_eq!(before, Err("unknown command: unit_echo".to_string()));

    f.bridge.register_command("unit_echo", Custom::Echo(Echo));
    let ok = f.invoke("unit_echo", &raw("{\"v\":7}")).expect("registered verb must dispatch");
    let parsed: serde_json::Value = serde_json::from_str(&ok).unwrap();
    assert_eq!(parsed["echo"], 7, "custom handler payload must round-trip");

    // A built-in verb name is never shadowed by a custom one.
    f.bridge.register_command("ping", Custom::Hijack(Hijack));
    let ping = f.invoke("ping", &raw("{}")).unwrap();
    assert_eq!(ping, "\"pong\"", "built-in verbs take priority over customs");

    f.bridge.unregister_command("unit_echo");
    assert!(f.invoke("unit_echo", &raw("{}")).is_err(), "unregistered verb must error again");
    f.bridge.unregister_command("ping");
}

#[test]
fn get_device_frame_returns_registered_device_rect() {
    let mut f = Fixture::new();
    let id = f.robot.register(RegistryEntry {
        kind: ElementKind::Button,
        test_id: Some("dev_frame_probe".to_string()),
        label: None,
        available: ActionSet::empty(),
        actions: Fixed,
        parent: None,
        children: Vec::new(),
    });
    f.robot.attach_frame_actions(id, Fixed);
    let out = f.invoke("get_device_frame", &with_element(id.0)).expect("get_device_frame should dispatch");
    let v: serde_json::Value = serde_json::from_str(&out).unwrap();
    assert_eq!(v["x"], 120.0);
    assert_eq!(v["y"], 240.0);
    assert_eq!(v["width"], 80.0);
    assert_eq!(v["height"], 40.0);

    let bare = f.robot.register(RegistryEntry {
        kind: ElementKind::View,
        test_id: None,
        label: None,
        available: ActionSet::empty(),
        actions: Fixed,
        parent: None,
        children: Vec::new(),
    });
    let none_out = f.invoke("get_device_frame", &with_element(bare.0));
    assert!(none_out.is_err(), "missing device_frame action surfaces as err");
    f.robot.deregister(id);
    f.robot.deregister(bare);
}

#[test]
fn arena_stats_verb_serializes_eight_fields() {
    let mut f = Fixture::new();
    let s = Signal::new(&mut f.rt, 7);
    let _ = untrack(&mut f.rt, |rt| s.get_untracked(rt));
    let out = f.invoke("get_arena_stats", &raw("{}")).expect("get_arena_stats should dispatch");
    let v: serde_json::Value = serde_json::from_str(&out).unwrap();
    for key in [
        "signals_in_use",
        "signals_total",
        "effects_in_use",
        "effects_total",
        "refs_in_use",
        "refs_total",
        "total_subscribers",
        "total_deps",
    ] {
        assert!(v.get(key).and_then(|n| n.as_u64()).is_some(), "arena stats must expose numeric '{key}', got {v}");
    }
    assert_eq!(v["signals_in_use"].as_u64(), Some(1));
}

#[test]
fn perf_counters_verb_hints_when_debug_stats_off() {
    let f = Fixture::new();
    let err = f.invoke("get_perf_counters", &raw("{}")).expect_err("perf verb must error when debug-stats is off");
    assert!(err.contains("debug-stats"), "error must name the missing feature, got {err:?}");
    let err = f.invoke("clear_perf_counters", &raw("{}")).unwrap_err();
    assert!(err.contains("debug-stats"));
}

#[test]
fn element_verbs_answer_exact_json() {
    let mut f = Fixture::new();
    let mut available = ActionSet::empty();
    available.click = true;
    let root = f.robot.register(RegistryEntry {
        kind: ElementKind::View,
        test_id: Some("root".to_string()),
        label: None,
        available: ActionSet::empty(),
        actions: Fixed,
        parent: None,
        children: Vec::new(),
    });
    let button = f.robot.register(RegistryEntry {
        kind: ElementKind::Button,
        test_id: Some("save".to_string()),
        label: Some("Save".to_string()),
        available,
        actions: Fixed,
        parent: Some(root),
        children: Vec::new(),
    });
    f.robot.add_child(root, button);

    let by_id = Args { test_id: Some("save".to_string()), ..Args::default() };
    assert_eq!(
        f.invoke("find_element", &by_id),
        Ok("{\"id\":1,\"kind\":\"Button\",\"test_id\":\"save\",\"label\":\"Save\"}".to_string())
    );
    let missing = Args { test_id: Some("nope".to_string()), ..Args::default() };
    assert_eq!(f.invoke("find_element", &missing), Ok("null".to_string()));
    let bad_kind = Args { kind: Some("Nope".to_string()), ..Args::default() };
    assert_eq!(f.invoke("find_element", &bad_kind), Err("unknown element kind: Nope".to_string()));
    assert_eq!(f.invoke("find_all_elements", &Args::default()).unwrap().matches("\"id\"").count(), 2);
    assert_eq!(f.invoke("count_elements", &Args::default()), Ok("2".to_string()));
    let buttons = Args { kind: Some("Button".to_string()), ..Args::default() };
    assert_eq!(f.invoke("count_elements", &buttons), Ok("1".to_string()));
    assert_eq!(
        f.invoke("get_parent", &with_element(button.0)),
        Ok("{\"id\":0,\"kind\":\"View\",\"test_id\":\"root\",\"label\":null}".to_string())
    );
    assert_eq!(f.invoke("get_parent", &with_element(root.0)), Ok("null".to_string()));
    assert_eq!(
        f.invoke("get_children", &with_element(root.0)),
        Ok("[{\"id\":1,\"kind\":\"Button\",\"test_id\":\"save\",\"label\":\"Save\"}]".to_string())
    );
    assert_eq!(
        f.invoke("get_snapshot", &Args::default()),
        Ok("[{\"id\":0,\"kind\":\"View\",\"test_id\":\"root\",\"label\":null,\"children\":[{\"id\":1,\"kind\":\"Button\",\"test_id\":\"save\",\"label\":\"Save\",\"children\":[]}]}]".to_string())
    );
    assert_eq!(f.invoke("click", &with_element(button.0)), Ok("\"ok\"".to_string()));
    assert_eq!(
        f.invoke("focus", &with_element(button.0)),
        Err("action 'focus' not available on this element".to_string())
    );
    assert_eq!(f.invoke("click", &Args::default()), Err("missing 'element_id' argument".to_string()));
    assert_eq!(f.invoke("type_text", &with_element(button.0)), Err("missing 'text' argument".to_string()));
    assert_eq!(f.invoke("set_toggle", &with_element(button.0)), Err("missing 'value' argument".to_string()));
    assert_eq!(f.invoke("click", &with_element(9)), Err("element has been unmounted".to_string()));
    assert_eq!(f.invoke("get_frame", &with_element(button.0)), Err("action 'frame' not available on this element".to_string()));
}

#[test]
fn identity_and_host_verbs_route() {
    let mut f = Fixture::new();
    assert_eq!(
        f.invoke("get_identity", &Args::default()),
        Ok("{\"name\":\"app\",\"bundle_id\":null,\"project_root\":null,\"pid\":4242}".to_string())
    );
    f.bridge.set_app_identity(demo(Some("com.example.demo"), None));
    assert_eq!(
        f.invoke("get_identity", &Args::default()),
        Ok("{\"name\":\"demo\",\"bundle_id\":\"com.example.demo\",\"project_root\":null,\"pid\":4242}".to_string())
    );
    assert_eq!(f.invoke("get_logs", &Args::default()), Err("host verb get_logs not wired".to_string()));
}

#[test]
fn response_lines_frame_ok_and_err() {
    assert_eq!(response_line(3, &Ok("\"pong\"".to_string())), "{\"id\":3,\"ok\":\"pong\"}");
    assert_eq!(response_line(0, &Err("bad \"x\"".to_string())), "{\"id\":0,\"err\":\"bad \\\"x\\\"\"}");
}

#[test]
fn requested_port_prefers_a_nonzero_configured_port() {
    assert_eq!(requested_port(Some(4000), 9718), 4000);
    assert_eq!(requested_port(Some(0), 9718), 9718);
    assert_eq!(requested_port(None, 9718), 9718);
}

#[test]
fn bind_step_is_idempotent_and_falls_back_to_ephemeral() {
    assert_eq!(bind_step(true, 9718, false), None);
    assert_eq!(bind_step(true, 9718, true), None);
    assert_eq!(bind_step(false, 9718, false), Some(9718));
    assert_eq!(bind_step(false, 9718, true), Some(0));
    assert_eq!(bind_step(false, 0, true), None);
    assert_eq!(bind_step(false, 0, false), Some(0));
}

#[test]
fn component_verbs_are_answered_by_the_bridge() {
    let mut f = Fixture::new();
    assert_eq!(parse_verb("list_components"), Verb::ListComponents);
    assert_eq!(parse_verb("invoke_method"), Verb::InvokeMethod);
    assert_eq!(f.invoke("list_components", &Args::default()), Ok("[]".to_string()));
    let seen = std::rc::Rc::new(std::cell::RefCell::new(Vec::new()));
    let reg = f.components.register_component(
        "Counter",
        vec![Method { name: "reset", args: Vec::new(), invoke: Record(seen.clone()) }],
    );
    assert_eq!(
        f.invoke("invoke_method", &Args::default()),
        Err("missing 'instance_id' argument".to_string())
    );
    let only_id = Args { instance_id: Some(reg.id().0 as u64), ..Args::default() };
    assert_eq!(f.invoke("invoke_method", &only_id), Err("missing 'method' argument".to_string()));
    let call = Args { instance_id: Some(reg.id().0 as u64), method: Some("reset".to_string()), ..Args::default() };
    assert_eq!(f.invoke("invoke_method", &call), Ok("\"ok\"".to_string()));
    assert_eq!(seen.borrow().clone(), vec!["{}".to_string()]);
    let with_args = Args { method_args: Some("{\"n\":3}".to_string()), ..call.clone() };
    assert_eq!(f.invoke("invoke_method", &with_args), Ok("\"ok\"".to_string()));
    assert_eq!(seen.borrow()[1], "{\"n\":3}");
    let missing = Args { method: Some("nope".to_string()), ..call };
    assert_eq!(
        f.invoke("invoke_method", &missing),
        Err("component 'Counter' has no method 'nope'; available: [reset]".to_string())
    );
    assert!(f.invoke("list_components", &Args::default()).unwrap().contains("\"name\":\"Counter\""));
}

#[test]
fn error_replies_escape_quotes_and_control_chars() {
    let r: Result<String, String> = Err("a\"b\\c\nd\u{1}e\u{8}".to_string());
    assert_eq!(response_line(3, &r), "{\"id\":3,\"err\":\"a\\\"b\\\\c\\nd\\u0001e\\b\"}");
}

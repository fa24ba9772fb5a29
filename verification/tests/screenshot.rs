use base64::Engine as _;
use runtime_core::reactive::runtime::{Reaction, Runtime};
use runtime_core::robot::bridge::{dispatch, Args, Bridge, Command, HostVerbs};
use runtime_core::robot::screenshot::{encode_screenshot_response, register_native_screenshot, screenshot_reply, Screenshot};
use runtime_core::robot::components::{Components, MethodCall};
use runtime_core::robot::{Actions, FrameKind, Robot};

/// Minimal valid 1×1 PNG (8-byte signature + IHDR + IDAT + IEND).
const TINY_PNG: &[u8] = &[
    0x89, 0x50, 0x4E, 0x47, 0x0D, 0x0A, 0x1A, 0x0A, // signature
    0x00, 0x00, 0x00, 0x0D, b'I', b'H', b'D', b'R', // IHDR len + type
    0x00, 0x00, 0x00, 0x01, 0x00, 0x00, 0x00, 0x01, // 1x1
    0x08, 0x06, 0x00, 0x00, 0x00, 0x1F, 0x15, 0xC4, 0x89,
];

/// A capture that delivers synchronously, as native backends do.
struct Capture(Box<dyn Fn(Box<dyn FnOnce(Result<Screenshot, String>)>)>);

impl Command for Capture {
    fn invoke(&self, _args: &Args) -> Result<String, String> {
        let slot = std::rc::Rc::new(std::cell::RefCell::new(None));
        let sink = slot.clone();
        (self.0)(Box::new(move |res| {
            *sink.borrow_mut() = Some(res);
        }));
        let captured = slot.borrow_mut().take();
        screenshot_reply(captured)
    }
}

struct Quiet;

impl Reaction<i64> for Quiet {
    fn run(&mut self, _rt: &mut Runtime<i64, Quiet>) {}
    fn compute(&mut self, _rt: &mut Runtime<i64, Quiet>) -> i64 {
        0
    }
    fn same(&mut self, a: &i64, b: &i64) -> bool {
        a == b
    }
    fn changed(&mut self, _rt: &mut Runtime<i64, Quiet>, _now: &Vec<i64>, _prev: &Option<Vec<i64>>) {}
    fn fire(&mut self, _rt: &mut Runtime<i64, Quiet>) {}
}

struct Inert;

impl Actions for Inert {
    type Rect = ();
    fn click(&self) {}
    fn set_text(&self, _text: String) {}
    fn set_toggle(&self, _value: bool) {}
    fn focus(&self) {}
    fn blur(&self) {}
    fn frame(&self, _which: FrameKind) -> Option<Self::Rect> {
        None
    }
    fn rect_json(_r: &Self::Rect) -> String {
        "null".to_string()
    }
}

struct NoHost;

/// A component method that does nothing.
struct NoMethod;

impl MethodCall for NoMethod {
    fn call(&self, _args: &Args) -> Result<(), String> {
        Ok(())
    }
}

impl HostVerbs for NoHost {
    fn run(&self, _verb: &str, _args: &Args) -> Result<String, String> {
        Err("no host".to_string())
    }
}

fn invoke(bridge: &Bridge<Capture>, cmd: &str) -> Result<String, String> {
    let robot: Robot<Inert> = Robot::new();
    let rt: Runtime<i64, Quiet> = Runtime::new();
    let components: Components<NoMethod> = Components::new();
    dispatch(&robot, bridge, &components, &NoHost, &rt, 1, cmd, &Args::default())
}

#[test]
fn encode_response_round_trips_png_bytes() {
    let payload = encode_screenshot_response(Screenshot { png: TINY_PNG.to_vec(), width: 1, height: 1 }).expect("encode");
    let v: serde_json::Value = serde_json::from_str(&payload).unwrap();
    assert_eq!(v["width"], 1);
    assert_eq!(v["height"], 1);
    let decoded = base64::engine::general_purpose::STANDARD.decode(v["png_base64"].as_str().unwrap()).unwrap();
    assert_eq!(decoded, TINY_PNG);
    assert_eq!(&decoded[..8], &TINY_PNG[..8], "PNG signature preserved");
}

#[test]
fn encoded_payload_is_exact() {
    let payload = encode_screenshot_response(Screenshot { png: vec![1, 2, 3], width: 640, height: 480 }).unwrap();
    assert_eq!(payload, "{\"height\":480,\"png_base64\":\"AQID\",\"width\":640}");
}

#[test]
fn registered_verb_captures_and_encodes() {
    let mut bridge: Bridge<Capture> = Bridge::new();
    register_native_screenshot(
        &mut bridge,
        Capture(Box::new(|done| {
            done(Ok(Screenshot { png: TINY_PNG.to_vec(), width: 1, height: 1 }));
        })),
    );
    let out = invoke(&bridge, "screenshot").expect("verb should succeed");
    let v: serde_json::Value = serde_json::from_str(&out).unwrap();
    let decoded = base64::engine::general_purpose::STANDARD.decode(v["png_base64"].as_str().unwrap()).unwrap();
    assert_eq!(&decoded[..8], &TINY_PNG[..8]);
    bridge.unregister_command("screenshot");
    assert!(invoke(&bridge, "screenshot").is_err());
}

#[test]
fn capture_error_propagates_to_verb() {
    let mut bridge: Bridge<Capture> = Bridge::new();
    register_native_screenshot(&mut bridge, Capture(Box::new(|done| done(Err("no host root".into())))));
    let err = invoke(&bridge, "screenshot").expect_err("verb should report the capture error");
    assert!(err.contains("no host root"), "got: {err}");
    bridge.unregister_command("screenshot");
}

#[test]
fn capture_that_never_delivers_is_an_error() {
    assert_eq!(
        screenshot_reply(None),
        Err("capture_screenshot did not complete synchronously (async capture is not yet supported over the bridge)"
            .to_string())
    );
}

#[test]
fn encoded_payload_pads_the_last_group() {
    let one = encode_screenshot_response(Screenshot { png: vec![0xff], width: 1, height: 1 }).unwrap();
    assert_eq!(one, "{\"height\":1,\"png_base64\":\"/w==\",\"width\":1}");
    let five = encode_screenshot_response(Screenshot { png: vec![1, 2, 3, 0xfb, 0xff], width: 2, height: 3 }).unwrap();
    assert_eq!(five, "{\"height\":3,\"png_base64\":\"AQID+/8=\",\"width\":2}");
}

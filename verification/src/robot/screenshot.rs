//! The native `"screenshot"` bridge verb: the host captures the rendered
//! surface as PNG; the bridge answers it base64-encoded with its size.
use vstd::prelude::*;
use crate::robot::bridge::{Bridge, json_quoted, json_string};
use crate::robot::json::{dec, decimal};

verus! {

/// A captured frame: PNG bytes and the size in pixels.
pub struct Screenshot {
    pub png: Vec<u8>,
    pub width: u32,
    pub height: u32,
}

/// Digit `v` (below 64) of the standard base64 alphabet: `A`-`Z`, `a`-`z`,
/// `0`-`9`, `+`, `/`.
pub open spec fn b64_digit(v: int) -> char {
    if v < 26 { ('A' as int + v) as char }
    else if v < 52 { ('a' as int + v - 26) as char }
    else if v < 62 { ('0' as int + v - 52) as char }
    else if v == 62 { '+' }
    else { '/' }
}

/// The padded standard base64 encoding of `bytes`: each group of three
/// bytes as four digits of six bits each, a last group of one or two
/// bytes padded with `=` to four chars.
pub open spec fn base64_of(b: Seq<u8>) -> Seq<char>
    decreases b.len(),
{
    if b.len() == 0 {
        Seq::empty()
    } else {
        let x = b[0] as int;
        let y = if b.len() > 1 { b[1] as int } else { 0 };
        let z = if b.len() > 2 { b[2] as int } else { 0 };
        if b.len() == 1 {
            seq![b64_digit(x / 4), b64_digit((x % 4) * 16), '=', '=']
        } else if b.len() == 2 {
            seq![b64_digit(x / 4), b64_digit((x % 4) * 16 + y / 16), b64_digit((y % 16) * 4), '=']
        } else {
            seq![b64_digit(x / 4), b64_digit((x % 4) * 16 + y / 16), b64_digit((y % 16) * 4 + z / 64), b64_digit(z % 64)]
                + base64_of(b.subrange(3, b.len() as int))
        }
    }
}

/// `base64::engine::general_purpose::STANDARD.encode`: the padded
/// standard-alphabet encoding of `bytes` (`base64_of`). The engine panics
/// when the output length overflows `usize`, which the bound leaves out.
#[verifier::external_body]
fn base64_encode(bytes: &Vec<u8>) -> (r: String)
    requires
        bytes@.len() / 3 * 4 + 4 <= usize::MAX,
    ensures
        r@ == base64_of(bytes@),
{
    base64::Engine::encode(&base64::engine::general_purpose::STANDARD, bytes)
}

/// The verb's payload for a frame: `{"height":…,"png_base64":…,"width":…}`
/// (keys in the order a JSON object map keeps them).
pub open spec fn screenshot_json(png: Seq<u8>, width: u32, height: u32) -> Seq<char> {
    "{\"height\":"@ + dec(height as nat) + ",\"png_base64\":"@ + json_quoted(base64_of(png)) + ",\"width\":"@
        + dec(width as nat) + "}"@
}

/// Encode a captured frame as the verb's payload.
pub fn encode_screenshot_response(shot: Screenshot) -> (r: Result<String, String>)
    requires
        shot.png@.len() / 3 * 4 + 4 <= usize::MAX,
    ensures
        r is Ok,
        r->Ok_0@ == screenshot_json(shot.png@, shot.width, shot.height),
{
    proof {
        reveal_strlit("{\"height\":");
        reveal_strlit(",\"png_base64\":");
        reveal_strlit(",\"width\":");
        reveal_strlit("}");
    }
    let b64 = base64_encode(&shot.png);
    let mut out = String::from_str("{\"height\":");
    let h = decimal(shot.height as u64);
    out.append(h.as_str());
    out.append(",\"png_base64\":");
    let q = json_string(b64.as_str());
    out.append(q.as_str());
    out.append(",\"width\":");
    let w = decimal(shot.width as u64);
    out.append(w.as_str());
    out.append("}");
    Ok(out)
}

/// The message when the host's capture did not deliver a frame before
/// returning.
pub open spec fn not_delivered() -> Seq<char> {
    "capture_screenshot did not complete synchronously (async capture is not yet supported over the bridge)"@
}

/// What the verb answers for what the capture delivered: nothing yet is
/// an error, a capture error is passed on, a frame is encoded.
pub fn screenshot_reply(captured: Option<Result<Screenshot, String>>) -> (r: Result<String, String>)
    requires
        captured matches Some(Ok(shot)) ==> shot.png@.len() / 3 * 4 + 4 <= usize::MAX,
    ensures
        captured is None ==> r is Err && r->Err_0@ == not_delivered(),
        captured matches Some(Err(e)) ==> r is Err && r->Err_0@ == e@,
        captured matches Some(Ok(shot)) ==> r is Ok && r->Ok_0@ == screenshot_json(shot.png@, shot.width, shot.height),
{
    match captured {
        None => Err(String::from_str(
            "capture_screenshot did not complete synchronously (async capture is not yet supported over the bridge)")),
        Some(Err(e)) => Err(e),
        Some(Ok(shot)) => encode_screenshot_response(shot),
    }
}

/// Register the native `"screenshot"` verb: `capture` is the host's
/// handler, which captures a frame and answers `screenshot_reply` of it.
pub fn register_native_screenshot<C>(bridge: &mut Bridge<C>, capture: C)
    ensures
        final(bridge).commands() == old(bridge).commands().insert("screenshot"@, capture),
        final(bridge).identity() == old(bridge).identity(),
{
    bridge.register_command("screenshot", capture);
}

} // verus!

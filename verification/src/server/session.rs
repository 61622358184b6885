//! One request to the daemon: the checks on the received message, the
//! reply to it, and the pauses between the attempts to send the reply.
use super::command_registry::{dispatch, CommandHandler, CommandRegistry};
use super::response_handler::{format_response, response_text};
use crate::text::{concat2, is_prefix, push_dec, push_str, words};
use vstd::prelude::*;
use vstd::utf8::{decode_utf8, valid_utf8};

verus! {

/// The largest message accepted, in bytes.
pub const MAX_MESSAGE_SIZE: usize = 1024 * 1024;

/// The number of attempts to send a reply.
pub const MAX_SEND_RETRIES: usize = 3;

/// The bytes as a string, by `String::from_utf8`: the claim is that it
/// succeeds exactly when the bytes are valid UTF-8, and that the string then
/// holds the characters the bytes encode. Nothing is claimed of the error.
#[verifier::external_body]
fn string_from_utf8(bytes: Vec<u8>) -> (r: Result<String, std::string::FromUtf8Error>)
    ensures
        r is Ok <==> valid_utf8(bytes@),
        r matches Ok(s) ==> s@ == decode_utf8(bytes@),
{
    String::from_utf8(bytes)
}

/// The pause before the next attempt to send a reply, after the attempt
/// numbered `attempt` (from 0) failed: 100 ms more for each failed attempt,
/// and none after the last attempt.
pub fn retry_delay_ms(attempt: usize) -> (d: Option<u64>)
    ensures
        attempt + 1 < MAX_SEND_RETRIES ==> d == Some((100 * (attempt + 1)) as u64),
        attempt + 1 >= MAX_SEND_RETRIES ==> d is None,
{
    if attempt < MAX_SEND_RETRIES - 1 {
        Some(100 * (attempt as u64 + 1))
    } else {
        None
    }
}

/// The refusal of a message that is too large.
pub open spec fn too_large_text(len: nat) -> Seq<char> {
    "Message too large: "@ + crate::text::dec(len) + " bytes (max: 1048576)"@
}

/// The command line of a message, read from its first frame: refused when
/// there is no frame, when the frame holds more than a mebibyte, or when it
/// is not UTF-8.
pub fn extract_command(frame: Option<&Vec<u8>>) -> (r: Result<String, String>)
    ensures
        frame is None ==> (r matches Err(m) && m@ == "Received empty message"@),
        frame matches Some(f) ==> {
            if f@.len() > MAX_MESSAGE_SIZE {
                r matches Err(m) && m@ == too_large_text(f@.len())
            } else if valid_utf8(f@) {
                r matches Ok(s) && s@ == decode_utf8(f@)
            } else {
                r matches Err(m) && is_prefix("Invalid UTF-8 message: "@, m@)
            }
        },
{
    let f = match frame {
        None => {
            return Err(String::from_str("Received empty message"));
        },
        Some(f) => f,
    };
    if f.len() > MAX_MESSAGE_SIZE {
        let mut m = String::from_str("Message too large: ");
        push_dec(&mut m, f.len() as u64);
        push_str(&mut m, " bytes (max: 1048576)");
        return Err(m);
    }
    let bytes = f.clone();
    match string_from_utf8(bytes) {
        Ok(s) => Ok(s),
        Err(e) => {
            let t = e.to_string();
            let m = concat2("Invalid UTF-8 message: ", t.as_str());
            proof {
                assert(m@.take("Invalid UTF-8 message: "@.len() as int) =~= "Invalid UTF-8 message: "@);
            }
            Err(m)
        },
    }
}

/// The reply to a message: the reply to its command line, or `Error: ` and
/// why the message was refused.
pub fn respond<H: ?Sized + CommandHandler>(
    registry: &CommandRegistry<H>,
    frame: Option<&Vec<u8>>,
) -> (s: String)
    requires
        registry.wf(),
    ensures
        frame is None ==> s@ == "Error: "@ + "Received empty message"@,
        frame matches Some(f) ==> {
            if f@.len() > MAX_MESSAGE_SIZE {
                s@ == "Error: "@ + too_large_text(f@.len())
            } else if valid_utf8(f@) {
                exists|r| dispatch(registry@, words(decode_utf8(f@)), r) && s@ == response_text(r)
            } else {
                is_prefix("Error: Invalid UTF-8 message: "@, s@)
            }
        },
{
    match extract_command(frame) {
        Err(m) => {
            let s = concat2("Error: ", m.as_str());
            proof {
                reveal_strlit("Error: ");
                reveal_strlit("Invalid UTF-8 message: ");
                reveal_strlit("Error: Invalid UTF-8 message: ");
                assert("Error: Invalid UTF-8 message: "@ =~= "Error: "@ + "Invalid UTF-8 message: "@);
                if frame is Some && !(frame->Some_0@.len() > MAX_MESSAGE_SIZE) {
                    assert(s@.take("Error: Invalid UTF-8 message: "@.len() as int) =~= "Error: "@
                        + m@.take("Invalid UTF-8 message: "@.len() as int));
                }
            }
            s
        },
        Ok(line) => {
            let r = registry.handle(line.as_str());
            let ghost g = r;
            let s = format_response(r);
            proof {
                assert(dispatch(registry@, words(line@), g) && s@ == response_text(g));
            }
            s
        },
    }
}

} // verus!

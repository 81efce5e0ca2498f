//! The driver: one payload becomes one block of configuration text, and a
//! whole input stream becomes the blocks of its frames in order, ending with
//! success exactly at a clean end of the stream and with failure at the first
//! framing or decode error.

use vstd::prelude::*;
use crate::decode::{DecodeError, json_doc, obj_of, decode};
use crate::emit::{render_object, write_icinga_object};
use crate::frame::{FrameStep, FrameError, frame_at, next_frame, lemma_frame_next_bounds};
use vstd::string::StringExecFns;

verus! {

/// The block of configuration text one payload yields, if it decodes to a
/// well-shaped record.
pub open spec fn payload_block(b: Seq<u8>) -> Option<Seq<char>> {
    match json_doc(b) {
        None => None,
        Some(t) => match obj_of(t) {
            None => None,
            Some(o) => Some(render_object(o)),
        },
    }
}

/// Decodes one payload and renders its block, failing exactly where the
/// payload does not decode to a well-shaped record.
pub fn process_payload(bytes: &Vec<u8>) -> (r: Result<String, DecodeError>)
    ensures
        (r matches Ok(s) ==> payload_block(bytes@) == Some(s@)),
        r is Err <==> payload_block(bytes@) is None,
        (r matches Err(e) && e == DecodeError::Syntax) <==> json_doc(bytes@) is None,
        (r matches Err(e) && e == DecodeError::Shape) <==> (json_doc(bytes@) matches Some(t)
            && obj_of(t) is None),
{
    let o = decode(bytes)?;
    let mut out = String::new();
    write_icinga_object(&mut out, &o);
    proof {
        assert(out@ =~= render_object(crate::value::object_rep(o)));
    }
    Ok(out)
}

/// The driver's reading of a whole input from `pos` on: the concatenated
/// blocks of the frames that decode, and whether the run ends at a clean end
/// of the stream (`true`) or at the first failure (`false`).
pub open spec fn stream_output(s: Seq<u8>, pos: int) -> (Seq<char>, bool)
    decreases s.len() - pos when 0 <= pos <= s.len() via stream_output_decreases
{
    match frame_at(s, pos) {
        FrameStep::Clean => (Seq::empty(), true),
        FrameStep::Found { payload, next } => match payload_block(payload) {
            None => (Seq::empty(), false),
            Some(block) => (block + stream_output(s, next).0, stream_output(s, next).1),
        },
        FrameStep::Truncated => (Seq::empty(), false),
        FrameStep::Malformed => (Seq::empty(), false),
    }
}

#[via_fn]
proof fn stream_output_decreases(s: Seq<u8>, pos: int) {
    lemma_frame_next_bounds(s, pos);
}

/// Runs the whole filter over one input: reads frames in order, decodes and
/// emits each block eagerly, stops with success exactly at a clean end of the
/// stream and with failure at the first framing or decode error, keeping the
/// blocks already emitted.
pub fn process_stream(input: &Vec<u8>) -> (r: (String, bool))
    ensures
        r.0@ == stream_output(input@, 0).0,
        r.1 == stream_output(input@, 0).1,
{
    let mut out = String::new();
    let mut pos: usize = 0;
    proof {
        assert(Seq::<char>::empty() + stream_output(input@, 0).0 =~= stream_output(input@, 0).0);
    }
    loop
        invariant
            pos <= input.len(),
            stream_output(input@, 0).0 == out@ + stream_output(input@, pos as int).0,
            stream_output(input@, 0).1 == stream_output(input@, pos as int).1,
        decreases input.len() - pos,
    {
        match next_frame(input, pos) {
            Err(FrameError::CleanEnd) => {
                proof {
                    assert(out@ + Seq::<char>::empty() =~= out@);
                }
                return (out, true);
            },
            Err(_) => {
                return (out, false);
            },
            Ok(found) => {
                let (payload, next) = found;
                proof {
                    lemma_frame_next_bounds(input@, pos as int);
                }
                match process_payload(&payload) {
                    Ok(block) => {
                        out.append(block.as_str());
                        proof {
                            assert(stream_output(input@, 0).0 == out@ + stream_output(
                                input@,
                                next as int,
                            ).0) by {
                                assert(stream_output(input@, pos as int).0 == block@
                                    + stream_output(input@, next as int).0);
                            }
                        }
                        pos = next;
                    },
                    Err(_) => {
                        proof {
                            assert(out@ + Seq::<char>::empty() =~= out@);
                        }
                        return (out, false);
                    },
                }
            },
        }
    }
}

} // verus!

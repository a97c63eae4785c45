//! Renders text inside a speech or thought bubble above Ferris the crab.
//!
//! The layout engine is verified: wrapping to a width in display columns,
//! sizing the box, choosing the border glyphs and assembling the figure.

mod buffer;
pub mod bubble;
pub mod figure;
pub mod width;
pub mod wrap;

pub use bubble::{longest_line, render};
pub use figure::{Eyes, Mode};
pub use wrap::{fit_lines, wrap};

use bubble::picture;
use vstd::prelude::*;
use vstd::utf8::{decode_utf8, encode_utf8, valid_utf8};
use wrap::wrapped_lines;

verus! {

broadcast use vstd::utf8::group_utf8_lib;

/// How Ferris presents the text: speaking or thinking, and with which eyes.
#[derive(Clone, Copy, Debug, PartialEq, Eq, Structural)]
pub struct Config {
    pub mode: Mode,
    pub eyes: Eyes,
}

/// Why a text could not be rendered.
#[derive(Clone, Copy, Debug, PartialEq, Eq, Structural)]
pub enum RenderError {
    /// The input bytes are not well-formed UTF-8.
    InvalidEncoding,
}

/// The bytes that `perform` appends for a well-formed `input`.
pub open spec fn rendering(input: Seq<u8>, max_width: nat, config: Config) -> Seq<u8> {
    encode_utf8(
        picture(wrapped_lines(decode_utf8(input), max_width), config.mode, config.eyes),
    )
}

/// Relies on `std::str::from_utf8`: it succeeds exactly on well-formed UTF-8,
/// and the text it gives encodes back to the same bytes.
#[verifier::external_body]
fn decode_text(bytes: &[u8]) -> (r: Option<&str>)
    ensures
        r is Some <==> valid_utf8(bytes@),
        r matches Some(s) ==> encode_utf8(s@) == bytes@,
{
    std::str::from_utf8(bytes).ok()
}

/// Renders `input`, wrapped at `max_width` columns, in the bubble and with
/// the figure that `config` chooses, and appends the bytes to `out` in one
/// piece. Input that is not well-formed UTF-8 is refused and nothing is
/// written.
pub fn perform(input: &[u8], max_width: usize, out: &mut Vec<u8>, config: Config) -> (r: Result<
    (),
    RenderError,
>)
    ensures
        r is Ok <==> valid_utf8(input@),
        r is Ok ==> final(out)@ == old(out)@ + rendering(input@, max_width as nat, config),
        r is Err ==> r == Err::<(), RenderError>(RenderError::InvalidEncoding) && final(out)@
            == old(out)@,
{
    match decode_text(input) {
        None => Err(RenderError::InvalidEncoding),
        Some(text) => {
            assert(text@ == decode_utf8(input@));
            let lines = wrap(text, max_width);
            render(&lines, config.mode, config.eyes, out);
            Ok(())
        },
    }
}

/// Ferris says `input`: `perform` with a speech bubble.
pub fn say(input: &[u8], max_width: usize, out: &mut Vec<u8>, eyes: Eyes) -> (r: Result<
    (),
    RenderError,
>)
    ensures
        r is Ok <==> valid_utf8(input@),
        r is Ok ==> final(out)@ == old(out)@ + rendering(
            input@,
            max_width as nat,
            (Config { mode: Mode::Say, eyes }),
        ),
        r is Err ==> r == Err::<(), RenderError>(RenderError::InvalidEncoding) && final(out)@
            == old(out)@,
{
    perform(input, max_width, out, Config { mode: Mode::Say, eyes })
}

/// Ferris thinks `input`: `perform` with a thought bubble.
pub fn think(input: &[u8], max_width: usize, out: &mut Vec<u8>, eyes: Eyes) -> (r: Result<
    (),
    RenderError,
>)
    ensures
        r is Ok <==> valid_utf8(input@),
        r is Ok ==> final(out)@ == old(out)@ + rendering(
            input@,
            max_width as nat,
            (Config { mode: Mode::Think, eyes }),
        ),
        r is Err ==> r == Err::<(), RenderError>(RenderError::InvalidEncoding) && final(out)@
            == old(out)@,
{
    perform(input, max_width, out, Config { mode: Mode::Think, eyes })
}

} // verus!

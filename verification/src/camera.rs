//! The camera: the framing of its pictures, and what its helper reports.

use vstd::prelude::*;
use vstd::utf8::is_ascii_chars;

use crate::text::{
    ascii_lower, contains, law_occurring_is_standing_within, lowercase, occurs_in, opt_chars,
    to_lowercase,
};

verus! {

/// The largest picture that is read.
pub const MAX_FRAME_BYTES: u32 = 33_554_432;

/// What is shown when the permission to capture is missing.
pub const PERMISSION_NOTICE: &'static str =
    "Camera needs permission — grant it in System Settings › Privacy & Security › Camera, then restart.";

/// What is shown when there is no camera.
pub const NO_CAMERA_NOTICE: &'static str = "No camera found.";

/// What is shown when capture has started.
pub const CAPTURING_NOTICE: &'static str = "Capturing camera frames.";

/// The length that a header of four bytes announces.
pub open spec fn announced_len(header: Seq<u8>) -> int {
    header[0] + 0x100 * header[1] + 0x1_0000 * header[2] + 0x100_0000 * header[3]
}

/// The length of the picture behind a header. A length of nothing, or one that
/// is too large, means that the stream is out of step.
pub fn frame_len(header: &[u8; 4]) -> (r: Option<usize>)
    ensures
        match r {
            Some(n) => n == announced_len(header@) && 0 < n <= MAX_FRAME_BYTES,
            None => announced_len(header@) == 0 || announced_len(header@) > MAX_FRAME_BYTES,
        },
        r is Some <==> 0 < announced_len(header@) <= 33_554_432,
{
    let len: u32 = header[0] as u32 + 0x100 * (header[1] as u32) + 0x1_0000 * (header[2] as u32)
        + 0x100_0000 * (header[3] as u32);
    if len == 0 || len > MAX_FRAME_BYTES {
        None
    } else {
        Some(len as usize)
    }
}

/// What to show for a line, given in lower case, that the helper has printed.
pub open spec fn notice_for(lower: Seq<char>) -> Option<Seq<char>> {
    if occurs_in("permission denied"@, lower) {
        Some(PERMISSION_NOTICE@)
    } else if occurs_in("no camera available"@, lower) {
        Some(NO_CAMERA_NOTICE@)
    } else if occurs_in("capturing camera"@, lower) {
        Some(CAPTURING_NOTICE@)
    } else {
        None
    }
}

/// What to show for a line, given in lower case, that the helper has printed.
pub fn notice(lower: &str) -> (r: Option<String>)
    ensures
        match r {
            Some(text) => notice_for(lower@) == Some(text@),
            None => notice_for(lower@) is None,
        },
{
    if contains(lower, "permission denied") {
        Some(PERMISSION_NOTICE.to_owned())
    } else if contains(lower, "no camera available") {
        Some(NO_CAMERA_NOTICE.to_owned())
    } else if contains(lower, "capturing camera") {
        Some(CAPTURING_NOTICE.to_owned())
    } else {
        None
    }
}

/// What to show for a line that the helper has printed.
pub fn status(line: &str) -> (r: Option<String>)
    ensures
        match r {
            Some(text) => notice_for(lowercase(line@)) == Some(text@),
            None => notice_for(lowercase(line@)) is None,
        },
        is_ascii_chars(line@) ==> opt_chars(r) == notice_for(
            line@.map_values(|c: char| ascii_lower(c)),
        ),
{
    let lower: String = to_lowercase(line);
    notice(lower.as_str())
}

/// A header gives the length of a picture, the lowest byte first.
pub proof fn law_a_header_gives_the_length(n: u32)
    ensures
        announced_len(
            seq![
                (n % 256) as u8,
                (n / 256 % 256) as u8,
                (n / 65536 % 256) as u8,
                (n / 16777216) as u8,
            ],
        ) == n,
{
    assert(n % 256 + 256 * (n / 256 % 256) + 65536 * (n / 65536 % 256) + 16777216 * (n / 16777216)
        == n) by (nonlinear_arith)
        requires
            0 <= n,
    ;
}

/// A line that tells of a refusal asks for the permission, whatever else it
/// says; then one that misses a camera says so, and one that tells of the start
/// does; any other line shows nothing.
pub proof fn law_the_helper_is_understood(before: Seq<char>, after: Seq<char>, lower: Seq<char>)
    ensures
        notice_for(before + "permission denied"@ + after) == Some(PERMISSION_NOTICE@),
        !occurs_in("permission denied"@, lower) ==> {
            &&& occurs_in("no camera available"@, lower) ==> notice_for(lower) == Some(
                NO_CAMERA_NOTICE@,
            )
            &&& !occurs_in("no camera available"@, lower) && occurs_in("capturing camera"@, lower)
                ==> notice_for(lower) == Some(CAPTURING_NOTICE@)
            &&& !occurs_in("no camera available"@, lower) && !occurs_in("capturing camera"@, lower)
                ==> notice_for(lower) is None
        },
{
    law_occurring_is_standing_within(before, "permission denied"@, after, lower);
}

} // verus!

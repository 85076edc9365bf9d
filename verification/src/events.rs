//! Event filtering and notification text.
//!
//! A chat message is acted on only when it comes from the puzzle
//! application and sits in the daily-puzzles channel; the channel name
//! comparison ignores ASCII case. The notification text embeds the
//! formatted solving duration.

use vstd::prelude::*;
use vstd::string::StringSliceAdditionalSpecFns;
use crate::duration::{format_duration, spec_format_duration};

verus! {

/// The application identity whose messages carry puzzle screenshots.
pub const WORDLE_APP_ID: u64 = 1211781489931452447;

/// The ASCII-lowercased image of one byte.
pub open spec fn spec_ascii_lower(b: u8) -> u8 {
    if 65 <= b <= 90 {
        (b + 32) as u8
    } else {
        b
    }
}

/// Byte-wise equality after ASCII lowercasing.
pub open spec fn spec_eq_ignore_ascii_case(a: Seq<u8>, b: Seq<u8>) -> bool {
    &&& a.len() == b.len()
    &&& forall|i: int|
        0 <= i < a.len() ==> spec_ascii_lower(#[trigger] a[i]) == spec_ascii_lower(b[i])
}

/// Compares two strings byte-wise, ignoring ASCII case.
fn eq_ignore_ascii_case(a: &str, b: &str) -> (r: bool)
    ensures
        r == spec_eq_ignore_ascii_case(a.spec_bytes(), b.spec_bytes()),
{
    let ab = a.as_bytes();
    let bb = b.as_bytes();
    if ab.len() != bb.len() {
        return false;
    }
    let n = ab.len();
    let mut k: usize = 0;
    while k < n
        invariant
            n == ab@.len() == bb@.len(),
            ab@ == a.spec_bytes(),
            bb@ == b.spec_bytes(),
            0 <= k <= n,
            forall|i: int|
                0 <= i < k ==> spec_ascii_lower(#[trigger] ab@[i]) == spec_ascii_lower(bb@[i]),
        decreases n - k,
    {
        let x = ab[k];
        let y = bb[k];
        let xl = if x >= 65 && x <= 90 {
            x + 32
        } else {
            x
        };
        let yl = if y >= 65 && y <= 90 {
            y + 32
        } else {
            y
        };
        if xl != yl {
            return false;
        }
        k = k + 1;
    }
    true
}

/// Why a message is not acted on.
#[derive(Clone, Copy, Debug, PartialEq, Eq, Structural)]
pub enum MessageRejection {
    /// The author is not the puzzle application.
    NotFromApp,
    /// The message sits in some other channel.
    WrongChannel,
}

/// Validates that a message comes from the puzzle application and sits
/// in the daily-puzzles channel (channel names compared ignoring ASCII
/// case).
pub fn validate_message(author_id: u64, channel_name: &str, expected_channel: &str) -> (r: Result<
    (),
    MessageRejection,
>)
    ensures
        r is Ok <==> (author_id == WORDLE_APP_ID && spec_eq_ignore_ascii_case(
            channel_name.spec_bytes(),
            expected_channel.spec_bytes(),
        )),
        author_id != WORDLE_APP_ID ==> r == Result::<(), MessageRejection>::Err(
            MessageRejection::NotFromApp,
        ),
        author_id == WORDLE_APP_ID && !spec_eq_ignore_ascii_case(
            channel_name.spec_bytes(),
            expected_channel.spec_bytes(),
        ) ==> r == Result::<(), MessageRejection>::Err(MessageRejection::WrongChannel),
{
    if author_id != WORDLE_APP_ID {
        return Err(MessageRejection::NotFromApp);
    }
    if !eq_ignore_ascii_case(channel_name, expected_channel) {
        return Err(MessageRejection::WrongChannel);
    }
    Ok(())
}

/// The text of a completion notification for the given user and total
/// solving time in milliseconds, with an update marker when the
/// notification replaces an earlier one.
pub open spec fn spec_completion_description(
    user_name: Seq<char>,
    total_millis: u64,
    is_update: bool,
) -> Seq<char> {
    let d = spec_format_duration(
        ((total_millis / 1000) / 3600) as nat,
        (((total_millis / 1000) % 3600) / 60) as nat,
        (((total_millis / 1000) % 3600) % 60) as nat,
        (total_millis % 1000) as nat,
    );
    let base = user_name + " finished their Wordle in **"@ + d + "**!"@;
    if is_update {
        base + " (Updated)"@
    } else {
        base
    }
}

/// Builds the completion notification text.
pub fn completion_description(user_name: &str, total_millis: u64, is_update: bool) -> (r: String)
    ensures
        r@ == spec_completion_description(user_name@, total_millis, is_update),
{
    let mut r = String::from_str(user_name);
    r.append(" finished their Wordle in **");
    r.append(format_duration(total_millis).as_str());
    r.append("**!");
    if is_update {
        r.append(" (Updated)");
    }
    r
}

} // verus!

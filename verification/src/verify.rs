//! Completion verification: whether a player's avatar sits inside a
//! solved marker's horizontal span in a screenshot.
//!
//! Markers are searched with a wide scale range and a near-exact
//! threshold; the avatar with the same range and a looser threshold, and
//! only an unambiguous single avatar match counts. Vertical position is
//! ignored by design: markers and avatars share a row by layout
//! convention.

use vstd::prelude::*;
use crate::DetectError;
use crate::detect::{detect_needle_in_haystack, spec_detect};
use crate::image::{Image, ImageView};
use crate::suppress::Match;

verus! {

/// How many solved markers one screenshot is searched for.
pub const MARKER_MAX_MATCHES: usize = 30;

/// Lower end of the verification scale range (thousandths).
pub const VERIFY_SCALE_MIN: u64 = 100;

/// Upper end of the verification scale range (thousandths).
pub const VERIFY_SCALE_MAX: u64 = 1000;

/// Number of scale steps used for verification.
pub const VERIFY_SCALE_STEPS: usize = 100;

/// Near-exact confidence bar for the solved marker (thousandths).
pub const MARKER_THRESHOLD: u32 = 1000;

/// Looser confidence bar for the avatar (thousandths).
pub const AVATAR_THRESHOLD: u32 = 840;

/// A player under verification: identity, display name, where the avatar
/// comes from, the locally cached avatar handle, and the completion flag.
pub struct Player {
    pub uid: usize,
    pub username: String,
    pub profile_url: String,
    pub downloaded_fp: Option<String>,
    pub completed: bool,
}

impl Player {
    /// A fresh player: avatar not yet resolved, not completed.
    pub fn new(uid: usize, username: String, profile_url: String) -> (r: Player)
        ensures
            r.uid == uid,
            r.username == username,
            r.profile_url == profile_url,
            r.downloaded_fp is None,
            r.completed == false,
    {
        Player { uid, username, profile_url, downloaded_fp: None, completed: false }
    }

    /// The cached avatar handle, if the avatar was already resolved.
    pub fn cached_avatar_path(&self) -> (r: Option<String>)
        ensures
            r == self.downloaded_fp,
    {
        match &self.downloaded_fp {
            Some(v) => Some(v.clone()),
            None => None,
        }
    }

    /// Records the freshly fetched avatar handle. Once resolved, the
    /// handle never changes: a second recording is ignored.
    pub fn record_avatar_path(&mut self, path: String)
        ensures
            final(self).downloaded_fp == if old(self).downloaded_fp is Some {
                old(self).downloaded_fp
            } else {
                Some(path)
            },
            final(self).uid == old(self).uid,
            final(self).username == old(self).username,
            final(self).profile_url == old(self).profile_url,
            final(self).completed == old(self).completed,
    {
        if self.downloaded_fp.is_none() {
            self.downloaded_fp = Some(path);
        }
    }
}

/// The horizontal center of a match's bounding box.
pub open spec fn spec_center_x(m: Match) -> int {
    (m.top_left_x + m.bottom_right_x) / 2
}

/// The completion decision: exactly one avatar match, whose horizontal
/// center lies strictly inside some marker's horizontal span.
pub open spec fn spec_decide_completion(markers: Seq<Match>, avatars: Seq<Match>) -> bool {
    &&& avatars.len() == 1
    &&& exists|i: int|
        0 <= i < markers.len() && (#[trigger] markers[i]).top_left_x < spec_center_x(avatars[0])
            && spec_center_x(avatars[0]) < markers[i].bottom_right_x
}

/// Decides completion from the marker and avatar detections.
pub fn decide_completion(markers: &Vec<Match>, avatars: &Vec<Match>) -> (r: bool)
    ensures
        r == spec_decide_completion(markers@, avatars@),
{
    if avatars.len() != 1 {
        return false;
    }
    let a = avatars[0];
    let center: u128 = ((a.top_left_x as u128) + (a.bottom_right_x as u128)) / 2;
    let n = markers.len();
    let mut k: usize = 0;
    while k < n
        invariant
            n == markers@.len(),
            0 <= k <= n,
            avatars@.len() == 1,
            a == avatars@[0],
            center == spec_center_x(avatars@[0]),
            forall|j: int|
                0 <= j < k ==> !((#[trigger] markers@[j]).top_left_x < spec_center_x(avatars@[0])
                    && spec_center_x(avatars@[0]) < markers@[j].bottom_right_x),
        decreases n - k,
    {
        let m = markers[k];
        if (m.top_left_x as u128) < center && center < (m.bottom_right_x as u128) {
            proof {
                assert(markers@[k as int].top_left_x < spec_center_x(avatars@[0])
                    && spec_center_x(avatars@[0]) < markers@[k as int].bottom_right_x);
            }
            return true;
        }
        k = k + 1;
    }
    false
}

/// The marker detections of one verification pass.
pub open spec fn spec_marker_detections(solved_marker: ImageView, screenshot: ImageView) -> Seq<
    Match,
> {
    spec_detect(
        solved_marker,
        screenshot,
        MARKER_MAX_MATCHES as nat,
        VERIFY_SCALE_MIN,
        VERIFY_SCALE_MAX,
        VERIFY_SCALE_STEPS as int,
        MARKER_THRESHOLD,
    )
}

/// The avatar detections of one verification pass (at most one asked).
pub open spec fn spec_avatar_detections(avatar: ImageView, screenshot: ImageView) -> Seq<Match> {
    spec_detect(
        avatar,
        screenshot,
        1nat,
        VERIFY_SCALE_MIN,
        VERIFY_SCALE_MAX,
        VERIFY_SCALE_STEPS as int,
        AVATAR_THRESHOLD,
    )
}

/// Verifies whether `player` has a completion in `screenshot`.
///
/// First every solved marker is searched for; with none found the answer
/// is `false` and the avatar is never examined. Otherwise the avatar is
/// searched for; exactly one avatar match whose horizontal center falls
/// inside some marker's span means completed, any other count means
/// `false`. Only success mutates the player: a positive decision sets
/// the completion flag, and every negative or failed outcome leaves the
/// player exactly as it was — verifying again after completion never
/// clears the flag. A zero-sized image fails with an error and no state
/// change.
pub fn verify_player_completion(
    player: &mut Player,
    solved_marker: &Image,
    avatar: &Image,
    screenshot: &Image,
) -> (r: Result<bool, DetectError>)
    requires
        solved_marker@.wf(),
        avatar@.wf(),
        screenshot@.wf(),
    ensures
        ({
            let markers = spec_marker_detections(solved_marker@, screenshot@);
            let avatars = spec_avatar_detections(avatar@, screenshot@);
            if solved_marker@.width == 0 || solved_marker@.height == 0 || screenshot@.width == 0
                || screenshot@.height == 0 {
                r == Result::<bool, DetectError>::Err(DetectError::EmptyImage) && *final(player)
                    == *old(player)
            } else if markers.len() == 0 {
                r == Result::<bool, DetectError>::Ok(false) && *final(player) == *old(player)
            } else if avatar@.width == 0 || avatar@.height == 0 {
                r == Result::<bool, DetectError>::Err(DetectError::EmptyImage) && *final(player)
                    == *old(player)
            } else if avatars.len() == 1 {
                let decision = spec_decide_completion(markers, avatars);
                &&& r == Result::<bool, DetectError>::Ok(decision)
                &&& decision ==> *final(player) == (Player {
                    completed: true,
                    ..*old(player)
                })
                &&& !decision ==> *final(player) == *old(player)
            } else {
                r == Result::<bool, DetectError>::Ok(false) && *final(player) == *old(player)
            }
        }),
{
    let markers = match detect_needle_in_haystack(
        solved_marker,
        screenshot,
        MARKER_MAX_MATCHES,
        VERIFY_SCALE_MIN,
        VERIFY_SCALE_MAX,
        VERIFY_SCALE_STEPS,
        MARKER_THRESHOLD,
    ) {
        Ok(v) => v,
        Err(e) => {
            return Err(e);
        },
    };
    if markers.len() == 0 {
        return Ok(false);
    }
    let avatars = match detect_needle_in_haystack(
        avatar,
        screenshot,
        1,
        VERIFY_SCALE_MIN,
        VERIFY_SCALE_MAX,
        VERIFY_SCALE_STEPS,
        AVATAR_THRESHOLD,
    ) {
        Ok(v) => v,
        Err(e) => {
            return Err(e);
        },
    };
    if avatars.len() == 1 {
        let completed = decide_completion(&markers, &avatars);
        if completed {
            player.completed = true;
        }
        Ok(completed)
    } else {
        Ok(false)
    }
}

} // verus!

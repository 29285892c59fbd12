//! Frames, which the server marks and the client acknowledges.

use vstd::prelude::*;

verus! {

#[derive(Debug, Clone, Copy, PartialEq, Eq, Structural)]
pub enum FrameAction {
    Begin,
    End,
}

/// The begin or the end of a frame.
#[derive(Debug, Clone, Copy, PartialEq, Eq, Structural)]
pub struct FrameMarkerPdu {
    pub frame_action: FrameAction,
    pub frame_id: Option<u32>,
}

/// The answer to the end of a frame, and where it goes.
#[derive(Debug, Clone, Copy, PartialEq, Eq, Structural)]
pub struct FrameAcknowledge {
    pub user_channel_id: u16,
    pub io_channel_id: u16,
    pub share_id: u32,
    pub frame_id: u32,
}

/// Answers frame markers.
#[derive(Debug, Clone, Copy, PartialEq, Eq, Structural)]
pub struct FrameMarkerProcessor {
    pub user_channel_id: u16,
    pub io_channel_id: u16,
    pub share_id: u32,
}

impl FrameMarkerProcessor {
    pub fn new(user_channel_id: u16, io_channel_id: u16, share_id: u32) -> (r: Self)
        ensures
            r == (FrameMarkerProcessor { user_channel_id, io_channel_id, share_id }),
    {
        FrameMarkerProcessor { user_channel_id, io_channel_id, share_id }
    }

    /// The answer to a marker. A frame without a number has number 0.
    pub open spec fn answer(self, marker: FrameMarkerPdu) -> Option<FrameAcknowledge> {
        match marker.frame_action {
            FrameAction::Begin => None,
            FrameAction::End => Some(
                FrameAcknowledge {
                    user_channel_id: self.user_channel_id,
                    io_channel_id: self.io_channel_id,
                    share_id: self.share_id,
                    frame_id: match marker.frame_id {
                        Some(id) => id,
                        None => 0,
                    },
                },
            ),
        }
    }

    /// Gives back the acknowledgement that has to be sent, if any.
    pub fn process(&self, marker: &FrameMarkerPdu) -> (r: Option<FrameAcknowledge>)
        ensures
            r == self.answer(*marker),
    {
        match marker.frame_action {
            FrameAction::Begin => None,
            FrameAction::End => Some(
                FrameAcknowledge {
                    user_channel_id: self.user_channel_id,
                    io_channel_id: self.io_channel_id,
                    share_id: self.share_id,
                    frame_id: match marker.frame_id {
                        Some(id) => id,
                        None => 0,
                    },
                },
            ),
        }
    }
}

} // verus!

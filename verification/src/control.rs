//! The operator control-plane messages: what the HTTP layer hands the
//! gateway and what it answers. The surrounding program serialises
//! them; the library only carries the values.
use vstd::prelude::*;

verus! {

/// A request to start watching a channel live.
#[derive(Debug, PartialEq)]
pub struct LivePlayRequest {
    pub gb_code: String,
    pub setup_type: String,
    pub channel_id: String,
}

/// The answer to a live-play request.
#[derive(Debug, PartialEq)]
pub struct LivePlayResponse {
    pub locate: String,
    pub code: u32,
    pub msg: String,
    pub gb_code: String,
    pub stream_id: u32,
}

/// A request to stop a live stream.
#[derive(Debug, PartialEq)]
pub struct LiveStopRequest {
    pub gb_code: String,
    pub stream_id: u32,
}

/// The answer to a live-stop request.
#[derive(Debug, PartialEq)]
pub struct LiveStopResponse {
    pub locate: String,
    pub code: u32,
    pub msg: String,
    pub gb_code: String,
    pub stream_id: u32,
}

/// A request to stop a playback stream.
#[derive(Debug, PartialEq)]
pub struct ReplayStopRequest {
    pub gb_code: String,
    pub stream_id: u32,
}

/// The answer to a replay-stop request.
#[derive(Debug, PartialEq)]
pub struct ReplayStopResponse {
    pub locate: String,
    pub code: u32,
    pub msg: String,
    pub gb_code: String,
    pub stream_id: u32,
}

} // verus!

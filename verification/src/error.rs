//! The library's error taxonomy: controller misuse, lookup failures, and
//! wrapped storage or codec failures, each with its user-facing message.

use vstd::prelude::*;
use crate::decimal::{append_decimal_i64, spec_idec};

verus! {

/// Everything that can go wrong in the recording core.
#[derive(Debug)]
pub enum AppError {
    /// A storage failure, carrying the backend's own words.
    Database(String),
    AlreadyRecording,
    NotRecording,
    NoActiveSession,
    /// A lookup for a session id that the store does not hold.
    SessionNotFound(i64),
    /// The capture hook could not be installed.
    RecordingError(String),
    /// An action could not be synthesized during replay.
    PlaybackError(String),
    /// An action could not be rendered into or read from storage text.
    Serialization(String),
}

/// The message text of an error.
pub open spec fn spec_message(e: AppError) -> Seq<char> {
    match e {
        AppError::Database(m) => "Database error: "@ + m@,
        AppError::AlreadyRecording => "Already recording"@,
        AppError::NotRecording => "Not recording"@,
        AppError::NoActiveSession => "No active session"@,
        AppError::SessionNotFound(id) => "Session not found: "@ + spec_idec(id as int),
        AppError::RecordingError(m) => "Recording error: "@ + m@,
        AppError::PlaybackError(m) => "Playback error: "@ + m@,
        AppError::Serialization(m) => "Serialization error: "@ + m@,
    }
}

impl AppError {
    /// Renders the error as the message the caller shows.
    pub fn message(&self) -> (r: String)
        ensures
            r@ == spec_message(*self),
    {
        let mut out = String::new();
        match self {
            AppError::Database(m) => {
                out.append("Database error: ");
                out.append(m.as_str());
            },
            AppError::AlreadyRecording => {
                out.append("Already recording");
            },
            AppError::NotRecording => {
                out.append("Not recording");
            },
            AppError::NoActiveSession => {
                out.append("No active session");
            },
            AppError::SessionNotFound(id) => {
                out.append("Session not found: ");
                append_decimal_i64(&mut out, *id);
            },
            AppError::RecordingError(m) => {
                out.append("Recording error: ");
                out.append(m.as_str());
            },
            AppError::PlaybackError(m) => {
                out.append("Playback error: ");
                out.append(m.as_str());
            },
            AppError::Serialization(m) => {
                out.append("Serialization error: ");
                out.append(m.as_str());
            },
        }
        out
    }
}

} // verus!

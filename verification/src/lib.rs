//! Capture, aggregation and dispatch of live multi-speaker audio.
//!
//! Decoded PCM frames arrive tagged by an ephemeral source id. Each speaker's
//! audio accumulates in a shared registry for the duration of their speaking
//! turn; once a tick reports the speaker silent, the accumulated buffer is
//! detached, packaged as a WAV container and described as an upload request
//! that a host program sends to a remote endpoint.

pub mod registry;
pub mod tick;
pub mod upload;
pub mod wav;

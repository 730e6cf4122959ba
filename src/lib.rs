//! A shared karaoke queue: sessions that callers start, join and leave, a
//! queue of submitted video links that the session owner advances, and the
//! chat-reply and device-discovery text handling around them.

pub mod cast;
pub mod router;
pub mod session;
pub mod text;
pub mod youtube;

//! A console-to-browser bridge: programs print styled text and solicit typed
//! input from a web page while their own logic blocks as an ordinary read
//! would. The library holds the session state, the style renderer, the input
//! validation rules, the wire-protocol codec and gateway, and the shutdown
//! policy; the thin unverified shell around it does the actual HTTP serving,
//! thread handoff and timing.

pub mod enumerate;
pub mod gateway;
pub mod json;
pub mod latex;
pub mod print;
pub mod range;
pub mod render;
pub mod session;
pub mod strutil;
pub mod supervisor;
pub mod validate;

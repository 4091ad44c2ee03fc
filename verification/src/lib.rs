//! The verified core of a desktop meeting assistant.
//!
//! A meeting is recorded ([`pipeline`], [`chunker`], [`mixer`], [`syscap`],
//! [`wav`]) and transcribed while it lasts ([`language`], [`live`],
//! [`transcribe`]) and once more when it is over ([`final_pass`], [`title`]).
//! A language model is asked about it ([`request`], [`analyze`],
//! [`suggestions`]), and an agent acts in it ([`agent`], [`agent_run`]) as far
//! as it is allowed to ([`approval`]). Meetings are kept and exported
//! ([`meeting`], [`session`], [`export`]), as are the settings ([`settings`]).

pub mod agent;
pub mod agent_run;
pub mod analyze;
pub mod approval;
pub mod camera;
pub mod chunker;
pub mod export;
pub mod final_pass;
pub mod json;
pub mod language;
pub mod live;
pub mod meeting;
pub mod mixer;
pub mod pipeline;
pub mod request;
pub mod session;
pub mod settings;
pub mod suggestions;
pub mod syscap;
pub mod text;
pub mod title;
pub mod transcribe;
pub mod wav;

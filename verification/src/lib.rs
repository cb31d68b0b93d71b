//! The logic of a proxy between the Anthropic messages API and an
//! OpenAI-compatible chat endpoint on Vertex AI.
//!
//! A request is translated by [`request`] with the help of [`messages`],
//! [`content`] and [`tools`]. Its reply comes in one piece, see [`response`], or as
//! a stream: [`sse`] finds the data of the stream's lines, [`stream`] turns each
//! [`chunk`] into the [`event`]s that the client gets. [`auth`] keeps the access
//! token, for which a service account asks with an [`assertion`], [`error`] says
//! what a request that fails is answered, [`log`] and [`display`] show what was
//! served, and [`cli`], [`config`] and [`gcloud`] decide how the program runs.
//!
//! [`message_laws`], [`stream_laws`] and [`json_laws`] state what holds of every
//! request, of every streamed reply and of all JSON in them, and [`view_laws`] what
//! the values stand for.

pub mod assertion;
pub mod auth;
pub mod chunk;
pub mod cli;
pub mod config;
pub mod content;
pub mod display;
pub mod error;
pub mod event;
pub mod gcloud;
pub mod ids;
pub mod json;
pub mod json_laws;
pub mod json_text;
pub mod log;
pub mod message_laws;
pub mod messages;
pub mod request;
pub mod response;
pub mod sse;
pub mod stop_reason;
pub mod stream;
pub mod stream_laws;
pub mod text;
pub mod tokens;
pub mod tools;
pub mod view_laws;

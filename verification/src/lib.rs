//! The logic of an extension that embeds a JavaScript engine in Ruby.
//!
//! Values cross between the two engines as plain data (`value`): `marshal` walks
//! an object graph, `construct` and `to_ruby` build one, and `walk`,
//! `round_trip`, `sharing` and `there_and_back` say what both come to; `times`
//! turns dates into times and back.
//! `registry` keeps an isolate's realms, modules and scripts, `service` takes a
//! request from its beginning to its reply, and `service_laws`, `reply_laws` and
//! `whole_request` say what holds of every request. The engines themselves are
//! asked step by step: each machine gives the next thing to do and is told what
//! came of it.
pub mod bigint;
pub mod channel;
pub mod classify;
pub mod construct;
pub mod doubles;
pub mod errors;
pub mod failures;
pub mod graph;
pub mod graph_laws;
pub mod graph_load;
pub mod imports;
pub mod json;
pub mod lifecycle;
pub mod loader;
pub mod marshal;
pub mod namespace;
pub mod paths;
pub mod platform;
pub mod procs;
pub mod registry;
pub mod reply_laws;
pub mod request;
pub mod round_trip;
pub mod service;
pub mod service_laws;
pub mod sharing;
pub mod snapshot;
pub mod stack_limit;
pub mod text;
pub mod there_and_back;
pub mod times;
pub mod to_ruby;
pub mod value;
pub mod walk;
pub mod watchdog;
pub mod whole_request;

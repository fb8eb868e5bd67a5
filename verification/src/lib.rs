use vstd::prelude::*;

pub mod text;
pub mod json;
pub mod ids;
pub mod strkey;
pub mod validation;
pub mod validation_middleware;
pub mod audit;
pub mod cache;
pub mod load_testing;
pub mod tracing_middleware;
pub mod events;
pub mod websocket;

verus! {
}

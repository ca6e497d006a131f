//! A small HTTP web framework: request parsing, routing tables, handler
//! dispatch and response serialisation, each stated and proved with Verus.
#![allow(non_snake_case)]

pub mod text;
pub mod bindings;
pub mod ordered_map;
pub mod util;
pub mod App;
pub mod HandleConnection;
pub mod Request;
pub mod RouteManager;
pub mod Response;
pub mod status;

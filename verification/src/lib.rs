//! Alert rules over market listings: exact evaluation of filter, map, reduce
//! and compare triggers, and the decisions of the pipeline that feeds them.

pub mod alerts;
pub mod describe;
pub mod discord;
pub mod dispatch;
pub mod errors;
pub mod fraction;
pub mod scalar;
pub mod schema;
pub mod settings;
pub mod stream;
pub mod subscription;
pub mod text;
pub mod trigger;
pub mod universalis;
pub mod xivapi;

//! A verified core for a small concurrent tweet server: a bounded,
//! insertion-ordered window of recent events, a model of a fixed-size worker
//! pool with graceful shutdown, the request/response logic of the one
//! supported HTTP route, and the pool-size computation.
pub mod http;
pub mod pool;
pub mod sizing;
pub mod window;

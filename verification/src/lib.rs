//! Knowledge-graph workspace core: text normalisation, document markup,
//! node identifiers and the request decisions of the workspace server.

pub mod text;
pub mod order;
pub mod numbers;
pub mod urls;
pub mod config;
pub mod models;
pub mod model;
pub mod routes;
pub mod agent;
pub mod db;
pub mod storage;
pub mod extract;
pub mod documents;

//! A single-node key-value store: typed commands over hash tables, a
//! length-prefixed and optionally compressed frame codec, a storage contract
//! with an in-memory backend, and the service that dispatches commands.

pub mod error;
pub mod frame;
pub mod memory;
pub mod pb;
pub mod service;
pub mod storage;

pub use error::KvError;
pub use memory::MemTable;
pub use pb::{
    CommandRequest, CommandResponse, Hdel, Hexist, Hget, Hgetall, Hmdel, Hmexist, Hmget, Hmset,
    Hset, Kvpair, RequestData, Value, ValueData, ValueModel,
};
pub use service::{assert_res_error, assert_res_ok, dispatch, CommandService};
pub use storage::{flip, Storage, StorageIter};

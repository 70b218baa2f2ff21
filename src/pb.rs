use vstd::prelude::*;

use crate::error::KvError;

verus! {

/// The payload that a `Value` carries.
#[derive(Debug, PartialEq)]
pub enum ValueData {
    String(String),
    Binary(Vec<u8>),
    Integer(i64),
}

/// A stored value: empty (the default, "no value") or one payload.
#[derive(Debug, PartialEq)]
pub struct Value {
    pub value: Option<ValueData>,
}

/// What a `Value` holds, as mathematical values.
pub enum ValueModel {
    Empty,
    Str(Seq<char>),
    Bytes(Seq<u8>),
    Int(i64),
}

impl View for Value {
    type V = ValueModel;

    open spec fn view(&self) -> ValueModel {
        match self.value {
            None => ValueModel::Empty,
            Some(ValueData::String(s)) => ValueModel::Str(s@),
            Some(ValueData::Binary(b)) => ValueModel::Bytes(b@),
            Some(ValueData::Integer(i)) => ValueModel::Int(i),
        }
    }
}

impl Clone for Value {
    fn clone(&self) -> (r: Self)
        ensures
            r@ == self@,
    {
        match &self.value {
            None => Value { value: None },
            Some(ValueData::String(s)) => Value { value: Some(ValueData::String(s.clone())) },
            Some(ValueData::Binary(b)) => {
                let c = b.clone();
                assert(c@ =~= b@);
                Value { value: Some(ValueData::Binary(c)) }
            },
            Some(ValueData::Integer(i)) => Value { value: Some(ValueData::Integer(*i)) },
        }
    }
}

impl Default for Value {
    fn default() -> (r: Self)
        ensures
            r@ == ValueModel::Empty,
    {
        Value { value: None }
    }
}

impl From<String> for Value {
    fn from(s: String) -> (r: Self)
        ensures
            r@ == ValueModel::Str(s@),
    {
        Value { value: Some(ValueData::String(s)) }
    }
}

impl vstd::std_specs::convert::FromSpecImpl<String> for Value {
    open spec fn obeys_from_spec() -> bool {
        true
    }

    open spec fn from_spec(s: String) -> Value {
        Value { value: Some(ValueData::String(s)) }
    }
}

impl From<&str> for Value {
    fn from(s: &str) -> (r: Self)
        ensures
            r@ == ValueModel::Str(s@),
    {
        Value { value: Some(ValueData::String(s.to_owned())) }
    }
}

impl vstd::std_specs::convert::FromSpecImpl<&str> for Value {
    open spec fn obeys_from_spec() -> bool {
        false
    }

    open spec fn from_spec(s: &str) -> Value {
        Value { value: None }
    }
}

impl From<i64> for Value {
    fn from(i: i64) -> (r: Self)
        ensures
            r@ == ValueModel::Int(i),
    {
        Value { value: Some(ValueData::Integer(i)) }
    }
}

impl vstd::std_specs::convert::FromSpecImpl<i64> for Value {
    open spec fn obeys_from_spec() -> bool {
        true
    }

    open spec fn from_spec(i: i64) -> Value {
        Value { value: Some(ValueData::Integer(i)) }
    }
}

impl From<Vec<u8>> for Value {
    fn from(b: Vec<u8>) -> (r: Self)
        ensures
            r@ == ValueModel::Bytes(b@),
    {
        Value { value: Some(ValueData::Binary(b)) }
    }
}

impl vstd::std_specs::convert::FromSpecImpl<Vec<u8>> for Value {
    open spec fn obeys_from_spec() -> bool {
        true
    }

    open spec fn from_spec(b: Vec<u8>) -> Value {
        Value { value: Some(ValueData::Binary(b)) }
    }
}

/// A key with its value, as returned by table scans.
#[derive(Debug, PartialEq)]
pub struct Kvpair {
    pub key: String,
    pub value: Option<Value>,
}

/// The value of a pair, where a missing one reads as the empty value.
pub open spec fn pair_value(v: Option<Value>) -> ValueModel {
    match v {
        Some(v) => v@,
        None => ValueModel::Empty,
    }
}

impl View for Kvpair {
    type V = (Seq<char>, ValueModel);

    open spec fn view(&self) -> (Seq<char>, ValueModel) {
        (self.key@, pair_value(self.value))
    }
}

impl Clone for Kvpair {
    fn clone(&self) -> (r: Self)
        ensures
            r@ == self@,
    {
        let value = match &self.value {
            None => None,
            Some(v) => Some(v.clone()),
        };
        Kvpair { key: self.key.clone(), value }
    }
}

impl Kvpair {
    /// A pair of `key` and `value`.
    pub fn new(key: &str, value: Value) -> (r: Self)
        ensures
            r@ == (key@, value@),
            r.key@ == key@,
            r.value == Some(value),
    {
        Kvpair { key: key.to_owned(), value: Some(value) }
    }

    /// A pair that takes ownership of its key.
    pub fn from_parts(key: String, value: Value) -> (r: Self)
        ensures
            r@ == (key@, value@),
            r.value == Some(value),
    {
        Kvpair { key, value: Some(value) }
    }
}

#[derive(Debug, PartialEq)]
pub struct Hget {
    pub table: String,
    pub key: String,
}

#[derive(Debug, PartialEq)]
pub struct Hgetall {
    pub table: String,
}

#[derive(Debug, PartialEq)]
pub struct Hmget {
    pub table: String,
    pub keys: Vec<String>,
}

#[derive(Debug, PartialEq)]
pub struct Hset {
    pub table: String,
    pub pair: Option<Kvpair>,
}

#[derive(Debug, PartialEq)]
pub struct Hmset {
    pub table: String,
    pub pairs: Vec<Kvpair>,
}

#[derive(Debug, PartialEq)]
pub struct Hdel {
    pub table: String,
    pub key: String,
}

#[derive(Debug, PartialEq)]
pub struct Hmdel {
    pub table: String,
    pub keys: Vec<String>,
}

#[derive(Debug, PartialEq)]
pub struct Hexist {
    pub table: String,
    pub key: String,
}

#[derive(Debug, PartialEq)]
pub struct Hmexist {
    pub table: String,
    pub keys: Vec<String>,
}

/// The operation that a request asks for.
#[derive(Debug, PartialEq)]
pub enum RequestData {
    Hget(Hget),
    Hgetall(Hgetall),
    Hmget(Hmget),
    Hset(Hset),
    Hmset(Hmset),
    Hdel(Hdel),
    Hmdel(Hmdel),
    Hexist(Hexist),
    Hmexist(Hmexist),
}

/// A command sent by a client; a request without data is invalid.
#[derive(Debug, PartialEq)]
pub struct CommandRequest {
    pub request_data: Option<RequestData>,
}

impl CommandRequest {
    /// Set `key` to `value` in `table`.
    pub fn new_hset(table: &str, key: &str, value: Value) -> (r: Self)
        ensures
            r.request_data matches Some(RequestData::Hset(h)) && h.table@ == table@ && (h.pair
                matches Some(p) && p.key@ == key@ && p.value == Some(value)),
    {
        CommandRequest {
            request_data: Some(
                RequestData::Hset(Hset { table: table.to_owned(), pair: Some(Kvpair::new(key, value)) }),
            ),
        }
    }

    /// Set each of `pairs` in `table`.
    pub fn new_hmset(table: &str, pairs: Vec<Kvpair>) -> (r: Self)
        ensures
            r.request_data matches Some(RequestData::Hmset(h)) && h.table@ == table@ && h.pairs
                == pairs,
    {
        CommandRequest {
            request_data: Some(RequestData::Hmset(Hmset { table: table.to_owned(), pairs })),
        }
    }

    /// Read `key` of `table`.
    pub fn new_hget(table: &str, key: &str) -> (r: Self)
        ensures
            r.request_data matches Some(RequestData::Hget(h)) && h.table@ == table@ && h.key@
                == key@,
    {
        CommandRequest {
            request_data: Some(
                RequestData::Hget(Hget { table: table.to_owned(), key: key.to_owned() }),
            ),
        }
    }

    /// Read every pair of `table`.
    pub fn new_hget_all(table: &str) -> (r: Self)
        ensures
            r.request_data matches Some(RequestData::Hgetall(h)) && h.table@ == table@,
    {
        CommandRequest {
            request_data: Some(RequestData::Hgetall(Hgetall { table: table.to_owned() })),
        }
    }

    /// Read each of `keys` of `table`.
    pub fn new_hmget(table: &str, keys: Vec<String>) -> (r: Self)
        ensures
            r.request_data matches Some(RequestData::Hmget(h)) && h.table@ == table@ && h.keys
                == keys,
    {
        CommandRequest {
            request_data: Some(RequestData::Hmget(Hmget { table: table.to_owned(), keys })),
        }
    }

    /// Remove `key` from `table`.
    pub fn new_hdel(table: &str, key: &str) -> (r: Self)
        ensures
            r.request_data matches Some(RequestData::Hdel(h)) && h.table@ == table@ && h.key@
                == key@,
    {
        CommandRequest {
            request_data: Some(
                RequestData::Hdel(Hdel { table: table.to_owned(), key: key.to_owned() }),
            ),
        }
    }

    /// Remove each of `keys` from `table`.
    pub fn new_hmdel(table: &str, keys: Vec<String>) -> (r: Self)
        ensures
            r.request_data matches Some(RequestData::Hmdel(h)) && h.table@ == table@ && h.keys
                == keys,
    {
        CommandRequest {
            request_data: Some(RequestData::Hmdel(Hmdel { table: table.to_owned(), keys })),
        }
    }

    /// Ask whether `table` holds `key`.
    pub fn new_hexist(table: &str, key: &str) -> (r: Self)
        ensures
            r.request_data matches Some(RequestData::Hexist(h)) && h.table@ == table@ && h.key@
                == key@,
    {
        CommandRequest {
            request_data: Some(
                RequestData::Hexist(Hexist { table: table.to_owned(), key: key.to_owned() }),
            ),
        }
    }

    /// Ask whether `table` holds each of `keys`.
    pub fn new_hmexist(table: &str, keys: Vec<String>) -> (r: Self)
        ensures
            r.request_data matches Some(RequestData::Hmexist(h)) && h.table@ == table@ && h.keys
                == keys,
    {
        CommandRequest {
            request_data: Some(RequestData::Hmexist(Hmexist { table: table.to_owned(), keys })),
        }
    }
}

/// The outcome of a command: an HTTP-style status, a message on failure, and
/// the values or pairs that the command returns.
#[derive(Debug, PartialEq)]
pub struct CommandResponse {
    pub status: u32,
    pub message: String,
    pub values: Vec<Value>,
    pub pairs: Vec<Kvpair>,
}

/// Status of a command that succeeded.
pub const STATUS_OK: u32 = 200;

/// Status of a command whose data is missing.
pub const STATUS_BAD_REQUEST: u32 = 400;

/// Status of a read of an absent key.
pub const STATUS_NOT_FOUND: u32 = 404;

/// Status of every other failure.
pub const STATUS_INTERNAL: u32 = 500;

impl CommandResponse {
    /// A successful response that carries one value.
    pub fn from_value(value: Value) -> (r: Self)
        ensures
            r.status == STATUS_OK,
            r.message@.len() == 0,
            r.values@ == seq![value],
            r.pairs@.len() == 0,
    {
        let values = vec![value];
        CommandResponse { status: STATUS_OK, message: String::new(), values, pairs: Vec::new() }
    }

    /// A successful response that carries several values.
    pub fn from_values(values: Vec<Value>) -> (r: Self)
        ensures
            r.status == STATUS_OK,
            r.message@.len() == 0,
            r.values == values,
            r.pairs@.len() == 0,
    {
        CommandResponse { status: STATUS_OK, message: String::new(), values, pairs: Vec::new() }
    }

    /// A successful response that carries pairs.
    pub fn from_pairs(pairs: Vec<Kvpair>) -> (r: Self)
        ensures
            r.status == STATUS_OK,
            r.message@.len() == 0,
            r.values@.len() == 0,
            r.pairs == pairs,
    {
        CommandResponse { status: STATUS_OK, message: String::new(), values: Vec::new(), pairs }
    }

    /// A failed response: the status that the error maps to, and its message.
    pub fn from_error(err: KvError) -> (r: Self)
        ensures
            r.status == err.status(),
            r.message@ == err.message(),
            r.values@.len() == 0,
            r.pairs@.len() == 0,
    {
        let status = err.status_code();
        let message = err.to_message();
        CommandResponse { status, message, values: Vec::new(), pairs: Vec::new() }
    }
}

impl From<Value> for CommandResponse {
    fn from(value: Value) -> (r: Self)
        ensures
            r.status == STATUS_OK,
            r.message@.len() == 0,
            r.values@ == seq![value],
            r.pairs@.len() == 0,
    {
        CommandResponse::from_value(value)
    }
}

impl vstd::std_specs::convert::FromSpecImpl<Value> for CommandResponse {
    open spec fn obeys_from_spec() -> bool {
        false
    }

    open spec fn from_spec(v: Value) -> CommandResponse {
        arbitrary()
    }
}

impl From<Vec<Value>> for CommandResponse {
    fn from(values: Vec<Value>) -> (r: Self)
        ensures
            r.status == STATUS_OK,
            r.message@.len() == 0,
            r.values == values,
            r.pairs@.len() == 0,
    {
        CommandResponse::from_values(values)
    }
}

impl vstd::std_specs::convert::FromSpecImpl<Vec<Value>> for CommandResponse {
    open spec fn obeys_from_spec() -> bool {
        false
    }

    open spec fn from_spec(v: Vec<Value>) -> CommandResponse {
        arbitrary()
    }
}

impl From<Vec<Kvpair>> for CommandResponse {
    fn from(pairs: Vec<Kvpair>) -> (r: Self)
        ensures
            r.status == STATUS_OK,
            r.message@.len() == 0,
            r.values@.len() == 0,
            r.pairs == pairs,
    {
        CommandResponse::from_pairs(pairs)
    }
}

impl vstd::std_specs::convert::FromSpecImpl<Vec<Kvpair>> for CommandResponse {
    open spec fn obeys_from_spec() -> bool {
        false
    }

    open spec fn from_spec(v: Vec<Kvpair>) -> CommandResponse {
        arbitrary()
    }
}

impl From<KvError> for CommandResponse {
    fn from(err: KvError) -> (r: Self)
        ensures
            r.status == err.status(),
            r.message@ == err.message(),
            r.values@.len() == 0,
            r.pairs@.len() == 0,
    {
        CommandResponse::from_error(err)
    }
}

impl vstd::std_specs::convert::FromSpecImpl<KvError> for CommandResponse {
    open spec fn obeys_from_spec() -> bool {
        false
    }

    open spec fn from_spec(e: KvError) -> CommandResponse {
        arbitrary()
    }
}

} // verus!

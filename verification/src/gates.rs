//! Circuit size, as `bb gates` reports it.
//!
//! The report is a JSON document. Reading JSON is left to `serde_json`; what is looked up in the
//! document, and what its absence means, is decided here.
use vstd::prelude::*;

verus! {

/// A JSON document, as a mathematical value.
pub enum Json {
    Null,
    Bool(bool),
    /// A number, with its value where that is an integer that fits in 64 bits without a sign.
    Number(Option<u64>),
    Text(Seq<char>),
    Array(Seq<Json>),
    Object(Map<Seq<char>, Json>),
}

/// A value that `serde_json` has read.
#[verifier::external_type_specification]
#[verifier::external_body]
pub struct ExValue(serde_json::Value);

/// The JSON document that a `serde_json::Value` holds.
pub uninterp spec fn json_of(v: serde_json::Value) -> Json;

/// What `serde_json::from_slice` reads in a text: a document, or the message of its error.
pub uninterp spec fn json_document(bytes: Seq<u8>) -> Result<Json, Seq<char>>;

/// The member of an object with the given key; null where there is none.
pub open spec fn json_member(j: Json, key: Seq<char>) -> Json {
    match j {
        Json::Object(m) => if m.dom().contains(key) {
            m[key]
        } else {
            Json::Null
        },
        _ => Json::Null,
    }
}

/// The element of an array at the given place; null where there is none.
pub open spec fn json_element(j: Json, i: int) -> Json {
    match j {
        Json::Array(a) => if 0 <= i < a.len() {
            a[i]
        } else {
            Json::Null
        },
        _ => Json::Null,
    }
}

/// The value of a number that is an integer and fits.
pub open spec fn json_u64(j: Json) -> Option<u64> {
    match j {
        Json::Number(n) => n,
        _ => None,
    }
}

/// `serde_json::from_slice`: reads a JSON document into a `Value`. What it reads, or the text of
/// its error, depends on the bytes alone.
#[verifier::external_body]
fn parse_json(bytes: &[u8]) -> (r: Result<serde_json::Value, String>)
    ensures
        match r {
            Ok(v) => json_document(bytes@) == Ok::<Json, Seq<char>>(json_of(v)),
            Err(e) => json_document(bytes@) == Err::<Json, Seq<char>>(e@),
        },
{
    serde_json::from_slice::<serde_json::Value>(bytes).map_err(|e| e.to_string())
}

/// Indexing a `serde_json::Value` by a string: the member of an object, or null where the value
/// is no object or has no such member.
#[verifier::external_body]
fn member<'a>(v: &'a serde_json::Value, key: &str) -> (r: &'a serde_json::Value)
    ensures
        json_of(*r) == json_member(json_of(*v), key@),
{
    &v[key]
}

/// Indexing a `serde_json::Value` by a number: the element of an array, or null where the value
/// is no array or is too short.
#[verifier::external_body]
fn element(v: &serde_json::Value, i: usize) -> (r: &serde_json::Value)
    ensures
        json_of(*r) == json_element(json_of(*v), i as int),
{
    &v[i]
}

/// `serde_json::Value::as_u64`: the value of a number that is a non-negative integer of 64 bits,
/// and of nothing else.
#[verifier::external_body]
fn as_u64(v: &serde_json::Value) -> (r: Option<u64>)
    ensures
        r == json_u64(json_of(*v)),
{
    v.as_u64()
}

/// Size of a circuit.
#[derive(Clone, Copy, Debug, PartialEq, Eq, Structural)]
pub struct Gates {
    /// Backend gate count.
    pub constraints: u64,
    /// ACIR-level opcode count.
    pub acir_opcodes: u64,
}

/// Why a report of circuit size cannot be used.
#[derive(Debug)]
pub enum GatesError {
    /// The report is not JSON.
    NotJson { cause: String },
    NoCircuitSize,
    NoAcirOpcodes,
}

/// What a report says of its first function under the given key.
pub open spec fn first_function(report: Json, key: Seq<char>) -> Option<u64> {
    json_u64(json_member(json_element(json_member(report, "functions"@), 0), key))
}

/// Whether `r` is what a report of circuit size says.
pub open spec fn reports_gates(report: Json, r: Result<Gates, GatesError>) -> bool {
    let size = first_function(report, "circuit_size"@);
    let opcodes = first_function(report, "acir_opcodes"@);
    match r {
        Ok(g) => size == Some(g.constraints) && opcodes == Some(g.acir_opcodes),
        Err(GatesError::NoCircuitSize) => size is None,
        Err(GatesError::NoAcirOpcodes) => size is Some && opcodes is None,
        Err(GatesError::NotJson { .. }) => false,
    }
}

/// The circuit size that the output of `bb gates` tells, if it tells one.
pub open spec fn gates_in(output: Seq<u8>) -> Option<Gates> {
    match json_document(output) {
        Ok(report) => match (
            first_function(report, "circuit_size"@),
            first_function(report, "acir_opcodes"@),
        ) {
            (Some(constraints), Some(acir_opcodes)) => Some(Gates { constraints, acir_opcodes }),
            _ => None,
        },
        Err(_) => None,
    }
}

/// The circuit size in a report that has been read: that of its first function.
pub fn gates_of(report: &serde_json::Value) -> (r: Result<Gates, GatesError>)
    ensures
        reports_gates(json_of(*report), r),
{
    let function = element(member(report, "functions"), 0);
    match as_u64(member(function, "circuit_size")) {
        None => Err(GatesError::NoCircuitSize),
        Some(constraints) => match as_u64(member(function, "acir_opcodes")) {
            None => Err(GatesError::NoAcirOpcodes),
            Some(acir_opcodes) => Ok(Gates { constraints, acir_opcodes }),
        },
    }
}

/// The circuit size in the output of `bb gates`.
pub fn parse_gates(output: &[u8]) -> (r: Result<Gates, GatesError>)
    ensures
        match json_document(output@) {
            Ok(report) => reports_gates(report, r),
            Err(e) => r matches Err(GatesError::NotJson { cause }) && cause@ == e,
        },
{
    match parse_json(output) {
        Ok(report) => gates_of(&report),
        Err(cause) => Err(GatesError::NotJson { cause }),
    }
}

} // verus!

//! Type-directed extraction of concrete payloads from lookup results.
//!
//! Each conversion accepts a fallible lookup result and returns a reference
//! to the payload when — and only when — the lookup succeeded and the value
//! holds the requested variant. Conversions are non-converting type filters:
//! no numeric coercion, no narrowing, no new error. A failed lookup converts
//! to "no value" whatever its error was.

use vstd::prelude::*;

use crate::domain::{Array, DateTime, Node, Table};
use crate::error::ConfigerError;

verus! {

/// Converts fallible lookup results into typed payload references.
pub struct NodeConverter;

impl NodeConverter {
    /// The temporal payload of a successful lookup, if that is what it holds.
    pub fn try_datetime(rvt: Result<&Node, ConfigerError>) -> (r: Option<&DateTime>)
        ensures
            match rvt {
                Ok(node) => match node {
                    Node::DateTime(d) => r == Some(d),
                    _ => r is None,
                },
                Err(_) => r is None,
            },
    {
        match rvt {
            Ok(Node::DateTime(d)) => Some(d),
            _ => None,
        }
    }

    /// The text payload of a successful lookup, if that is what it holds.
    pub fn try_string(rvt: Result<&Node, ConfigerError>) -> (r: Option<&String>)
        ensures
            match rvt {
                Ok(node) => match node {
                    Node::Text(s) => r == Some(s),
                    _ => r is None,
                },
                Err(_) => r is None,
            },
    {
        match rvt {
            Ok(Node::Text(s)) => Some(s),
            _ => None,
        }
    }

    /// The text payload as a string slice, if that is what it holds.
    pub fn try_str(rvt: Result<&Node, ConfigerError>) -> (r: Option<&str>)
        ensures
            match rvt {
                Ok(node) => match node {
                    Node::Text(s) => r matches Some(v) && v@ == s@,
                    _ => r is None,
                },
                Err(_) => r is None,
            },
    {
        match rvt {
            Ok(Node::Text(s)) => Some(s.as_str()),
            _ => None,
        }
    }

    /// The nested table of a successful lookup, if that is what it holds.
    pub fn try_nested(rvt: Result<&Node, ConfigerError>) -> (r: Option<&Table>)
        ensures
            match rvt {
                Ok(node) => match node {
                    Node::Nested(t) => r == Some(t),
                    _ => r is None,
                },
                Err(_) => r is None,
            },
    {
        match rvt {
            Ok(Node::Nested(t)) => Some(t),
            _ => None,
        }
    }

    /// The sequence payload of a successful lookup, if that is what it holds.
    pub fn try_array(rvt: Result<&Node, ConfigerError>) -> (r: Option<&Array>)
        ensures
            match rvt {
                Ok(node) => match node {
                    Node::Array(a) => r == Some(a),
                    _ => r is None,
                },
                Err(_) => r is None,
            },
    {
        match rvt {
            Ok(Node::Array(a)) => Some(a),
            _ => None,
        }
    }

    /// The boolean payload of a successful lookup, if that is what it holds.
    pub fn try_bool(rvt: Result<&Node, ConfigerError>) -> (r: Option<&bool>)
        ensures
            match rvt {
                Ok(node) => match node {
                    Node::Boolean(b) => r == Some(b),
                    _ => r is None,
                },
                Err(_) => r is None,
            },
    {
        match rvt {
            Ok(Node::Boolean(b)) => Some(b),
            _ => None,
        }
    }

    /// The unsigned 128-bit payload, if that is what the value holds.
    pub fn try_int_u128(rvt: Result<&Node, ConfigerError>) -> (r: Option<&u128>)
        ensures
            match rvt {
                Ok(node) => match node {
                    Node::IntU128(v) => r == Some(v),
                    _ => r is None,
                },
                Err(_) => r is None,
            },
    {
        match rvt {
            Ok(Node::IntU128(v)) => Some(v),
            _ => None,
        }
    }

    /// The unsigned 64-bit payload, if that is what the value holds.
    pub fn try_int_u64(rvt: Result<&Node, ConfigerError>) -> (r: Option<&u64>)
        ensures
            match rvt {
                Ok(node) => match node {
                    Node::IntU64(v) => r == Some(v),
                    _ => r is None,
                },
                Err(_) => r is None,
            },
    {
        match rvt {
            Ok(Node::IntU64(v)) => Some(v),
            _ => None,
        }
    }

    /// The unsigned 32-bit payload, if that is what the value holds.
    pub fn try_int_u32(rvt: Result<&Node, ConfigerError>) -> (r: Option<&u32>)
        ensures
            match rvt {
                Ok(node) => match node {
                    Node::IntU32(v) => r == Some(v),
                    _ => r is None,
                },
                Err(_) => r is None,
            },
    {
        match rvt {
            Ok(Node::IntU32(v)) => Some(v),
            _ => None,
        }
    }

    /// The signed 128-bit payload, if that is what the value holds.
    pub fn try_int_i128(rvt: Result<&Node, ConfigerError>) -> (r: Option<&i128>)
        ensures
            match rvt {
                Ok(node) => match node {
                    Node::Int128(v) => r == Some(v),
                    _ => r is None,
                },
                Err(_) => r is None,
            },
    {
        match rvt {
            Ok(Node::Int128(v)) => Some(v),
            _ => None,
        }
    }

    /// The signed 64-bit payload, if that is what the value holds.
    pub fn try_int_i64(rvt: Result<&Node, ConfigerError>) -> (r: Option<&i64>)
        ensures
            match rvt {
                Ok(node) => match node {
                    Node::Int64(v) => r == Some(v),
                    _ => r is None,
                },
                Err(_) => r is None,
            },
    {
        match rvt {
            Ok(Node::Int64(v)) => Some(v),
            _ => None,
        }
    }

    /// The signed 32-bit payload, if that is what the value holds.
    pub fn try_int_i32(rvt: Result<&Node, ConfigerError>) -> (r: Option<&i32>)
        ensures
            match rvt {
                Ok(node) => match node {
                    Node::Int32(v) => r == Some(v),
                    _ => r is None,
                },
                Err(_) => r is None,
            },
    {
        match rvt {
            Ok(Node::Int32(v)) => Some(v),
            _ => None,
        }
    }

    /// The 64-bit float payload as its bit pattern, if that is what the
    /// value holds.
    pub fn try_float64(rvt: Result<&Node, ConfigerError>) -> (r: Option<&u64>)
        ensures
            match rvt {
                Ok(node) => match node {
                    Node::Float64(v) => r == Some(v),
                    _ => r is None,
                },
                Err(_) => r is None,
            },
    {
        match rvt {
            Ok(Node::Float64(v)) => Some(v),
            _ => None,
        }
    }

    /// The 32-bit float payload as its bit pattern, if that is what the
    /// value holds.
    pub fn try_float32(rvt: Result<&Node, ConfigerError>) -> (r: Option<&u32>)
        ensures
            match rvt {
                Ok(node) => match node {
                    Node::Float32(v) => r == Some(v),
                    _ => r is None,
                },
                Err(_) => r is None,
            },
    {
        match rvt {
            Ok(Node::Float32(v)) => Some(v),
            _ => None,
        }
    }

    /// The unit marker of a successful lookup that holds the explicit
    /// absence value.
    pub fn try_none(rvt: Result<&Node, ConfigerError>) -> (r: Option<&()>)
        ensures
            match rvt {
                Ok(node) => match node {
                    Node::Absent => r is Some,
                    _ => r is None,
                },
                Err(_) => r is None,
            },
    {
        match rvt {
            Ok(Node::Absent) => Some(&()),
            _ => None,
        }
    }
}

} // verus!

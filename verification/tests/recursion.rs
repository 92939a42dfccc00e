//! Deeply nested input must fail cleanly instead of exhausting the stack.

use ciborium::de::{from_reader, Error};
use ciborium::value::Value;

#[test]
fn array() {
    let bytes = [0x9f; 128 * 1024];
    match from_reader(&bytes[..]) {
        Err(Error::RecursionLimitExceeded) => (),
        e => panic!("incorrect error: {:?}", e),
    }
}

#[test]
fn recursion_map() {
    let bytes = [0xbf; 128 * 1024];
    match from_reader(&bytes[..]) {
        Err(Error::RecursionLimitExceeded) => (),
        e => panic!("incorrect error: {:?}", e),
    }
}

#[test]
fn bytes() {
    // A chunk of an indefinite-length byte string must itself be definite,
    // so the second indefinite header is a syntax error.
    let bytes = [0x5f; 128 * 1024];
    match from_reader(&bytes[..]) {
        Err(Error::Syntax(1)) => (),
        e => panic!("incorrect error: {:?}", e),
    }
}

#[test]
fn text() {
    let bytes = [0x7f; 128 * 1024];
    match from_reader(&bytes[..]) {
        Err(Error::Syntax(1)) => (),
        e => panic!("incorrect error: {:?}", e),
    }
}

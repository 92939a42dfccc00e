//! Short malformed inputs that once provoked oversized allocations must
//! decode or fail without incident.

use ciborium::de::from_reader;
use ciborium::value::Value;

#[test]
fn oom_1() {
    let data = vec![186, 197, 197, 197, 95];
    let ret: Result<Value, _> = from_reader(&data[..]);
    println!("{:#?}", ret);
}

#[test]
fn oom_2() {
    let data = vec![186, 94, 57, 57, 78, 11];
    let ret: Result<Value, _> = from_reader(&data[..]);
    println!("{:#?}", ret);
}

#[test]
fn oom_3() {
    let data = vec![155, 255, 255, 44, 89, 143, 143, 136, 136, 136];
    let ret: Result<Value, _> = from_reader(&data[..]);
    println!("{:#?}", ret);
}

#[test]
fn oom_4() {
    let data = vec![91, 20, 20, 20, 20, 20, 20, 20, 20];
    let ret: Result<Value, _> = from_reader(&data[..]);
    println!("{:#?}", ret);
}

//! The value tags of the QuickJS-NG engine.
use vstd::prelude::*;

verus! {

pub const JS_TAG_FIRST: i32 = -9;
pub const JS_TAG_SYMBOL: i32 = -8;
pub const JS_TAG_STRING: i32 = -7;
pub const JS_TAG_OBJECT: i32 = -1;
pub const JS_TAG_INT: i32 = 0;
pub const JS_TAG_BOOL: i32 = 1;
pub const JS_TAG_NULL: i32 = 2;
pub const JS_TAG_UNDEFINED: i32 = 3;
pub const JS_TAG_UNINITIALIZED: i32 = 4;
pub const JS_TAG_FLOAT64: i32 = 8;

} // verus!

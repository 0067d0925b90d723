//! Opcode names and the operands that follow an opcode in the bytecode.
use crate::control::CompileFailure;
use vstd::prelude::*;
use vstd::string::*;

verus! {

/// `name` is `other`.
pub fn name_is(name: &str, other: &str) -> (r: bool)
    ensures
        r == (name@ == other@),
{
    let n: usize = name.unicode_len();
    if n != other.unicode_len() {
        return false;
    }
    let mut i: usize = 0;
    while i < n
        invariant
            n == name@.len() == other@.len(),
            i <= n,
            forall|k: int| 0 <= k < i ==> name@[k] == other@[k],
        decreases n - i,
    {
        if name.get_char(i) != other.get_char(i) {
            assert(name@[i as int] != other@[i as int]);
            return false;
        }
        i = i + 1;
    }
    assert(name@ =~= other@);
    true
}

/// `name` begins with `prefix`.
pub open spec fn has_prefix(name: Seq<char>, prefix: Seq<char>) -> bool {
    prefix.len() <= name.len() && name.take(prefix.len() as int) == prefix
}

pub fn name_starts(name: &str, prefix: &str) -> (r: bool)
    ensures
        r == has_prefix(name@, prefix@),
{
    let n: usize = prefix.unicode_len();
    if name.unicode_len() < n {
        return false;
    }
    let mut i: usize = 0;
    while i < n
        invariant
            n == prefix@.len() <= name@.len(),
            i <= n,
            forall|k: int| 0 <= k < i ==> name@[k] == prefix@[k],
        decreases n - i,
    {
        if name.get_char(i) != prefix.get_char(i) {
            assert(name@.take(n as int)[i as int] != prefix@[i as int]);
            return false;
        }
        i = i + 1;
    }
    assert(name@.take(n as int) =~= prefix@);
    true
}

/// The little-endian 16-bit operand behind the opcode byte.
pub open spec fn operand_u16(bytes: Seq<u8>) -> int {
    bytes[1] + 256 * bytes[2]
}

/// The little-endian 32-bit operand behind the opcode byte.
pub open spec fn operand_u32(bytes: Seq<u8>) -> int {
    bytes[1] + 256 * bytes[2] + 65536 * bytes[3] + 16777216 * bytes[4]
}

pub open spec fn spec_u8(bytes: Seq<u8>) -> Result<usize, CompileFailure> {
    if bytes.len() >= 2 {
        Ok(bytes[1] as usize)
    } else {
        Err(CompileFailure::InvalidArtifact)
    }
}

pub open spec fn spec_u16(bytes: Seq<u8>) -> Result<usize, CompileFailure> {
    if bytes.len() >= 3 {
        Ok(operand_u16(bytes) as usize)
    } else {
        Err(CompileFailure::InvalidArtifact)
    }
}

pub fn opt_u8(bytes: &[u8]) -> (r: Result<usize, CompileFailure>)
    ensures
        r == spec_u8(bytes@),
{
    if bytes.len() >= 2 {
        Ok(bytes[1] as usize)
    } else {
        Err(CompileFailure::InvalidArtifact)
    }
}

pub fn opt_u16(bytes: &[u8]) -> (r: Result<usize, CompileFailure>)
    ensures
        r == spec_u16(bytes@),
{
    if bytes.len() >= 3 {
        Ok(bytes[1] as usize + 256 * (bytes[2] as usize))
    } else {
        Err(CompileFailure::InvalidArtifact)
    }
}

pub fn opt_u32(bytes: &[u8]) -> (r: Result<u32, CompileFailure>)
    ensures
        bytes@.len() >= 5 ==> r == Ok::<u32, CompileFailure>(operand_u32(bytes@) as u32),
        bytes@.len() < 5 ==> r == Err::<u32, CompileFailure>(CompileFailure::InvalidArtifact),
{
    if bytes.len() >= 5 {
        Ok(bytes[1] as u32 + 256 * (bytes[2] as u32) + 65536 * (bytes[3] as u32) + 16777216 * (bytes[4] as u32))
    } else {
        Err(CompileFailure::InvalidArtifact)
    }
}

pub open spec fn is_digit(c: char) -> bool {
    '0' <= c <= '9'
}

/// The slot index that an opcode of the `prefix` family names. A trailing `8`
/// right behind the prefix is the width of the operand, not an index; another
/// trailing digit is the index itself.
pub open spec fn spec_index(name: Seq<char>, bytes: Seq<u8>, prefix: Seq<char>) -> Result<Option<usize>, CompileFailure> {
    if !has_prefix(name, prefix) {
        Ok(None)
    } else if name.len() == prefix.len() + 1 && name.last() == '8' {
        match spec_u8(bytes) {
            Ok(index) => Ok(Some(index)),
            Err(e) => Err(e),
        }
    } else if name.len() > 0 && is_digit(name.last()) {
        Ok(Some((name.last() as int - '0' as int) as usize))
    } else {
        match spec_u16(bytes) {
            Ok(index) => Ok(Some(index)),
            Err(e) => Err(e),
        }
    }
}

pub fn opt_index(name: &str, bytes: &[u8], prefix: &str) -> (r: Result<Option<usize>, CompileFailure>)
    ensures
        r == spec_index(name@, bytes@, prefix@),
{
    if !name_starts(name, prefix) {
        return Ok(None);
    }
    let n: usize = name.unicode_len();
    if n > 0 {
        let last: char = name.get_char(n - 1);
        if last == '8' && n - 1 == prefix.unicode_len() {
            return match opt_u8(bytes) {
                Ok(index) => Ok(Some(index)),
                Err(e) => Err(e),
            };
        }
        if '0' <= last && last <= '9' {
            return Ok(Some((last as u32 - '0' as u32) as usize));
        }
    }
    match opt_u16(bytes) {
        Ok(index) => Ok(Some(index)),
        Err(e) => Err(e),
    }
}

/// The local of a `get_loc*`, `put_loc*`, `set_loc*`, `inc_loc*`, `dec_loc*` or
/// `add_loc*` opcode. The last three have an operand of one byte.
pub open spec fn spec_local_slot(name: Seq<char>, bytes: Seq<u8>) -> Option<usize> {
    if name == "get_loc0_loc1"@ || name == "set_loc_uninitialized"@ {
        None
    } else if has_prefix(name, "get_loc"@) {
        family_slot(name, bytes, "get_loc"@)
    } else if has_prefix(name, "put_loc"@) {
        family_slot(name, bytes, "put_loc"@)
    } else if has_prefix(name, "set_loc"@) {
        family_slot(name, bytes, "set_loc"@)
    } else if has_prefix(name, "inc_loc"@) {
        short_slot(bytes)
    } else if has_prefix(name, "dec_loc"@) {
        short_slot(bytes)
    } else if has_prefix(name, "add_loc"@) {
        short_slot(bytes)
    } else {
        None
    }
}

/// A local in an operand of one byte.
pub open spec fn short_slot(bytes: Seq<u8>) -> Option<usize> {
    match spec_u8(bytes) {
        Ok(index) => Some(index),
        Err(_) => None,
    }
}

fn opt_short_slot(bytes: &[u8]) -> (r: Option<usize>)
    ensures
        r == short_slot(bytes@),
{
    match opt_u8(bytes) {
        Ok(index) => Some(index),
        Err(_) => None,
    }
}

pub open spec fn family_slot(name: Seq<char>, bytes: Seq<u8>, prefix: Seq<char>) -> Option<usize> {
    match spec_index(name, bytes, prefix) {
        Ok(Some(index)) => Some(index),
        _ => match spec_u16(bytes) {
            Ok(index) => Some(index),
            Err(_) => None,
        },
    }
}

fn opt_family_slot(name: &str, bytes: &[u8], prefix: &str) -> (r: Option<usize>)
    ensures
        r == family_slot(name@, bytes@, prefix@),
{
    match opt_index(name, bytes, prefix) {
        Ok(Some(index)) => Some(index),
        _ => match opt_u16(bytes) {
            Ok(index) => Some(index),
            Err(_) => None,
        },
    }
}

pub fn opt_local_slot(name: &str, bytes: &[u8]) -> (r: Option<usize>)
    ensures
        r == spec_local_slot(name@, bytes@),
{
    if name_is(name, "get_loc0_loc1") || name_is(name, "set_loc_uninitialized") {
        return None;
    }
    if name_starts(name, "get_loc") {
        return opt_family_slot(name, bytes, "get_loc");
    }
    if name_starts(name, "put_loc") {
        return opt_family_slot(name, bytes, "put_loc");
    }
    if name_starts(name, "set_loc") {
        return opt_family_slot(name, bytes, "set_loc");
    }
    if name_starts(name, "inc_loc") {
        return opt_short_slot(bytes);
    }
    if name_starts(name, "dec_loc") {
        return opt_short_slot(bytes);
    }
    if name_starts(name, "add_loc") {
        return opt_short_slot(bytes);
    }
    None
}

/// A call or tail call of any arity.
pub open spec fn spec_is_call_site(name: Seq<char>) -> bool {
    has_prefix(name, "call"@) || has_prefix(name, "tail_call"@)
}

pub fn is_call_site(name: &str) -> (r: bool)
    ensures
        r == spec_is_call_site(name@),
{
    name_starts(name, "call") || name_starts(name, "tail_call")
}

/// The constant that an opcode pushes: small ones are part of its name, others
/// follow it as signed little-endian numbers.
pub open spec fn pushed_constant(name: Seq<char>, bytes: Seq<u8>) -> Option<int> {
    if name == "push_minus1"@ {
        Some(-1)
    } else if name == "push_i8"@ {
        Some(signed_below(bytes[1] as int, 0x80))
    } else if name == "push_i16"@ {
        Some(signed_below(operand_u16(bytes), 0x8000))
    } else if name == "push_i32"@ {
        Some(signed_below(operand_u32(bytes), 0x8000_0000))
    } else if name == "push_0"@ {
        Some(0)
    } else if name == "push_1"@ {
        Some(1)
    } else if name == "push_2"@ {
        Some(2)
    } else if name == "push_3"@ {
        Some(3)
    } else if name == "push_4"@ {
        Some(4)
    } else if name == "push_5"@ {
        Some(5)
    } else if name == "push_6"@ {
        Some(6)
    } else if name == "push_7"@ {
        Some(7)
    } else {
        None
    }
}

/// The signed number with the bits of an unsigned one whose sign bit counts `half`.
pub open spec fn signed_below(x: int, half: int) -> int {
    if x < half {
        x
    } else {
        x - 2 * half
    }
}

/// The operand of the opcode is there.
pub open spec fn constant_encoded(name: Seq<char>, bytes: Seq<u8>) -> bool {
    &&& name == "push_i8"@ ==> bytes.len() >= 2
    &&& name == "push_i16"@ ==> bytes.len() >= 3
    &&& name == "push_i32"@ ==> bytes.len() >= 5
}

pub fn opt_constant(name: &str, bytes: &[u8]) -> (r: Option<i32>)
    requires
        constant_encoded(name@, bytes@),
    ensures
        match pushed_constant(name@, bytes@) {
            Some(x) => r matches Some(y) && y == x,
            None => r is None,
        },
{
    if name_is(name, "push_minus1") {
        Some(-1)
    } else if name_is(name, "push_i8") {
        let x = bytes[1] as i32;
        Some(
            if x < 0x80 {
                x
            } else {
                x - 0x100
            },
        )
    } else if name_is(name, "push_i16") {
        let x = bytes[1] as i32 + 256 * (bytes[2] as i32);
        Some(
            if x < 0x8000 {
                x
            } else {
                x - 0x1_0000
            },
        )
    } else if name_is(name, "push_i32") {
        let x = bytes[1] as i64 + 256 * (bytes[2] as i64) + 65536 * (bytes[3] as i64) + 16777216 * (bytes[4] as i64);
        Some(
            if x < 0x8000_0000 {
                x as i32
            } else {
                (x - 0x1_0000_0000) as i32
            },
        )
    } else if name_is(name, "push_0") {
        Some(0)
    } else if name_is(name, "push_1") {
        Some(1)
    } else if name_is(name, "push_2") {
        Some(2)
    } else if name_is(name, "push_3") {
        Some(3)
    } else if name_is(name, "push_4") {
        Some(4)
    } else if name_is(name, "push_5") {
        Some(5)
    } else if name_is(name, "push_6") {
        Some(6)
    } else if name_is(name, "push_7") {
        Some(7)
    } else {
        None
    }
}

} // verus!

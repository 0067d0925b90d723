//! What the lowering does with each opcode.
use crate::ir::node_name;
use crate::ir::OptimizedNode;
use crate::names::constant_encoded;
use crate::names::name_is;
use crate::names::name_starts;
use crate::names::operand_u32;
use crate::names::opt_constant;
use crate::names::opt_index;
use crate::names::opt_u16;
use crate::names::opt_u32;
use crate::names::opt_u8;
use crate::names::pushed_constant;
use crate::names::has_prefix;
use crate::names::spec_index;
use crate::names::spec_u16;
use crate::names::spec_u8;
use crate::qjs::JS_TAG_BOOL;
use crate::qjs::JS_TAG_INT;
use crate::qjs::JS_TAG_NULL;
use crate::qjs::JS_TAG_UNDEFINED;
use vstd::prelude::*;

verus! {

/// Opcodes that move values.
#[derive(Clone, Copy, Debug, PartialEq, Eq, Structural)]
pub enum MoveKind {
    Uninitialized(usize),
    /// An immediate; a reusable one stays at hand for later nodes.
    Immediate { payload: i32, tag: i32, reusable: bool },
    /// A constant of the function.
    Constant(u32),
    GetArgument(usize),
    GetLocal(usize),
    GetFirstLocals,
    PutLocal(usize),
    SetLocal(usize),
    PutArgument(usize),
    SetArgument(usize),
    TagTest { first: i32, second: Option<i32> },
    Drop,
    Shuffle,
    Nop,
}

/// Opcodes that compute numbers.
#[derive(Clone, Copy, Debug, PartialEq, Eq, Structural)]
pub enum NumberKind {
    Arithmetic,
    Bitwise,
    Remainder,
    Equality,
    Unary,
    UpdateLocal(usize),
    AddLocal(usize),
    Comparison,
    Update { post: bool },
}

/// Opcodes that reach the heap.
#[derive(Clone, Copy, Debug, PartialEq, Eq, Structural)]
pub enum HeapKind {
    Global(u32),
    PropertyBehind(u32),
    PropertyKey,
    Field { store: bool },
    ElementLoad,
    Length,
    ElementStore,
    Call,
}

/// Opcodes that end a block.
#[derive(Clone, Copy, Debug, PartialEq, Eq, Structural)]
pub enum FlowKind {
    Branch { on_true: bool },
    Jump,
    Return,
    ReturnUndefined,
}

#[derive(Clone, Copy, Debug, PartialEq, Eq, Structural)]
pub enum OpKind {
    Move(MoveKind),
    Number(NumberKind),
    Heap(HeapKind),
    Flow(FlowKind),
    /// There is no lowering for the opcode.
    Unsupported,
    /// The operand behind the opcode is missing.
    Malformed,
}

pub open spec fn is_immediate(name: Seq<char>) -> bool {
    name == "push_i8"@ || name == "push_i16"@ || name == "push_i32"@ || name == "push_minus1"@ || name == "push_0"@ || name
        == "push_1"@ || name == "push_2"@ || name == "push_3"@ || name == "push_4"@ || name == "push_5"@ || name == "push_6"@
        || name == "push_7"@
}

fn immediate(name: &str) -> (r: bool)
    ensures
        r == is_immediate(name@),
{
    name_is(name, "push_i8") || name_is(name, "push_i16") || name_is(name, "push_i32") || name_is(name, "push_minus1")
        || name_is(name, "push_0") || name_is(name, "push_1") || name_is(name, "push_2") || name_is(name, "push_3")
        || name_is(name, "push_4") || name_is(name, "push_5") || name_is(name, "push_6") || name_is(name, "push_7")
}

pub open spec fn stays_at_hand(name: Seq<char>) -> bool {
    name == "push_i8"@ || name == "push_i16"@ || name == "push_minus1"@
}

pub open spec fn immediate_kind(name: Seq<char>, bytes: Seq<u8>) -> OpKind {
    if constant_encoded(name, bytes) {
        OpKind::Move(
            MoveKind::Immediate {
                payload: pushed_constant(name, bytes)->Some_0 as i32,
                tag: JS_TAG_INT,
                reusable: stays_at_hand(name),
            },
        )
    } else {
        OpKind::Malformed
    }
}

fn classify_immediate(name: &str, bytes: &Vec<u8>) -> (r: OpKind)
    requires
        is_immediate(name@),
    ensures
        r == immediate_kind(name@, bytes@),
{
    if name_is(name, "push_i8") && bytes.len() < 2 || name_is(name, "push_i16") && bytes.len() < 3 || name_is(
        name,
        "push_i32",
    ) && bytes.len() < 5 {
        return OpKind::Malformed;
    }
    let reusable = name_is(name, "push_i8") || name_is(name, "push_i16") || name_is(name, "push_minus1");
    match opt_constant(name, bytes.as_slice()) {
        Some(payload) => OpKind::Move(MoveKind::Immediate { payload, tag: JS_TAG_INT, reusable }),
        None => OpKind::Malformed,
    }
}

/// An opcode of a family that names a slot.
pub open spec fn slot_kind(index: Result<Option<usize>, crate::control::CompileFailure>, kind: spec_fn(usize) -> MoveKind) -> OpKind {
    match index {
        Ok(Some(slot)) => OpKind::Move(kind(slot)),
        _ => OpKind::Malformed,
    }
}

pub open spec fn move_kind(name: Seq<char>, bytes: Seq<u8>, shuffles: bool) -> Option<OpKind> {
    if name == "set_loc_uninitialized"@ {
        Some(
            match spec_u16(bytes) {
                Ok(slot) => OpKind::Move(MoveKind::Uninitialized(slot)),
                Err(_) => OpKind::Malformed,
            },
        )
    } else if is_immediate(name) {
        Some(immediate_kind(name, bytes))
    } else if name == "undefined"@ {
        Some(OpKind::Move(MoveKind::Immediate { payload: 0, tag: JS_TAG_UNDEFINED, reusable: false }))
    } else if name == "null"@ {
        Some(OpKind::Move(MoveKind::Immediate { payload: 0, tag: JS_TAG_NULL, reusable: false }))
    } else if name == "push_true"@ {
        Some(OpKind::Move(MoveKind::Immediate { payload: 1, tag: JS_TAG_BOOL, reusable: false }))
    } else if name == "push_false"@ {
        Some(OpKind::Move(MoveKind::Immediate { payload: 0, tag: JS_TAG_BOOL, reusable: false }))
    } else if name == "push_const8"@ {
        Some(
            if bytes.len() >= 2 {
                OpKind::Move(MoveKind::Constant(bytes[1] as u32))
            } else {
                OpKind::Malformed
            },
        )
    } else if name == "push_const"@ {
        Some(
            if bytes.len() >= 5 {
                OpKind::Move(MoveKind::Constant(operand_u32(bytes) as u32))
            } else {
                OpKind::Malformed
            },
        )
    } else if name == "get_loc0_loc1"@ {
        Some(OpKind::Move(MoveKind::GetFirstLocals))
    } else if has_prefix(name, "get_arg"@) {
        Some(slot_kind(spec_index(name, bytes, "get_arg"@), |slot: usize| MoveKind::GetArgument(slot)))
    } else if has_prefix(name, "get_loc"@) {
        Some(slot_kind(spec_index(name, bytes, "get_loc"@), |slot: usize| MoveKind::GetLocal(slot)))
    } else if has_prefix(name, "put_loc"@) {
        Some(slot_kind(spec_index(name, bytes, "put_loc"@), |slot: usize| MoveKind::PutLocal(slot)))
    } else if has_prefix(name, "put_arg"@) {
        Some(slot_kind(spec_index(name, bytes, "put_arg"@), |slot: usize| MoveKind::PutArgument(slot)))
    } else if has_prefix(name, "set_arg"@) {
        Some(slot_kind(spec_index(name, bytes, "set_arg"@), |slot: usize| MoveKind::SetArgument(slot)))
    } else if has_prefix(name, "set_loc"@) {
        Some(slot_kind(spec_index(name, bytes, "set_loc"@), |slot: usize| MoveKind::SetLocal(slot)))
    } else if name == "is_undefined_or_null"@ {
        Some(OpKind::Move(MoveKind::TagTest { first: JS_TAG_UNDEFINED, second: Some(JS_TAG_NULL) }))
    } else if name == "is_undefined"@ {
        Some(OpKind::Move(MoveKind::TagTest { first: JS_TAG_UNDEFINED, second: None }))
    } else if name == "is_null"@ {
        Some(OpKind::Move(MoveKind::TagTest { first: JS_TAG_NULL, second: None }))
    } else if name == "drop"@ {
        Some(OpKind::Move(MoveKind::Drop))
    } else if name == "nop"@ {
        Some(OpKind::Move(MoveKind::Nop))
    } else if shuffles {
        Some(OpKind::Move(MoveKind::Shuffle))
    } else {
        None
    }
}

fn classify_move(name: &str, bytes: &Vec<u8>, shuffles: bool) -> (r: Option<OpKind>)
    ensures
        r == move_kind(name@, bytes@, shuffles),
{
    if name_is(name, "set_loc_uninitialized") {
        Some(
            match opt_u16(bytes.as_slice()) {
                Ok(slot) => OpKind::Move(MoveKind::Uninitialized(slot)),
                Err(_) => OpKind::Malformed,
            },
        )
    } else if immediate(name) {
        Some(classify_immediate(name, bytes))
    } else if name_is(name, "undefined") {
        Some(OpKind::Move(MoveKind::Immediate { payload: 0, tag: JS_TAG_UNDEFINED, reusable: false }))
    } else if name_is(name, "null") {
        Some(OpKind::Move(MoveKind::Immediate { payload: 0, tag: JS_TAG_NULL, reusable: false }))
    } else if name_is(name, "push_true") {
        Some(OpKind::Move(MoveKind::Immediate { payload: 1, tag: JS_TAG_BOOL, reusable: false }))
    } else if name_is(name, "push_false") {
        Some(OpKind::Move(MoveKind::Immediate { payload: 0, tag: JS_TAG_BOOL, reusable: false }))
    } else if name_is(name, "push_const8") {
        Some(
            if bytes.len() >= 2 {
                OpKind::Move(MoveKind::Constant(bytes[1] as u32))
            } else {
                OpKind::Malformed
            },
        )
    } else if name_is(name, "push_const") {
        Some(
            match opt_u32(bytes.as_slice()) {
                Ok(constant) => OpKind::Move(MoveKind::Constant(constant)),
                Err(_) => OpKind::Malformed,
            },
        )
    } else if name_is(name, "get_loc0_loc1") {
        Some(OpKind::Move(MoveKind::GetFirstLocals))
    } else if name_starts(name, "get_arg") {
        Some(
            match opt_index(name, bytes.as_slice(), "get_arg") {
                Ok(Some(slot)) => OpKind::Move(MoveKind::GetArgument(slot)),
                _ => OpKind::Malformed,
            },
        )
    } else if name_starts(name, "get_loc") {
        Some(
            match opt_index(name, bytes.as_slice(), "get_loc") {
                Ok(Some(slot)) => OpKind::Move(MoveKind::GetLocal(slot)),
                _ => OpKind::Malformed,
            },
        )
    } else if name_starts(name, "put_loc") {
        Some(
            match opt_index(name, bytes.as_slice(), "put_loc") {
                Ok(Some(slot)) => OpKind::Move(MoveKind::PutLocal(slot)),
                _ => OpKind::Malformed,
            },
        )
    } else if name_starts(name, "put_arg") {
        Some(
            match opt_index(name, bytes.as_slice(), "put_arg") {
                Ok(Some(slot)) => OpKind::Move(MoveKind::PutArgument(slot)),
                _ => OpKind::Malformed,
            },
        )
    } else if name_starts(name, "set_arg") {
        Some(
            match opt_index(name, bytes.as_slice(), "set_arg") {
                Ok(Some(slot)) => OpKind::Move(MoveKind::SetArgument(slot)),
                _ => OpKind::Malformed,
            },
        )
    } else if name_starts(name, "set_loc") {
        Some(
            match opt_index(name, bytes.as_slice(), "set_loc") {
                Ok(Some(slot)) => OpKind::Move(MoveKind::SetLocal(slot)),
                _ => OpKind::Malformed,
            },
        )
    } else if name_is(name, "is_undefined_or_null") {
        Some(OpKind::Move(MoveKind::TagTest { first: JS_TAG_UNDEFINED, second: Some(JS_TAG_NULL) }))
    } else if name_is(name, "is_undefined") {
        Some(OpKind::Move(MoveKind::TagTest { first: JS_TAG_UNDEFINED, second: None }))
    } else if name_is(name, "is_null") {
        Some(OpKind::Move(MoveKind::TagTest { first: JS_TAG_NULL, second: None }))
    } else if name_is(name, "drop") {
        Some(OpKind::Move(MoveKind::Drop))
    } else if name_is(name, "nop") {
        Some(OpKind::Move(MoveKind::Nop))
    } else if shuffles {
        Some(OpKind::Move(MoveKind::Shuffle))
    } else {
        None
    }
}

pub open spec fn number_kind(name: Seq<char>, bytes: Seq<u8>) -> Option<OpKind> {
    if name == "add"@ || name == "sub"@ || name == "mul"@ || name == "div"@ {
        Some(OpKind::Number(NumberKind::Arithmetic))
    } else if name == "or"@ || name == "and"@ || name == "xor"@ || name == "shl"@ || name == "sar"@ || name == "shr"@ {
        Some(OpKind::Number(NumberKind::Bitwise))
    } else if name == "mod"@ {
        Some(OpKind::Number(NumberKind::Remainder))
    } else if name == "eq"@ || name == "neq"@ || name == "strict_eq"@ || name == "strict_neq"@ {
        Some(OpKind::Number(NumberKind::Equality))
    } else if name == "neg"@ || name == "plus"@ || name == "not"@ || name == "lnot"@ {
        Some(OpKind::Number(NumberKind::Unary))
    } else if name == "inc_loc"@ || name == "dec_loc"@ {
        Some(
            match spec_u8(bytes) {
                Ok(slot) => OpKind::Number(NumberKind::UpdateLocal(slot)),
                Err(_) => OpKind::Malformed,
            },
        )
    } else if name == "add_loc"@ {
        Some(
            match spec_u8(bytes) {
                Ok(slot) => OpKind::Number(NumberKind::AddLocal(slot)),
                Err(_) => OpKind::Malformed,
            },
        )
    } else if name == "lt"@ || name == "lte"@ || name == "gt"@ || name == "gte"@ {
        Some(OpKind::Number(NumberKind::Comparison))
    } else if name == "inc"@ || name == "dec"@ {
        Some(OpKind::Number(NumberKind::Update { post: false }))
    } else if name == "post_inc"@ || name == "post_dec"@ {
        Some(OpKind::Number(NumberKind::Update { post: true }))
    } else {
        None
    }
}

fn classify_number(name: &str, bytes: &Vec<u8>) -> (r: Option<OpKind>)
    ensures
        r == number_kind(name@, bytes@),
{
    if name_is(name, "add") || name_is(name, "sub") || name_is(name, "mul") || name_is(name, "div") {
        Some(OpKind::Number(NumberKind::Arithmetic))
    } else if name_is(name, "or") || name_is(name, "and") || name_is(name, "xor") || name_is(name, "shl") || name_is(
        name,
        "sar",
    ) || name_is(name, "shr") {
        Some(OpKind::Number(NumberKind::Bitwise))
    } else if name_is(name, "mod") {
        Some(OpKind::Number(NumberKind::Remainder))
    } else if name_is(name, "eq") || name_is(name, "neq") || name_is(name, "strict_eq") || name_is(name, "strict_neq") {
        Some(OpKind::Number(NumberKind::Equality))
    } else if name_is(name, "neg") || name_is(name, "plus") || name_is(name, "not") || name_is(name, "lnot") {
        Some(OpKind::Number(NumberKind::Unary))
    } else if name_is(name, "inc_loc") || name_is(name, "dec_loc") {
        Some(
            match opt_u8(bytes.as_slice()) {
                Ok(slot) => OpKind::Number(NumberKind::UpdateLocal(slot)),
                Err(_) => OpKind::Malformed,
            },
        )
    } else if name_is(name, "add_loc") {
        Some(
            match opt_u8(bytes.as_slice()) {
                Ok(slot) => OpKind::Number(NumberKind::AddLocal(slot)),
                Err(_) => OpKind::Malformed,
            },
        )
    } else if name_is(name, "lt") || name_is(name, "lte") || name_is(name, "gt") || name_is(name, "gte") {
        Some(OpKind::Number(NumberKind::Comparison))
    } else if name_is(name, "inc") || name_is(name, "dec") {
        Some(OpKind::Number(NumberKind::Update { post: false }))
    } else if name_is(name, "post_inc") || name_is(name, "post_dec") {
        Some(OpKind::Number(NumberKind::Update { post: true }))
    } else {
        None
    }
}

/// The 32-bit operand, where it is there.
pub open spec fn atom_of(bytes: Seq<u8>) -> Option<u32> {
    if bytes.len() >= 5 {
        Some(operand_u32(bytes) as u32)
    } else {
        None
    }
}

pub fn find_atom(bytes: &Vec<u8>) -> (r: Option<u32>)
    ensures
        r == atom_of(bytes@),
{
    match opt_u32(bytes.as_slice()) {
        Ok(atom) => Some(atom),
        Err(_) => None,
    }
}

pub open spec fn heap_kind(name: Seq<char>, bytes: Seq<u8>) -> Option<OpKind> {
    if name == "get_var"@ {
        Some(
            match atom_of(bytes) {
                Some(atom) => OpKind::Heap(HeapKind::Global(atom)),
                None => OpKind::Malformed,
            },
        )
    } else if name == "get_field2"@ {
        Some(
            match atom_of(bytes) {
                Some(atom) => OpKind::Heap(HeapKind::PropertyBehind(atom)),
                None => OpKind::Malformed,
            },
        )
    } else if name == "to_propkey"@ {
        Some(OpKind::Heap(HeapKind::PropertyKey))
    } else if name == "get_field"@ {
        Some(OpKind::Heap(HeapKind::Field { store: false }))
    } else if name == "put_field"@ {
        Some(OpKind::Heap(HeapKind::Field { store: true }))
    } else if name == "get_array_el"@ {
        Some(OpKind::Heap(HeapKind::ElementLoad))
    } else if name == "get_length"@ {
        Some(OpKind::Heap(HeapKind::Length))
    } else if name == "put_array_el"@ {
        Some(OpKind::Heap(HeapKind::ElementStore))
    } else if name == "call"@ || name == "call0"@ || name == "call1"@ || name == "call2"@ || name == "call3"@ || name
        == "call_method"@ {
        Some(OpKind::Heap(HeapKind::Call))
    } else {
        None
    }
}

fn classify_heap(name: &str, bytes: &Vec<u8>) -> (r: Option<OpKind>)
    ensures
        r == heap_kind(name@, bytes@),
{
    if name_is(name, "get_var") {
        Some(
            match find_atom(bytes) {
                Some(atom) => OpKind::Heap(HeapKind::Global(atom)),
                None => OpKind::Malformed,
            },
        )
    } else if name_is(name, "get_field2") {
        Some(
            match find_atom(bytes) {
                Some(atom) => OpKind::Heap(HeapKind::PropertyBehind(atom)),
                None => OpKind::Malformed,
            },
        )
    } else if name_is(name, "to_propkey") {
        Some(OpKind::Heap(HeapKind::PropertyKey))
    } else if name_is(name, "get_field") {
        Some(OpKind::Heap(HeapKind::Field { store: false }))
    } else if name_is(name, "put_field") {
        Some(OpKind::Heap(HeapKind::Field { store: true }))
    } else if name_is(name, "get_array_el") {
        Some(OpKind::Heap(HeapKind::ElementLoad))
    } else if name_is(name, "get_length") {
        Some(OpKind::Heap(HeapKind::Length))
    } else if name_is(name, "put_array_el") {
        Some(OpKind::Heap(HeapKind::ElementStore))
    } else if name_is(name, "call") || name_is(name, "call0") || name_is(name, "call1") || name_is(name, "call2") || name_is(
        name,
        "call3",
    ) || name_is(name, "call_method") {
        Some(OpKind::Heap(HeapKind::Call))
    } else {
        None
    }
}

pub open spec fn flow_kind(name: Seq<char>) -> Option<OpKind> {
    if name == "if_false8"@ || name == "if_false"@ {
        Some(OpKind::Flow(FlowKind::Branch { on_true: false }))
    } else if name == "if_true8"@ || name == "if_true"@ {
        Some(OpKind::Flow(FlowKind::Branch { on_true: true }))
    } else if name == "goto"@ || name == "goto8"@ || name == "goto16"@ {
        Some(OpKind::Flow(FlowKind::Jump))
    } else if name == "return"@ {
        Some(OpKind::Flow(FlowKind::Return))
    } else if name == "return_undef"@ {
        Some(OpKind::Flow(FlowKind::ReturnUndefined))
    } else {
        None
    }
}

fn classify_flow(name: &str) -> (r: Option<OpKind>)
    ensures
        r == flow_kind(name@),
{
    if name_is(name, "if_false8") || name_is(name, "if_false") {
        Some(OpKind::Flow(FlowKind::Branch { on_true: false }))
    } else if name_is(name, "if_true8") || name_is(name, "if_true") {
        Some(OpKind::Flow(FlowKind::Branch { on_true: true }))
    } else if name_is(name, "goto") || name_is(name, "goto8") || name_is(name, "goto16") {
        Some(OpKind::Flow(FlowKind::Jump))
    } else if name_is(name, "return") {
        Some(OpKind::Flow(FlowKind::Return))
    } else if name_is(name, "return_undef") {
        Some(OpKind::Flow(FlowKind::ReturnUndefined))
    } else {
        None
    }
}

/// What the lowering does with the node's opcode.
pub open spec fn op_kind(node: OptimizedNode) -> OpKind {
    let name = node.name();
    let bytes = node.bytes@;
    match heap_kind(name, bytes) {
        Some(kind) => kind,
        None => match number_kind(name, bytes) {
            Some(kind) => kind,
            None => match flow_kind(name) {
                Some(kind) => kind,
                None => match move_kind(name, bytes, node.shuffle is Some) {
                    Some(kind) => kind,
                    None => OpKind::Unsupported,
                },
            },
        },
    }
}

/// Finds what is to be done with the node's opcode.
pub fn classify(node: &OptimizedNode) -> (r: OpKind)
    ensures
        r == op_kind(*node),
{
    let name = node_name(node);
    match classify_heap(name, &node.bytes) {
        Some(kind) => kind,
        None => match classify_number(name, &node.bytes) {
            Some(kind) => kind,
            None => match classify_flow(name) {
                Some(kind) => kind,
                None => match classify_move(name, &node.bytes, node.shuffle.is_some()) {
                    Some(kind) => kind,
                    None => OpKind::Unsupported,
                },
            },
        },
    }
}

} // verus!

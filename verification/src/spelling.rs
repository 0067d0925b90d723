//! How the names of opcodes are spelled.
use vstd::prelude::*;

verus! {

/// The characters of the names: two names that differ in one are not the same.
pub open spec fn spelled() -> bool {
    &&& "add"@.len() == 3
    &&& "add"@[0] == 'a' && "add"@[1] == 'd' && "add"@[2] == 'd'
    &&& "add_loc"@.len() == 7
    &&& "add_loc"@[0] == 'a' && "add_loc"@[1] == 'd' && "add_loc"@[2] == 'd' && "add_loc"@[3] == '_'
    &&& "add_loc"@[4] == 'l' && "add_loc"@[5] == 'o' && "add_loc"@[6] == 'c'
    &&& "and"@.len() == 3
    &&& "and"@[0] == 'a' && "and"@[1] == 'n' && "and"@[2] == 'd'
    &&& "call"@.len() == 4
    &&& "call"@[0] == 'c' && "call"@[1] == 'a' && "call"@[2] == 'l' && "call"@[3] == 'l'
    &&& "call0"@.len() == 5
    &&& "call0"@[0] == 'c' && "call0"@[1] == 'a' && "call0"@[2] == 'l' && "call0"@[3] == 'l'
    &&& "call0"@[4] == '0'
    &&& "call1"@.len() == 5
    &&& "call1"@[0] == 'c' && "call1"@[1] == 'a' && "call1"@[2] == 'l' && "call1"@[3] == 'l'
    &&& "call1"@[4] == '1'
    &&& "call2"@.len() == 5
    &&& "call2"@[0] == 'c' && "call2"@[1] == 'a' && "call2"@[2] == 'l' && "call2"@[3] == 'l'
    &&& "call2"@[4] == '2'
    &&& "call3"@.len() == 5
    &&& "call3"@[0] == 'c' && "call3"@[1] == 'a' && "call3"@[2] == 'l' && "call3"@[3] == 'l'
    &&& "call3"@[4] == '3'
    &&& "call_method"@.len() == 11
    &&& "call_method"@[0] == 'c' && "call_method"@[1] == 'a' && "call_method"@[2] == 'l' && "call_method"@[3] == 'l'
    &&& "call_method"@[4] == '_' && "call_method"@[5] == 'm' && "call_method"@[6] == 'e' && "call_method"@[7] == 't'
    &&& "call_method"@[8] == 'h' && "call_method"@[9] == 'o' && "call_method"@[10] == 'd'
    &&& "dec"@.len() == 3
    &&& "dec"@[0] == 'd' && "dec"@[1] == 'e' && "dec"@[2] == 'c'
    &&& "dec_loc"@.len() == 7
    &&& "dec_loc"@[0] == 'd' && "dec_loc"@[1] == 'e' && "dec_loc"@[2] == 'c' && "dec_loc"@[3] == '_'
    &&& "dec_loc"@[4] == 'l' && "dec_loc"@[5] == 'o' && "dec_loc"@[6] == 'c'
    &&& "div"@.len() == 3
    &&& "div"@[0] == 'd' && "div"@[1] == 'i' && "div"@[2] == 'v'
    &&& "drop"@.len() == 4
    &&& "drop"@[0] == 'd' && "drop"@[1] == 'r' && "drop"@[2] == 'o' && "drop"@[3] == 'p'
    &&& "dup"@.len() == 3
    &&& "dup"@[0] == 'd' && "dup"@[1] == 'u' && "dup"@[2] == 'p'
    &&& "eq"@.len() == 2
    &&& "eq"@[0] == 'e' && "eq"@[1] == 'q'
    &&& "get_arg"@.len() == 7
    &&& "get_arg"@[0] == 'g' && "get_arg"@[1] == 'e' && "get_arg"@[2] == 't' && "get_arg"@[3] == '_'
    &&& "get_arg"@[4] == 'a' && "get_arg"@[5] == 'r' && "get_arg"@[6] == 'g'
    &&& "get_arg0"@.len() == 8
    &&& "get_arg0"@[0] == 'g' && "get_arg0"@[1] == 'e' && "get_arg0"@[2] == 't' && "get_arg0"@[3] == '_'
    &&& "get_arg0"@[4] == 'a' && "get_arg0"@[5] == 'r' && "get_arg0"@[6] == 'g' && "get_arg0"@[7] == '0'
    &&& "get_arg1"@.len() == 8
    &&& "get_arg1"@[0] == 'g' && "get_arg1"@[1] == 'e' && "get_arg1"@[2] == 't' && "get_arg1"@[3] == '_'
    &&& "get_arg1"@[4] == 'a' && "get_arg1"@[5] == 'r' && "get_arg1"@[6] == 'g' && "get_arg1"@[7] == '1'
    &&& "get_arg2"@.len() == 8
    &&& "get_arg2"@[0] == 'g' && "get_arg2"@[1] == 'e' && "get_arg2"@[2] == 't' && "get_arg2"@[3] == '_'
    &&& "get_arg2"@[4] == 'a' && "get_arg2"@[5] == 'r' && "get_arg2"@[6] == 'g' && "get_arg2"@[7] == '2'
    &&& "get_arg3"@.len() == 8
    &&& "get_arg3"@[0] == 'g' && "get_arg3"@[1] == 'e' && "get_arg3"@[2] == 't' && "get_arg3"@[3] == '_'
    &&& "get_arg3"@[4] == 'a' && "get_arg3"@[5] == 'r' && "get_arg3"@[6] == 'g' && "get_arg3"@[7] == '3'
    &&& "get_array_el"@.len() == 12
    &&& "get_array_el"@[0] == 'g' && "get_array_el"@[1] == 'e' && "get_array_el"@[2] == 't' && "get_array_el"@[3] == '_'
    &&& "get_array_el"@[4] == 'a' && "get_array_el"@[5] == 'r' && "get_array_el"@[6] == 'r' && "get_array_el"@[7] == 'a'
    &&& "get_array_el"@[8] == 'y' && "get_array_el"@[9] == '_' && "get_array_el"@[10] == 'e' && "get_array_el"@[11] == 'l'
    &&& "get_field"@.len() == 9
    &&& "get_field"@[0] == 'g' && "get_field"@[1] == 'e' && "get_field"@[2] == 't' && "get_field"@[3] == '_'
    &&& "get_field"@[4] == 'f' && "get_field"@[5] == 'i' && "get_field"@[6] == 'e' && "get_field"@[7] == 'l'
    &&& "get_field"@[8] == 'd'
    &&& "get_field2"@.len() == 10
    &&& "get_field2"@[0] == 'g' && "get_field2"@[1] == 'e' && "get_field2"@[2] == 't' && "get_field2"@[3] == '_'
    &&& "get_field2"@[4] == 'f' && "get_field2"@[5] == 'i' && "get_field2"@[6] == 'e' && "get_field2"@[7] == 'l'
    &&& "get_field2"@[8] == 'd' && "get_field2"@[9] == '2'
    &&& "get_length"@.len() == 10
    &&& "get_length"@[0] == 'g' && "get_length"@[1] == 'e' && "get_length"@[2] == 't' && "get_length"@[3] == '_'
    &&& "get_length"@[4] == 'l' && "get_length"@[5] == 'e' && "get_length"@[6] == 'n' && "get_length"@[7] == 'g'
    &&& "get_length"@[8] == 't' && "get_length"@[9] == 'h'
    &&& "get_loc"@.len() == 7
    &&& "get_loc"@[0] == 'g' && "get_loc"@[1] == 'e' && "get_loc"@[2] == 't' && "get_loc"@[3] == '_'
    &&& "get_loc"@[4] == 'l' && "get_loc"@[5] == 'o' && "get_loc"@[6] == 'c'
    &&& "get_loc0"@.len() == 8
    &&& "get_loc0"@[0] == 'g' && "get_loc0"@[1] == 'e' && "get_loc0"@[2] == 't' && "get_loc0"@[3] == '_'
    &&& "get_loc0"@[4] == 'l' && "get_loc0"@[5] == 'o' && "get_loc0"@[6] == 'c' && "get_loc0"@[7] == '0'
    &&& "get_loc1"@.len() == 8
    &&& "get_loc1"@[0] == 'g' && "get_loc1"@[1] == 'e' && "get_loc1"@[2] == 't' && "get_loc1"@[3] == '_'
    &&& "get_loc1"@[4] == 'l' && "get_loc1"@[5] == 'o' && "get_loc1"@[6] == 'c' && "get_loc1"@[7] == '1'
    &&& "get_loc2"@.len() == 8
    &&& "get_loc2"@[0] == 'g' && "get_loc2"@[1] == 'e' && "get_loc2"@[2] == 't' && "get_loc2"@[3] == '_'
    &&& "get_loc2"@[4] == 'l' && "get_loc2"@[5] == 'o' && "get_loc2"@[6] == 'c' && "get_loc2"@[7] == '2'
    &&& "get_loc3"@.len() == 8
    &&& "get_loc3"@[0] == 'g' && "get_loc3"@[1] == 'e' && "get_loc3"@[2] == 't' && "get_loc3"@[3] == '_'
    &&& "get_loc3"@[4] == 'l' && "get_loc3"@[5] == 'o' && "get_loc3"@[6] == 'c' && "get_loc3"@[7] == '3'
    &&& "get_loc8"@.len() == 8
    &&& "get_loc8"@[0] == 'g' && "get_loc8"@[1] == 'e' && "get_loc8"@[2] == 't' && "get_loc8"@[3] == '_'
    &&& "get_loc8"@[4] == 'l' && "get_loc8"@[5] == 'o' && "get_loc8"@[6] == 'c' && "get_loc8"@[7] == '8'
    &&& "get_loc0_loc1"@.len() == 13
    &&& "get_loc0_loc1"@[0] == 'g' && "get_loc0_loc1"@[1] == 'e' && "get_loc0_loc1"@[2] == 't' && "get_loc0_loc1"@[3] == '_'
    &&& "get_loc0_loc1"@[4] == 'l' && "get_loc0_loc1"@[5] == 'o' && "get_loc0_loc1"@[6] == 'c' && "get_loc0_loc1"@[7] == '0'
    &&& "get_loc0_loc1"@[8] == '_' && "get_loc0_loc1"@[9] == 'l' && "get_loc0_loc1"@[10] == 'o' && "get_loc0_loc1"@[11] == 'c'
    &&& "get_loc0_loc1"@[12] == '1'
    &&& "get_var"@.len() == 7
    &&& "get_var"@[0] == 'g' && "get_var"@[1] == 'e' && "get_var"@[2] == 't' && "get_var"@[3] == '_'
    &&& "get_var"@[4] == 'v' && "get_var"@[5] == 'a' && "get_var"@[6] == 'r'
    &&& "goto"@.len() == 4
    &&& "goto"@[0] == 'g' && "goto"@[1] == 'o' && "goto"@[2] == 't' && "goto"@[3] == 'o'
    &&& "goto16"@.len() == 6
    &&& "goto16"@[0] == 'g' && "goto16"@[1] == 'o' && "goto16"@[2] == 't' && "goto16"@[3] == 'o'
    &&& "goto16"@[4] == '1' && "goto16"@[5] == '6'
    &&& "goto8"@.len() == 5
    &&& "goto8"@[0] == 'g' && "goto8"@[1] == 'o' && "goto8"@[2] == 't' && "goto8"@[3] == 'o'
    &&& "goto8"@[4] == '8'
    &&& "gt"@.len() == 2
    &&& "gt"@[0] == 'g' && "gt"@[1] == 't'
    &&& "gte"@.len() == 3
    &&& "gte"@[0] == 'g' && "gte"@[1] == 't' && "gte"@[2] == 'e'
    &&& "if_false"@.len() == 8
    &&& "if_false"@[0] == 'i' && "if_false"@[1] == 'f' && "if_false"@[2] == '_' && "if_false"@[3] == 'f'
    &&& "if_false"@[4] == 'a' && "if_false"@[5] == 'l' && "if_false"@[6] == 's' && "if_false"@[7] == 'e'
    &&& "if_false8"@.len() == 9
    &&& "if_false8"@[0] == 'i' && "if_false8"@[1] == 'f' && "if_false8"@[2] == '_' && "if_false8"@[3] == 'f'
    &&& "if_false8"@[4] == 'a' && "if_false8"@[5] == 'l' && "if_false8"@[6] == 's' && "if_false8"@[7] == 'e'
    &&& "if_false8"@[8] == '8'
    &&& "if_true"@.len() == 7
    &&& "if_true"@[0] == 'i' && "if_true"@[1] == 'f' && "if_true"@[2] == '_' && "if_true"@[3] == 't'
    &&& "if_true"@[4] == 'r' && "if_true"@[5] == 'u' && "if_true"@[6] == 'e'
    &&& "if_true8"@.len() == 8
    &&& "if_true8"@[0] == 'i' && "if_true8"@[1] == 'f' && "if_true8"@[2] == '_' && "if_true8"@[3] == 't'
    &&& "if_true8"@[4] == 'r' && "if_true8"@[5] == 'u' && "if_true8"@[6] == 'e' && "if_true8"@[7] == '8'
    &&& "inc"@.len() == 3
    &&& "inc"@[0] == 'i' && "inc"@[1] == 'n' && "inc"@[2] == 'c'
    &&& "inc_loc"@.len() == 7
    &&& "inc_loc"@[0] == 'i' && "inc_loc"@[1] == 'n' && "inc_loc"@[2] == 'c' && "inc_loc"@[3] == '_'
    &&& "inc_loc"@[4] == 'l' && "inc_loc"@[5] == 'o' && "inc_loc"@[6] == 'c'
    &&& "is_null"@.len() == 7
    &&& "is_null"@[0] == 'i' && "is_null"@[1] == 's' && "is_null"@[2] == '_' && "is_null"@[3] == 'n'
    &&& "is_null"@[4] == 'u' && "is_null"@[5] == 'l' && "is_null"@[6] == 'l'
    &&& "is_undefined"@.len() == 12
    &&& "is_undefined"@[0] == 'i' && "is_undefined"@[1] == 's' && "is_undefined"@[2] == '_' && "is_undefined"@[3] == 'u'
    &&& "is_undefined"@[4] == 'n' && "is_undefined"@[5] == 'd' && "is_undefined"@[6] == 'e' && "is_undefined"@[7] == 'f'
    &&& "is_undefined"@[8] == 'i' && "is_undefined"@[9] == 'n' && "is_undefined"@[10] == 'e' && "is_undefined"@[11] == 'd'
    &&& "is_undefined_or_null"@.len() == 20
    &&& "is_undefined_or_null"@[0] == 'i' && "is_undefined_or_null"@[1] == 's' && "is_undefined_or_null"@[2] == '_' && "is_undefined_or_null"@[3] == 'u'
    &&& "is_undefined_or_null"@[4] == 'n' && "is_undefined_or_null"@[5] == 'd' && "is_undefined_or_null"@[6] == 'e' && "is_undefined_or_null"@[7] == 'f'
    &&& "is_undefined_or_null"@[8] == 'i' && "is_undefined_or_null"@[9] == 'n' && "is_undefined_or_null"@[10] == 'e' && "is_undefined_or_null"@[11] == 'd'
    &&& "is_undefined_or_null"@[12] == '_' && "is_undefined_or_null"@[13] == 'o' && "is_undefined_or_null"@[14] == 'r' && "is_undefined_or_null"@[15] == '_'
    &&& "is_undefined_or_null"@[16] == 'n' && "is_undefined_or_null"@[17] == 'u' && "is_undefined_or_null"@[18] == 'l' && "is_undefined_or_null"@[19] == 'l'
    &&& "lnot"@.len() == 4
    &&& "lnot"@[0] == 'l' && "lnot"@[1] == 'n' && "lnot"@[2] == 'o' && "lnot"@[3] == 't'
    &&& "lt"@.len() == 2
    &&& "lt"@[0] == 'l' && "lt"@[1] == 't'
    &&& "lte"@.len() == 3
    &&& "lte"@[0] == 'l' && "lte"@[1] == 't' && "lte"@[2] == 'e'
    &&& "mod"@.len() == 3
    &&& "mod"@[0] == 'm' && "mod"@[1] == 'o' && "mod"@[2] == 'd'
    &&& "mul"@.len() == 3
    &&& "mul"@[0] == 'm' && "mul"@[1] == 'u' && "mul"@[2] == 'l'
    &&& "neg"@.len() == 3
    &&& "neg"@[0] == 'n' && "neg"@[1] == 'e' && "neg"@[2] == 'g'
    &&& "neq"@.len() == 3
    &&& "neq"@[0] == 'n' && "neq"@[1] == 'e' && "neq"@[2] == 'q'
    &&& "nop"@.len() == 3
    &&& "nop"@[0] == 'n' && "nop"@[1] == 'o' && "nop"@[2] == 'p'
    &&& "not"@.len() == 3
    &&& "not"@[0] == 'n' && "not"@[1] == 'o' && "not"@[2] == 't'
    &&& "null"@.len() == 4
    &&& "null"@[0] == 'n' && "null"@[1] == 'u' && "null"@[2] == 'l' && "null"@[3] == 'l'
    &&& "or"@.len() == 2
    &&& "or"@[0] == 'o' && "or"@[1] == 'r'
    &&& "plus"@.len() == 4
    &&& "plus"@[0] == 'p' && "plus"@[1] == 'l' && "plus"@[2] == 'u' && "plus"@[3] == 's'
    &&& "post_dec"@.len() == 8
    &&& "post_dec"@[0] == 'p' && "post_dec"@[1] == 'o' && "post_dec"@[2] == 's' && "post_dec"@[3] == 't'
    &&& "post_dec"@[4] == '_' && "post_dec"@[5] == 'd' && "post_dec"@[6] == 'e' && "post_dec"@[7] == 'c'
    &&& "post_inc"@.len() == 8
    &&& "post_inc"@[0] == 'p' && "post_inc"@[1] == 'o' && "post_inc"@[2] == 's' && "post_inc"@[3] == 't'
    &&& "post_inc"@[4] == '_' && "post_inc"@[5] == 'i' && "post_inc"@[6] == 'n' && "post_inc"@[7] == 'c'
    &&& "push_"@.len() == 5
    &&& "push_"@[0] == 'p' && "push_"@[1] == 'u' && "push_"@[2] == 's' && "push_"@[3] == 'h'
    &&& "push_"@[4] == '_'
    &&& "push_0"@.len() == 6
    &&& "push_0"@[0] == 'p' && "push_0"@[1] == 'u' && "push_0"@[2] == 's' && "push_0"@[3] == 'h'
    &&& "push_0"@[4] == '_' && "push_0"@[5] == '0'
    &&& "push_1"@.len() == 6
    &&& "push_1"@[0] == 'p' && "push_1"@[1] == 'u' && "push_1"@[2] == 's' && "push_1"@[3] == 'h'
    &&& "push_1"@[4] == '_' && "push_1"@[5] == '1'
    &&& "push_2"@.len() == 6
    &&& "push_2"@[0] == 'p' && "push_2"@[1] == 'u' && "push_2"@[2] == 's' && "push_2"@[3] == 'h'
    &&& "push_2"@[4] == '_' && "push_2"@[5] == '2'
    &&& "push_3"@.len() == 6
    &&& "push_3"@[0] == 'p' && "push_3"@[1] == 'u' && "push_3"@[2] == 's' && "push_3"@[3] == 'h'
    &&& "push_3"@[4] == '_' && "push_3"@[5] == '3'
    &&& "push_4"@.len() == 6
    &&& "push_4"@[0] == 'p' && "push_4"@[1] == 'u' && "push_4"@[2] == 's' && "push_4"@[3] == 'h'
    &&& "push_4"@[4] == '_' && "push_4"@[5] == '4'
    &&& "push_5"@.len() == 6
    &&& "push_5"@[0] == 'p' && "push_5"@[1] == 'u' && "push_5"@[2] == 's' && "push_5"@[3] == 'h'
    &&& "push_5"@[4] == '_' && "push_5"@[5] == '5'
    &&& "push_6"@.len() == 6
    &&& "push_6"@[0] == 'p' && "push_6"@[1] == 'u' && "push_6"@[2] == 's' && "push_6"@[3] == 'h'
    &&& "push_6"@[4] == '_' && "push_6"@[5] == '6'
    &&& "push_7"@.len() == 6
    &&& "push_7"@[0] == 'p' && "push_7"@[1] == 'u' && "push_7"@[2] == 's' && "push_7"@[3] == 'h'
    &&& "push_7"@[4] == '_' && "push_7"@[5] == '7'
    &&& "push_const"@.len() == 10
    &&& "push_const"@[0] == 'p' && "push_const"@[1] == 'u' && "push_const"@[2] == 's' && "push_const"@[3] == 'h'
    &&& "push_const"@[4] == '_' && "push_const"@[5] == 'c' && "push_const"@[6] == 'o' && "push_const"@[7] == 'n'
    &&& "push_const"@[8] == 's' && "push_const"@[9] == 't'
    &&& "push_const8"@.len() == 11
    &&& "push_const8"@[0] == 'p' && "push_const8"@[1] == 'u' && "push_const8"@[2] == 's' && "push_const8"@[3] == 'h'
    &&& "push_const8"@[4] == '_' && "push_const8"@[5] == 'c' && "push_const8"@[6] == 'o' && "push_const8"@[7] == 'n'
    &&& "push_const8"@[8] == 's' && "push_const8"@[9] == 't' && "push_const8"@[10] == '8'
    &&& "push_false"@.len() == 10
    &&& "push_false"@[0] == 'p' && "push_false"@[1] == 'u' && "push_false"@[2] == 's' && "push_false"@[3] == 'h'
    &&& "push_false"@[4] == '_' && "push_false"@[5] == 'f' && "push_false"@[6] == 'a' && "push_false"@[7] == 'l'
    &&& "push_false"@[8] == 's' && "push_false"@[9] == 'e'
    &&& "push_i16"@.len() == 8
    &&& "push_i16"@[0] == 'p' && "push_i16"@[1] == 'u' && "push_i16"@[2] == 's' && "push_i16"@[3] == 'h'
    &&& "push_i16"@[4] == '_' && "push_i16"@[5] == 'i' && "push_i16"@[6] == '1' && "push_i16"@[7] == '6'
    &&& "push_i32"@.len() == 8
    &&& "push_i32"@[0] == 'p' && "push_i32"@[1] == 'u' && "push_i32"@[2] == 's' && "push_i32"@[3] == 'h'
    &&& "push_i32"@[4] == '_' && "push_i32"@[5] == 'i' && "push_i32"@[6] == '3' && "push_i32"@[7] == '2'
    &&& "push_i8"@.len() == 7
    &&& "push_i8"@[0] == 'p' && "push_i8"@[1] == 'u' && "push_i8"@[2] == 's' && "push_i8"@[3] == 'h'
    &&& "push_i8"@[4] == '_' && "push_i8"@[5] == 'i' && "push_i8"@[6] == '8'
    &&& "push_minus1"@.len() == 11
    &&& "push_minus1"@[0] == 'p' && "push_minus1"@[1] == 'u' && "push_minus1"@[2] == 's' && "push_minus1"@[3] == 'h'
    &&& "push_minus1"@[4] == '_' && "push_minus1"@[5] == 'm' && "push_minus1"@[6] == 'i' && "push_minus1"@[7] == 'n'
    &&& "push_minus1"@[8] == 'u' && "push_minus1"@[9] == 's' && "push_minus1"@[10] == '1'
    &&& "push_true"@.len() == 9
    &&& "push_true"@[0] == 'p' && "push_true"@[1] == 'u' && "push_true"@[2] == 's' && "push_true"@[3] == 'h'
    &&& "push_true"@[4] == '_' && "push_true"@[5] == 't' && "push_true"@[6] == 'r' && "push_true"@[7] == 'u'
    &&& "push_true"@[8] == 'e'
    &&& "put_arg"@.len() == 7
    &&& "put_arg"@[0] == 'p' && "put_arg"@[1] == 'u' && "put_arg"@[2] == 't' && "put_arg"@[3] == '_'
    &&& "put_arg"@[4] == 'a' && "put_arg"@[5] == 'r' && "put_arg"@[6] == 'g'
    &&& "put_arg0"@.len() == 8
    &&& "put_arg0"@[0] == 'p' && "put_arg0"@[1] == 'u' && "put_arg0"@[2] == 't' && "put_arg0"@[3] == '_'
    &&& "put_arg0"@[4] == 'a' && "put_arg0"@[5] == 'r' && "put_arg0"@[6] == 'g' && "put_arg0"@[7] == '0'
    &&& "put_arg1"@.len() == 8
    &&& "put_arg1"@[0] == 'p' && "put_arg1"@[1] == 'u' && "put_arg1"@[2] == 't' && "put_arg1"@[3] == '_'
    &&& "put_arg1"@[4] == 'a' && "put_arg1"@[5] == 'r' && "put_arg1"@[6] == 'g' && "put_arg1"@[7] == '1'
    &&& "put_arg2"@.len() == 8
    &&& "put_arg2"@[0] == 'p' && "put_arg2"@[1] == 'u' && "put_arg2"@[2] == 't' && "put_arg2"@[3] == '_'
    &&& "put_arg2"@[4] == 'a' && "put_arg2"@[5] == 'r' && "put_arg2"@[6] == 'g' && "put_arg2"@[7] == '2'
    &&& "put_arg3"@.len() == 8
    &&& "put_arg3"@[0] == 'p' && "put_arg3"@[1] == 'u' && "put_arg3"@[2] == 't' && "put_arg3"@[3] == '_'
    &&& "put_arg3"@[4] == 'a' && "put_arg3"@[5] == 'r' && "put_arg3"@[6] == 'g' && "put_arg3"@[7] == '3'
    &&& "put_array_el"@.len() == 12
    &&& "put_array_el"@[0] == 'p' && "put_array_el"@[1] == 'u' && "put_array_el"@[2] == 't' && "put_array_el"@[3] == '_'
    &&& "put_array_el"@[4] == 'a' && "put_array_el"@[5] == 'r' && "put_array_el"@[6] == 'r' && "put_array_el"@[7] == 'a'
    &&& "put_array_el"@[8] == 'y' && "put_array_el"@[9] == '_' && "put_array_el"@[10] == 'e' && "put_array_el"@[11] == 'l'
    &&& "put_field"@.len() == 9
    &&& "put_field"@[0] == 'p' && "put_field"@[1] == 'u' && "put_field"@[2] == 't' && "put_field"@[3] == '_'
    &&& "put_field"@[4] == 'f' && "put_field"@[5] == 'i' && "put_field"@[6] == 'e' && "put_field"@[7] == 'l'
    &&& "put_field"@[8] == 'd'
    &&& "put_loc"@.len() == 7
    &&& "put_loc"@[0] == 'p' && "put_loc"@[1] == 'u' && "put_loc"@[2] == 't' && "put_loc"@[3] == '_'
    &&& "put_loc"@[4] == 'l' && "put_loc"@[5] == 'o' && "put_loc"@[6] == 'c'
    &&& "put_loc0"@.len() == 8
    &&& "put_loc0"@[0] == 'p' && "put_loc0"@[1] == 'u' && "put_loc0"@[2] == 't' && "put_loc0"@[3] == '_'
    &&& "put_loc0"@[4] == 'l' && "put_loc0"@[5] == 'o' && "put_loc0"@[6] == 'c' && "put_loc0"@[7] == '0'
    &&& "put_loc1"@.len() == 8
    &&& "put_loc1"@[0] == 'p' && "put_loc1"@[1] == 'u' && "put_loc1"@[2] == 't' && "put_loc1"@[3] == '_'
    &&& "put_loc1"@[4] == 'l' && "put_loc1"@[5] == 'o' && "put_loc1"@[6] == 'c' && "put_loc1"@[7] == '1'
    &&& "put_loc2"@.len() == 8
    &&& "put_loc2"@[0] == 'p' && "put_loc2"@[1] == 'u' && "put_loc2"@[2] == 't' && "put_loc2"@[3] == '_'
    &&& "put_loc2"@[4] == 'l' && "put_loc2"@[5] == 'o' && "put_loc2"@[6] == 'c' && "put_loc2"@[7] == '2'
    &&& "put_loc3"@.len() == 8
    &&& "put_loc3"@[0] == 'p' && "put_loc3"@[1] == 'u' && "put_loc3"@[2] == 't' && "put_loc3"@[3] == '_'
    &&& "put_loc3"@[4] == 'l' && "put_loc3"@[5] == 'o' && "put_loc3"@[6] == 'c' && "put_loc3"@[7] == '3'
    &&& "put_loc8"@.len() == 8
    &&& "put_loc8"@[0] == 'p' && "put_loc8"@[1] == 'u' && "put_loc8"@[2] == 't' && "put_loc8"@[3] == '_'
    &&& "put_loc8"@[4] == 'l' && "put_loc8"@[5] == 'o' && "put_loc8"@[6] == 'c' && "put_loc8"@[7] == '8'
    &&& "return"@.len() == 6
    &&& "return"@[0] == 'r' && "return"@[1] == 'e' && "return"@[2] == 't' && "return"@[3] == 'u'
    &&& "return"@[4] == 'r' && "return"@[5] == 'n'
    &&& "return_undef"@.len() == 12
    &&& "return_undef"@[0] == 'r' && "return_undef"@[1] == 'e' && "return_undef"@[2] == 't' && "return_undef"@[3] == 'u'
    &&& "return_undef"@[4] == 'r' && "return_undef"@[5] == 'n' && "return_undef"@[6] == '_' && "return_undef"@[7] == 'u'
    &&& "return_undef"@[8] == 'n' && "return_undef"@[9] == 'd' && "return_undef"@[10] == 'e' && "return_undef"@[11] == 'f'
    &&& "sar"@.len() == 3
    &&& "sar"@[0] == 's' && "sar"@[1] == 'a' && "sar"@[2] == 'r'
    &&& "set_arg"@.len() == 7
    &&& "set_arg"@[0] == 's' && "set_arg"@[1] == 'e' && "set_arg"@[2] == 't' && "set_arg"@[3] == '_'
    &&& "set_arg"@[4] == 'a' && "set_arg"@[5] == 'r' && "set_arg"@[6] == 'g'
    &&& "set_arg0"@.len() == 8
    &&& "set_arg0"@[0] == 's' && "set_arg0"@[1] == 'e' && "set_arg0"@[2] == 't' && "set_arg0"@[3] == '_'
    &&& "set_arg0"@[4] == 'a' && "set_arg0"@[5] == 'r' && "set_arg0"@[6] == 'g' && "set_arg0"@[7] == '0'
    &&& "set_arg1"@.len() == 8
    &&& "set_arg1"@[0] == 's' && "set_arg1"@[1] == 'e' && "set_arg1"@[2] == 't' && "set_arg1"@[3] == '_'
    &&& "set_arg1"@[4] == 'a' && "set_arg1"@[5] == 'r' && "set_arg1"@[6] == 'g' && "set_arg1"@[7] == '1'
    &&& "set_arg2"@.len() == 8
    &&& "set_arg2"@[0] == 's' && "set_arg2"@[1] == 'e' && "set_arg2"@[2] == 't' && "set_arg2"@[3] == '_'
    &&& "set_arg2"@[4] == 'a' && "set_arg2"@[5] == 'r' && "set_arg2"@[6] == 'g' && "set_arg2"@[7] == '2'
    &&& "set_arg3"@.len() == 8
    &&& "set_arg3"@[0] == 's' && "set_arg3"@[1] == 'e' && "set_arg3"@[2] == 't' && "set_arg3"@[3] == '_'
    &&& "set_arg3"@[4] == 'a' && "set_arg3"@[5] == 'r' && "set_arg3"@[6] == 'g' && "set_arg3"@[7] == '3'
    &&& "set_loc"@.len() == 7
    &&& "set_loc"@[0] == 's' && "set_loc"@[1] == 'e' && "set_loc"@[2] == 't' && "set_loc"@[3] == '_'
    &&& "set_loc"@[4] == 'l' && "set_loc"@[5] == 'o' && "set_loc"@[6] == 'c'
    &&& "set_loc0"@.len() == 8
    &&& "set_loc0"@[0] == 's' && "set_loc0"@[1] == 'e' && "set_loc0"@[2] == 't' && "set_loc0"@[3] == '_'
    &&& "set_loc0"@[4] == 'l' && "set_loc0"@[5] == 'o' && "set_loc0"@[6] == 'c' && "set_loc0"@[7] == '0'
    &&& "set_loc1"@.len() == 8
    &&& "set_loc1"@[0] == 's' && "set_loc1"@[1] == 'e' && "set_loc1"@[2] == 't' && "set_loc1"@[3] == '_'
    &&& "set_loc1"@[4] == 'l' && "set_loc1"@[5] == 'o' && "set_loc1"@[6] == 'c' && "set_loc1"@[7] == '1'
    &&& "set_loc2"@.len() == 8
    &&& "set_loc2"@[0] == 's' && "set_loc2"@[1] == 'e' && "set_loc2"@[2] == 't' && "set_loc2"@[3] == '_'
    &&& "set_loc2"@[4] == 'l' && "set_loc2"@[5] == 'o' && "set_loc2"@[6] == 'c' && "set_loc2"@[7] == '2'
    &&& "set_loc3"@.len() == 8
    &&& "set_loc3"@[0] == 's' && "set_loc3"@[1] == 'e' && "set_loc3"@[2] == 't' && "set_loc3"@[3] == '_'
    &&& "set_loc3"@[4] == 'l' && "set_loc3"@[5] == 'o' && "set_loc3"@[6] == 'c' && "set_loc3"@[7] == '3'
    &&& "set_loc8"@.len() == 8
    &&& "set_loc8"@[0] == 's' && "set_loc8"@[1] == 'e' && "set_loc8"@[2] == 't' && "set_loc8"@[3] == '_'
    &&& "set_loc8"@[4] == 'l' && "set_loc8"@[5] == 'o' && "set_loc8"@[6] == 'c' && "set_loc8"@[7] == '8'
    &&& "set_loc_uninitialized"@.len() == 21
    &&& "set_loc_uninitialized"@[0] == 's' && "set_loc_uninitialized"@[1] == 'e' && "set_loc_uninitialized"@[2] == 't' && "set_loc_uninitialized"@[3] == '_'
    &&& "set_loc_uninitialized"@[4] == 'l' && "set_loc_uninitialized"@[5] == 'o' && "set_loc_uninitialized"@[6] == 'c' && "set_loc_uninitialized"@[7] == '_'
    &&& "set_loc_uninitialized"@[8] == 'u' && "set_loc_uninitialized"@[9] == 'n' && "set_loc_uninitialized"@[10] == 'i' && "set_loc_uninitialized"@[11] == 'n'
    &&& "set_loc_uninitialized"@[12] == 'i' && "set_loc_uninitialized"@[13] == 't' && "set_loc_uninitialized"@[14] == 'i' && "set_loc_uninitialized"@[15] == 'a'
    &&& "set_loc_uninitialized"@[16] == 'l' && "set_loc_uninitialized"@[17] == 'i' && "set_loc_uninitialized"@[18] == 'z' && "set_loc_uninitialized"@[19] == 'e'
    &&& "set_loc_uninitialized"@[20] == 'd'
    &&& "shl"@.len() == 3
    &&& "shl"@[0] == 's' && "shl"@[1] == 'h' && "shl"@[2] == 'l'
    &&& "shr"@.len() == 3
    &&& "shr"@[0] == 's' && "shr"@[1] == 'h' && "shr"@[2] == 'r'
    &&& "strict_eq"@.len() == 9
    &&& "strict_eq"@[0] == 's' && "strict_eq"@[1] == 't' && "strict_eq"@[2] == 'r' && "strict_eq"@[3] == 'i'
    &&& "strict_eq"@[4] == 'c' && "strict_eq"@[5] == 't' && "strict_eq"@[6] == '_' && "strict_eq"@[7] == 'e'
    &&& "strict_eq"@[8] == 'q'
    &&& "strict_neq"@.len() == 10
    &&& "strict_neq"@[0] == 's' && "strict_neq"@[1] == 't' && "strict_neq"@[2] == 'r' && "strict_neq"@[3] == 'i'
    &&& "strict_neq"@[4] == 'c' && "strict_neq"@[5] == 't' && "strict_neq"@[6] == '_' && "strict_neq"@[7] == 'n'
    &&& "strict_neq"@[8] == 'e' && "strict_neq"@[9] == 'q'
    &&& "sub"@.len() == 3
    &&& "sub"@[0] == 's' && "sub"@[1] == 'u' && "sub"@[2] == 'b'
    &&& "tail_call"@.len() == 9
    &&& "tail_call"@[0] == 't' && "tail_call"@[1] == 'a' && "tail_call"@[2] == 'i' && "tail_call"@[3] == 'l'
    &&& "tail_call"@[4] == '_' && "tail_call"@[5] == 'c' && "tail_call"@[6] == 'a' && "tail_call"@[7] == 'l'
    &&& "tail_call"@[8] == 'l'
    &&& "to_propkey"@.len() == 10
    &&& "to_propkey"@[0] == 't' && "to_propkey"@[1] == 'o' && "to_propkey"@[2] == '_' && "to_propkey"@[3] == 'p'
    &&& "to_propkey"@[4] == 'r' && "to_propkey"@[5] == 'o' && "to_propkey"@[6] == 'p' && "to_propkey"@[7] == 'k'
    &&& "to_propkey"@[8] == 'e' && "to_propkey"@[9] == 'y'
    &&& "undefined"@.len() == 9
    &&& "undefined"@[0] == 'u' && "undefined"@[1] == 'n' && "undefined"@[2] == 'd' && "undefined"@[3] == 'e'
    &&& "undefined"@[4] == 'f' && "undefined"@[5] == 'i' && "undefined"@[6] == 'n' && "undefined"@[7] == 'e'
    &&& "undefined"@[8] == 'd'
    &&& "xor"@.len() == 3
    &&& "xor"@[0] == 'x' && "xor"@[1] == 'o' && "xor"@[2] == 'r'
}

/// So they are spelled.
pub proof fn spelling()
    ensures
        spelled(),
{
    reveal_strlit("add");
    reveal_strlit("add_loc");
    reveal_strlit("and");
    reveal_strlit("call");
    reveal_strlit("call0");
    reveal_strlit("call1");
    reveal_strlit("call2");
    reveal_strlit("call3");
    reveal_strlit("call_method");
    reveal_strlit("dec");
    reveal_strlit("dec_loc");
    reveal_strlit("div");
    reveal_strlit("drop");
    reveal_strlit("dup");
    reveal_strlit("eq");
    reveal_strlit("get_arg");
    reveal_strlit("get_arg0");
    reveal_strlit("get_arg1");
    reveal_strlit("get_arg2");
    reveal_strlit("get_arg3");
    reveal_strlit("get_array_el");
    reveal_strlit("get_field");
    reveal_strlit("get_field2");
    reveal_strlit("get_length");
    reveal_strlit("get_loc");
    reveal_strlit("get_loc0");
    reveal_strlit("get_loc1");
    reveal_strlit("get_loc2");
    reveal_strlit("get_loc3");
    reveal_strlit("get_loc8");
    reveal_strlit("get_loc0_loc1");
    reveal_strlit("get_var");
    reveal_strlit("goto");
    reveal_strlit("goto16");
    reveal_strlit("goto8");
    reveal_strlit("gt");
    reveal_strlit("gte");
    reveal_strlit("if_false");
    reveal_strlit("if_false8");
    reveal_strlit("if_true");
    reveal_strlit("if_true8");
    reveal_strlit("inc");
    reveal_strlit("inc_loc");
    reveal_strlit("is_null");
    reveal_strlit("is_undefined");
    reveal_strlit("is_undefined_or_null");
    reveal_strlit("lnot");
    reveal_strlit("lt");
    reveal_strlit("lte");
    reveal_strlit("mod");
    reveal_strlit("mul");
    reveal_strlit("neg");
    reveal_strlit("neq");
    reveal_strlit("nop");
    reveal_strlit("not");
    reveal_strlit("null");
    reveal_strlit("or");
    reveal_strlit("plus");
    reveal_strlit("post_dec");
    reveal_strlit("post_inc");
    reveal_strlit("push_");
    reveal_strlit("push_0");
    reveal_strlit("push_1");
    reveal_strlit("push_2");
    reveal_strlit("push_3");
    reveal_strlit("push_4");
    reveal_strlit("push_5");
    reveal_strlit("push_6");
    reveal_strlit("push_7");
    reveal_strlit("push_const");
    reveal_strlit("push_const8");
    reveal_strlit("push_false");
    reveal_strlit("push_i16");
    reveal_strlit("push_i32");
    reveal_strlit("push_i8");
    reveal_strlit("push_minus1");
    reveal_strlit("push_true");
    reveal_strlit("put_arg");
    reveal_strlit("put_arg0");
    reveal_strlit("put_arg1");
    reveal_strlit("put_arg2");
    reveal_strlit("put_arg3");
    reveal_strlit("put_array_el");
    reveal_strlit("put_field");
    reveal_strlit("put_loc");
    reveal_strlit("put_loc0");
    reveal_strlit("put_loc1");
    reveal_strlit("put_loc2");
    reveal_strlit("put_loc3");
    reveal_strlit("put_loc8");
    reveal_strlit("return");
    reveal_strlit("return_undef");
    reveal_strlit("sar");
    reveal_strlit("set_arg");
    reveal_strlit("set_arg0");
    reveal_strlit("set_arg1");
    reveal_strlit("set_arg2");
    reveal_strlit("set_arg3");
    reveal_strlit("set_loc");
    reveal_strlit("set_loc0");
    reveal_strlit("set_loc1");
    reveal_strlit("set_loc2");
    reveal_strlit("set_loc3");
    reveal_strlit("set_loc8");
    reveal_strlit("set_loc_uninitialized");
    reveal_strlit("shl");
    reveal_strlit("shr");
    reveal_strlit("strict_eq");
    reveal_strlit("strict_neq");
    reveal_strlit("sub");
    reveal_strlit("tail_call");
    reveal_strlit("to_propkey");
    reveal_strlit("undefined");
    reveal_strlit("xor");
}

} // verus!

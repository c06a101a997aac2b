//! The result types of the operators.
use crate::compat::waffle::ir::{FuncDecl, Module, Operator, Type, Value, OP_CALL};
use std::convert::Infallible;
use vstd::prelude::*;

verus! {

/// The opcode of `call_indirect`.
pub const OP_CALL_INDIRECT: u32 = 0x11;

/// The opcode of `select`.
pub const OP_SELECT: u32 = 0x1b;

/// The opcode of `select` with a type.
pub const OP_TYPED_SELECT: u32 = 0x1c;

/// The opcode of `global.get`.
pub const OP_GLOBAL_GET: u32 = 0x23;

/// The opcode of `table.get`.
pub const OP_TABLE_GET: u32 = 0x25;

/// The code of a reference to a function of one signature that is never null.
pub const REF: u64 = 0x64;

/// The code of a reference to a function of one signature that may be null.
pub const REF_NULL: u64 = 0x63;

/// The value type that the code `code` stands for in the binary format, where `index`
/// is the signature that a typed function reference names; nothing for a code that is
/// none of a value type.
pub open spec fn value_type(code: u64, index: u64) -> Option<Type> {
    if code == 0x7f {
        Some(Type::I32)
    } else if code == 0x7e {
        Some(Type::I64)
    } else if code == 0x7d {
        Some(Type::F32)
    } else if code == 0x7c {
        Some(Type::F64)
    } else if code == 0x7b {
        Some(Type::V128)
    } else if code == 0x70 {
        Some(Type::FuncRef)
    } else if code == REF && index <= u32::MAX {
        Some(Type::TypedFuncRef(false, index as u32))
    } else if code == REF_NULL && index <= u32::MAX {
        Some(Type::TypedFuncRef(true, index as u32))
    } else {
        None
    }
}

/// The result types of the operator with the opcode `opcode`, where they follow from
/// the opcode alone. Opcodes behind the prefix `0xfc` stand as `0xfc00` plus the number
/// behind the prefix.
pub open spec fn plain_outputs(opcode: u32) -> Option<Seq<Type>> {
    if opcode == 0x00 || opcode == 0x01 {
        // unreachable, nop
        Some(Seq::empty())
    } else if opcode == 0x24 || opcode == 0x26 {
        // global.set, table.set
        Some(Seq::empty())
    } else if 0x28 <= opcode <= 0x35 {
        // loads
        Some(
            seq![
                if opcode == 0x28 || 0x2c <= opcode <= 0x2f {
                    Type::I32
                } else if opcode == 0x29 || 0x30 <= opcode <= 0x35 {
                    Type::I64
                } else if opcode == 0x2a {
                    Type::F32
                } else {
                    Type::F64
                },
            ],
        )
    } else if 0x36 <= opcode <= 0x3e {
        // stores
        Some(Seq::empty())
    } else if opcode == 0x3f || opcode == 0x40 {
        // memory.size, memory.grow
        Some(seq![Type::I32])
    } else if opcode == 0x41 {
        Some(seq![Type::I32])
    } else if opcode == 0x42 {
        Some(seq![Type::I64])
    } else if opcode == 0x43 {
        Some(seq![Type::F32])
    } else if opcode == 0x44 {
        Some(seq![Type::F64])
    } else if 0x45 <= opcode <= 0x66 {
        // tests and comparisons
        Some(seq![Type::I32])
    } else if 0x67 <= opcode <= 0x78 {
        Some(seq![Type::I32])
    } else if 0x79 <= opcode <= 0x8a {
        Some(seq![Type::I64])
    } else if 0x8b <= opcode <= 0x98 {
        Some(seq![Type::F32])
    } else if 0x99 <= opcode <= 0xa6 {
        Some(seq![Type::F64])
    } else if 0xa7 <= opcode <= 0xab {
        // i32.wrap_i64, i32.trunc_*
        Some(seq![Type::I32])
    } else if 0xac <= opcode <= 0xb1 {
        // i64.extend_i32_*, i64.trunc_*
        Some(seq![Type::I64])
    } else if 0xb2 <= opcode <= 0xb6 {
        // f32.convert_*, f32.demote_f64
        Some(seq![Type::F32])
    } else if 0xb7 <= opcode <= 0xbb {
        // f64.convert_*, f64.promote_f32
        Some(seq![Type::F64])
    } else if opcode == 0xbc {
        Some(seq![Type::I32])
    } else if opcode == 0xbd {
        Some(seq![Type::I64])
    } else if opcode == 0xbe {
        Some(seq![Type::F32])
    } else if opcode == 0xbf {
        Some(seq![Type::F64])
    } else if opcode == 0xc0 || opcode == 0xc1 {
        // i32.extend8_s, i32.extend16_s
        Some(seq![Type::I32])
    } else if 0xc2 <= opcode <= 0xc4 {
        Some(seq![Type::I64])
    } else if 0xfc00 <= opcode <= 0xfc03 {
        // i32.trunc_sat_*
        Some(seq![Type::I32])
    } else if 0xfc04 <= opcode <= 0xfc07 {
        // i64.trunc_sat_*
        Some(seq![Type::I64])
    } else if opcode == 0xfc0f {
        // table.grow
        Some(Seq::empty())
    } else if opcode == 0xfc10 {
        // table.size
        Some(seq![Type::I32])
    } else {
        None
    }
}

/// Whether the result types of `op` are known in `module` with the operands `op_stack`:
/// the opcode is one of the table, what the operator names is in the module, a `select`
/// has its two alternatives on the stack, and a `select` with a type names a value type.
pub open spec fn outputs_known(module: &Module, op_stack: Seq<(Type, Value)>, op: Operator) -> bool {
    if op.opcode == OP_CALL {
        &&& op.first < module.funcs@.len()
        &&& module.funcs@[op.first as int].sig_spec() matches Some(sig)
        &&& sig < module.signatures@.len()
    } else if op.opcode == OP_CALL_INDIRECT {
        op.first < module.signatures@.len()
    } else if op.opcode == OP_SELECT {
        op_stack.len() >= 2
    } else if op.opcode == OP_TYPED_SELECT {
        value_type(op.first, op.second) is Some
    } else if op.opcode == OP_GLOBAL_GET {
        op.first < module.globals@.len()
    } else if op.opcode == OP_TABLE_GET {
        op.first < module.tables@.len()
    } else {
        plain_outputs(op.opcode) is Some
    }
}

/// The result types of `op` in `module` with the operands `op_stack`: those of the
/// signature for a call, the type of the alternatives for a `select`, the type of the
/// global or of the table's elements for a read of one, and what the opcode says for
/// every other operator.
pub open spec fn outputs_of(module: &Module, op_stack: Seq<(Type, Value)>, op: Operator) -> Seq<Type> {
    if op.opcode == OP_CALL {
        module.signatures@[module.funcs@[op.first as int].sig_spec()->0 as int].returns@
    } else if op.opcode == OP_CALL_INDIRECT {
        module.signatures@[op.first as int].returns@
    } else if op.opcode == OP_SELECT {
        seq![op_stack[op_stack.len() - 2].0]
    } else if op.opcode == OP_TYPED_SELECT {
        seq![value_type(op.first, op.second)->0]
    } else if op.opcode == OP_GLOBAL_GET {
        seq![module.globals@[op.first as int].ty]
    } else if op.opcode == OP_TABLE_GET {
        seq![module.tables@[op.first as int].ty]
    } else {
        plain_outputs(op.opcode)->0
    }
}

/// The index that the immediate `x` stands for, in a list of `len` items.
fn index_of(x: u64, len: usize) -> (i: usize)
    requires
        x < len,
    ensures
        i == x,
{
    x as usize
}

/// The list that holds `t` alone.
fn one(t: Type) -> (r: Vec<Type>)
    ensures
        r@ == seq![t],
{
    let mut r: Vec<Type> = Vec::new();
    r.push(t);
    r
}

/// The value type that the code `code` stands for in the binary format, where `index`
/// is the signature that a typed function reference names.
pub fn type_of_code(code: u64, index: u64) -> (t: Option<Type>)
    ensures
        t == value_type(code, index),
{
    if code == 0x7f {
        Some(Type::I32)
    } else if code == 0x7e {
        Some(Type::I64)
    } else if code == 0x7d {
        Some(Type::F32)
    } else if code == 0x7c {
        Some(Type::F64)
    } else if code == 0x7b {
        Some(Type::V128)
    } else if code == 0x70 {
        Some(Type::FuncRef)
    } else if code == REF && index <= 0xffff_ffff {
        Some(Type::TypedFuncRef(false, index as u32))
    } else if code == REF_NULL && index <= 0xffff_ffff {
        Some(Type::TypedFuncRef(true, index as u32))
    } else {
        None
    }
}

/// The result types of `op` in `module` with the operands `op_stack`.
pub fn op_outputs(module: &Module, op_stack: &[(Type, Value)], op: &Operator) -> (r: Result<
    Vec<Type>,
    Infallible,
>)
    requires
        outputs_known(module, op_stack@, *op),
    ensures
        r matches Ok(tys) && tys@ == outputs_of(module, op_stack@, *op),
{
    let c = op.opcode;
    if c == OP_CALL {
        let sig = module.funcs[index_of(op.first, module.funcs.len())].sig();
        let tys = module.signatures[sig].returns.clone();
        assert(tys@ =~= module.signatures@[sig as int].returns@);
        Ok(tys)
    } else if c == OP_CALL_INDIRECT {
        let tys = module.signatures[index_of(op.first, module.signatures.len())].returns.clone();
        assert(tys@ =~= module.signatures@[op.first as int].returns@);
        Ok(tys)
    } else if c == OP_SELECT {
        Ok(one(op_stack[op_stack.len() - 2].0))
    } else if c == OP_TYPED_SELECT {
        Ok(one(type_of_code(op.first, op.second).unwrap()))
    } else if c == OP_GLOBAL_GET {
        Ok(one(module.globals[index_of(op.first, module.globals.len())].ty))
    } else if c == OP_TABLE_GET {
        Ok(one(module.tables[index_of(op.first, module.tables.len())].ty))
    } else if c == 0x00 || c == 0x01 || c == 0x24 || c == 0x26 || (0x36 <= c && c <= 0x3e) || c
        == 0xfc0f {
        Ok(Vec::new())
    } else if c == 0x28 || (0x2c <= c && c <= 0x2f) {
        Ok(one(Type::I32))
    } else if c == 0x29 || (0x30 <= c && c <= 0x35) {
        Ok(one(Type::I64))
    } else if c == 0x2a {
        Ok(one(Type::F32))
    } else if c == 0x2b {
        Ok(one(Type::F64))
    } else if c == 0x3f || c == 0x40 || c == 0x41 || (0x45 <= c && c <= 0x78) || (0xa7 <= c && c
        <= 0xab) || c == 0xbc || c == 0xc0 || c == 0xc1 || (0xfc00 <= c && c <= 0xfc03) || c
        == 0xfc10 {
        Ok(one(Type::I32))
    } else if c == 0x42 || (0x79 <= c && c <= 0x8a) || (0xac <= c && c <= 0xb1) || c == 0xbd || (
    0xc2 <= c && c <= 0xc4) || (0xfc04 <= c && c <= 0xfc07) {
        Ok(one(Type::I64))
    } else if c == 0x43 || (0x8b <= c && c <= 0x98) || (0xb2 <= c && c <= 0xb6) || c == 0xbe {
        Ok(one(Type::F32))
    } else {
        Ok(one(Type::F64))
    }
}

} // verus!

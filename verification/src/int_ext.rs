//! The integer extension: integers of 1, 2, 4, ... 64 bits, their
//! constants and their arithmetic, with the lowerings for them.
use vstd::prelude::*;
use vstd::arithmetic::power2::pow2;
use vstd::arithmetic::power2::lemma2_to64;
use crate::layout::Layout;
use crate::layout::TargetType;
use crate::layout::row_view;
use crate::layout::lemma_row_view;
use crate::ir::views;
use crate::ir::Constant;
use crate::ir::ConstantView;
use crate::ir::Operand;
use crate::ir::OperandView;
use crate::ir::Instr;
use crate::ir::InstrView;
use crate::ir::BinOp;
use crate::check::int_fits;
use crate::types::Type;
use crate::types::TypeView;
use crate::types::TypeArg;
use crate::types::TypeArgView;
use crate::types::CustomType;
use crate::types::CustomTypeView;
use crate::types::FunctionType;
use crate::types::args_view;
use crate::types::type_row_view;
use crate::types::lemma_type_row_view;
use crate::ops::Value;
use crate::ops::CustomConst;
use crate::ops::CustomConstView;
use crate::ops::ExtensionOp;
use crate::ops::ExtensionOpView;
use crate::extension::ExtensionLowering;
use crate::extension::ExtensionOpRegistry;
use crate::extension::Registration;
use crate::extension::LoweredOp;
use crate::extension::LoweredOpView;

verus! {

/// The greatest logarithm of a width: integers have up to 64 bits.
pub const LOG_WIDTH_MAX: u64 = 6;

/// The width in bits of the integers of logarithmic width `log_width`.
pub open spec fn int_bits(log_width: u64) -> nat {
    pow2(log_width as nat)
}

/// The width in bits of the integers of logarithmic width `log_width`,
/// or `None` where there are no such integers.
pub fn width_bits(log_width: u64) -> (r: Option<u32>)
    ensures
        log_width <= LOG_WIDTH_MAX ==> r == Some(int_bits(log_width) as u32) && int_bits(log_width) <= 64,
        log_width > LOG_WIDTH_MAX ==> r is None,
{
    proof {
        lemma2_to64();
    }
    if log_width == 0 {
        Some(1)
    } else if log_width == 1 {
        Some(2)
    } else if log_width == 2 {
        Some(4)
    } else if log_width == 3 {
        Some(8)
    } else if log_width == 4 {
        Some(16)
    } else if log_width == 5 {
        Some(32)
    } else if log_width == 6 {
        Some(64)
    } else {
        None
    }
}

/// The name of the extension that defines the integer types.
pub fn int_types_extension() -> (r: String)
    ensures
        r@ == "arithmetic.int.types"@,
{
    String::from_str("arithmetic.int.types")
}

/// The name of the extension that defines the integer operations.
pub fn int_ops_extension() -> (r: String)
    ensures
        r@ == "arithmetic.int"@,
{
    String::from_str("arithmetic.int")
}

/// The model of the type of the integers of logarithmic width
/// `log_width`.
pub open spec fn int_custom_type(log_width: u64) -> CustomTypeView {
    CustomTypeView {
        extension: "arithmetic.int.types"@,
        name: "int"@,
        args: seq![TypeArgView::BoundedNat(log_width)],
    }
}

/// The opaque type of the integers of logarithmic width `log_width`.
pub fn int_custom(log_width: u64) -> (r: CustomType)
    ensures
        r@ == int_custom_type(log_width),
{
    let mut args: Vec<TypeArg> = Vec::new();
    args.push(TypeArg::BoundedNat(log_width));
    assert(args_view(args) =~= seq![TypeArgView::BoundedNat(log_width)]);
    CustomType { extension: int_types_extension(), name: String::from_str("int"), args }
}

/// The type of the integers of logarithmic width `log_width`.
pub fn int_type(log_width: u64) -> (r: Type)
    ensures
        r@ == TypeView::Extension(int_custom_type(log_width)),
{
    Type::Extension(int_custom(log_width))
}

/// The words of the integer constant `value` of logarithmic width
/// `log_width`.
pub open spec fn int_payload(log_width: u64, value: u64) -> Seq<u64> {
    seq![log_width, value]
}

/// The unsigned integer constant `value` of logarithmic width
/// `log_width`, or `None` where `value` does not fit the width or there
/// is no such width.
pub fn const_int_u(log_width: u64, value: u64) -> (r: Option<Value>)
    ensures
        match r {
            Some(v) => {
                &&& log_width <= LOG_WIDTH_MAX
                &&& (value as nat) < pow2(int_bits(log_width))
                &&& v matches Value::Extension(c)
                &&& c@ == (CustomConstView {
                    extension: "arithmetic.int.types"@,
                    name: "ConstInt"@,
                    ty: int_custom_type(log_width),
                    payload: int_payload(log_width, value),
                })
            },
            None => log_width > LOG_WIDTH_MAX || (value as nat) >= pow2(int_bits(log_width)),
        },
{
    let bits = match width_bits(log_width) {
        None => {
            return None;
        },
        Some(bits) => bits,
    };
    proof {
        lemma2_to64();
    }
    if !int_fits(bits, value) {
        return None;
    }
    let mut payload: Vec<u64> = Vec::new();
    payload.push(log_width);
    payload.push(value);
    assert(payload@ =~= int_payload(log_width, value));
    Some(
        Value::Extension(
            CustomConst {
                extension: int_types_extension(),
                name: String::from_str("ConstInt"),
                ty: int_custom(log_width),
                payload,
            },
        ),
    )
}

/// The word that holds the signed integer `value` in two's complement
/// of `bits` bits.
pub open spec fn twos_complement(bits: nat, value: int) -> int {
    if value >= 0 {
        value
    } else {
        pow2(bits) + value
    }
}

/// The signed integer constant `value` of logarithmic width `log_width`,
/// held in two's complement, or `None` where `value` does not fit the
/// width or there is no such width.
pub fn const_int_s(log_width: u64, value: i64) -> (r: Option<Value>)
    ensures
        match r {
            Some(v) => {
                &&& log_width <= LOG_WIDTH_MAX
                &&& -pow2((int_bits(log_width) - 1) as nat) <= value < pow2((int_bits(log_width) - 1) as nat)
                &&& v matches Value::Extension(c)
                &&& c@ == (CustomConstView {
                    extension: "arithmetic.int.types"@,
                    name: "ConstInt"@,
                    ty: int_custom_type(log_width),
                    payload: int_payload(
                        log_width,
                        twos_complement(int_bits(log_width), value as int) as u64,
                    ),
                })
            },
            None => log_width > LOG_WIDTH_MAX || !(-pow2((int_bits(log_width) - 1) as nat) <= value < pow2(
                (int_bits(log_width) - 1) as nat,
            )),
        },
{
    let bits = match width_bits(log_width) {
        None => {
            return None;
        },
        Some(bits) => bits,
    };
    proof {
        lemma2_to64();
    }
    // half = 2^(bits - 1), full = 2^bits
    let half: i128 = if bits == 1 {
        1
    } else if bits == 2 {
        2
    } else if bits == 4 {
        8
    } else if bits == 8 {
        0x80
    } else if bits == 16 {
        0x8000
    } else if bits == 32 {
        0x8000_0000
    } else {
        0x8000_0000_0000_0000
    };
    assert(half == pow2((int_bits(log_width) - 1) as nat)) by {
        lemma2_to64();
        vstd::arithmetic::power2::lemma_pow2_unfold(64);
    }
    let v = value as i128;
    if v < -half || v >= half {
        return None;
    }
    assert(pow2(int_bits(log_width)) == 2 * half) by {
        vstd::arithmetic::power2::lemma_pow2_unfold(int_bits(log_width));
    }
    let word: u64 = if v >= 0 {
        v as u64
    } else {
        (2 * half + v) as u64
    };
    match const_int_u(log_width, word) {
        Some(c) => Some(c),
        None => None,
    }
}

/// The part that a lowering of the integer extension plays.
#[derive(Debug, Clone, Copy, PartialEq, Eq, Structural)]
pub enum IntLowering {
    /// Lowers the integer types.
    Type,
    /// Lowers the integer constants.
    Const,
    /// Lowers the operation that applies this operator.
    Op(BinOp),
}

/// The logarithmic width that a list of arguments names: its one
/// argument, a natural number up to `LOG_WIDTH_MAX`.
pub open spec fn log_width_of(args: Seq<TypeArgView>) -> Option<u64> {
    if args.len() == 1 {
        match args[0] {
            TypeArgView::BoundedNat(n) => if n <= LOG_WIDTH_MAX {
                Some(n)
            } else {
                None
            },
            _ => None,
        }
    } else {
        None
    }
}

/// Computes `log_width_of`.
pub fn read_log_width(args: &Vec<TypeArg>) -> (r: Option<u64>)
    ensures
        r == log_width_of(args_view(*args)),
{
    if args.len() == 1 {
        match &args[0] {
            TypeArg::BoundedNat(n) => if *n <= LOG_WIDTH_MAX {
                Some(*n)
            } else {
                None
            },
            _ => None,
        }
    } else {
        None
    }
}

impl ExtensionLowering for IntLowering {
    /// An integer type of logarithmic width `n` is the integer of `2^n`
    /// bits.
    open spec fn type_layout(&self, ty: CustomTypeView) -> Option<Layout> {
        match (*self, log_width_of(ty.args)) {
            (IntLowering::Type, Some(n)) => Some(Layout::Int(int_bits(n))),
            _ => None,
        }
    }

    fn lower_type(&self, ty: &CustomType) -> (r: Option<TargetType>) {
        match (self, read_log_width(&ty.args)) {
            (IntLowering::Type, Some(n)) => match width_bits(n) {
                Some(bits) => Some(TargetType::Int(bits)),
                None => None,
            },
            _ => None,
        }
    }

    /// An integer constant whose words are a logarithmic width `n` and a
    /// value that fits `2^n` bits is that value as an integer of `2^n`
    /// bits.
    open spec fn constant(&self, c: CustomConstView) -> Option<ConstantView> {
        if *self == IntLowering::Const && c.payload.len() == 2 && c.payload[0] <= LOG_WIDTH_MAX && (
        int_bits(c.payload[0]) >= 64 || (c.payload[1] as nat) < pow2(int_bits(c.payload[0]))) {
            Some(ConstantView::Int(int_bits(c.payload[0]) as u32, c.payload[1]))
        } else {
            None
        }
    }

    fn lower_constant(&self, c: &CustomConst) -> (r: Option<Constant>) {
        match self {
            IntLowering::Const => {
                if c.payload.len() != 2 {
                    return None;
                }
                match width_bits(c.payload[0]) {
                    Some(bits) => if int_fits(bits, c.payload[1]) {
                        Some(Constant::Int { bits, value: c.payload[1] })
                    } else {
                        None
                    },
                    None => None,
                }
            },
            _ => None,
        }
    }

    /// A binary operation on two integers of the width that its one
    /// argument names is one instruction that applies the operator.
    open spec fn op_code(&self, op: ExtensionOpView, inputs: Seq<OperandView>, layouts: Seq<Layout>, base: nat) -> Option<
        LoweredOpView,
    > {
        match (*self, log_width_of(op.args)) {
            (IntLowering::Op(binop), Some(n)) => if inputs.len() == 2 && layouts == seq![
                Layout::Int(int_bits(n)),
                Layout::Int(int_bits(n)),
            ] {
                Some(
                    LoweredOpView {
                        instrs: seq![
                            InstrView::Binary {
                                op: binop,
                                ty: Layout::Int(int_bits(n)),
                                lhs: inputs[0],
                                rhs: inputs[1],
                            },
                        ],
                        outputs: seq![OperandView::Local(base)],
                    },
                )
            } else {
                None
            },
            _ => None,
        }
    }

    fn lower_op(&self, op: &ExtensionOp, inputs: &Vec<Operand>, layouts: &Vec<TargetType>, base: usize) -> (r:
        Option<LoweredOp>) {
        proof {
            lemma_row_view(*layouts);
        }
        match (self, read_log_width(&op.args)) {
            (IntLowering::Op(binop), Some(n)) => {
                let bits = match width_bits(n) {
                    Some(bits) => bits,
                    None => {
                        return None;
                    },
                };
                let ty = TargetType::Int(bits);
                if inputs.len() != 2 || layouts.len() != 2 {
                    assert(row_view(*layouts).len() != 2 || inputs@.len() != 2);
                    return None;
                }
                if !layouts[0].same(&ty) || !layouts[1].same(&ty) {
                    assert(row_view(*layouts)[0] != ty@ || row_view(*layouts)[1] != ty@);
                    return None;
                }
                assert(row_view(*layouts) =~= seq![ty@, ty@]);
                let mut instrs: Vec<Instr> = Vec::new();
                instrs.push(
                    Instr::Binary { op: *binop, ty, lhs: inputs[0].duplicate(), rhs: inputs[1].duplicate() },
                );
                let mut outputs: Vec<Operand> = Vec::new();
                outputs.push(Operand::Local(base));
                let r = LoweredOp { instrs, outputs };
                proof {
                    assert(r@.instrs =~= seq![
                        InstrView::Binary {
                            op: *binop,
                            ty: Layout::Int(int_bits(n)),
                            lhs: views(inputs@)[0],
                            rhs: views(inputs@)[1],
                        },
                    ]);
                    assert(r@.outputs =~= seq![OperandView::Local(base as nat)]);
                }
                Some(r)
            },
            _ => None,
        }
    }
}

/// The binary operation `name` on integers of logarithmic width
/// `log_width`, as a node records it.
pub fn int_op(name: String, log_width: u64) -> (r: ExtensionOp)
    ensures
        r@ == (ExtensionOpView {
            extension: "arithmetic.int"@,
            name: name@,
            args: seq![TypeArgView::BoundedNat(log_width)],
            input: seq![
                TypeView::Extension(int_custom_type(log_width)),
                TypeView::Extension(int_custom_type(log_width)),
            ],
            output: seq![TypeView::Extension(int_custom_type(log_width))],
        }),
{
    let mut args: Vec<TypeArg> = Vec::new();
    args.push(TypeArg::BoundedNat(log_width));
    assert(args_view(args) =~= seq![TypeArgView::BoundedNat(log_width)]);
    let mut input: Vec<Type> = Vec::new();
    input.push(int_type(log_width));
    input.push(int_type(log_width));
    let mut output: Vec<Type> = Vec::new();
    output.push(int_type(log_width));
    proof {
        lemma_type_row_view(input);
        lemma_type_row_view(output);
        assert(type_row_view(input) =~= seq![
            TypeView::Extension(int_custom_type(log_width)),
            TypeView::Extension(int_custom_type(log_width)),
        ]);
        assert(type_row_view(output) =~= seq![TypeView::Extension(int_custom_type(log_width))]);
    }
    ExtensionOp { extension: int_ops_extension(), name, args, signature: FunctionType { input, output } }
}

/// Whether `entry` registers `lowering` under `(extension, name)`.
pub open spec fn registers(entry: Registration<IntLowering>, extension: Seq<char>, name: Seq<char>, lowering: IntLowering) -> bool {
    entry.extension@ == extension && entry.name@ == name && entry.lowering == lowering
}

/// Registers the lowerings of the integer extension after those that are
/// registered: of the type `int`, of the constant `ConstInt`, and of the
/// operations `iadd`, `isub` and `imul`.
pub fn add_int_extensions(registry: ExtensionOpRegistry<IntLowering>) -> (r: ExtensionOpRegistry<IntLowering>)
    ensures
        r.types@.len() == registry.types@.len() + 1,
        r.types@.drop_last() == registry.types@,
        registers(r.types@.last(), "arithmetic.int.types"@, "int"@, IntLowering::Type),
        r.constants@.len() == registry.constants@.len() + 1,
        r.constants@.drop_last() == registry.constants@,
        registers(r.constants@.last(), "arithmetic.int.types"@, "ConstInt"@, IntLowering::Const),
        r.ops@.len() == registry.ops@.len() + 3,
        r.ops@.take(registry.ops@.len() as int) == registry.ops@,
        registers(r.ops@[registry.ops@.len() as int], "arithmetic.int"@, "iadd"@, IntLowering::Op(BinOp::Add)),
        registers(r.ops@[registry.ops@.len() as int + 1], "arithmetic.int"@, "isub"@, IntLowering::Op(BinOp::Sub)),
        registers(r.ops@[registry.ops@.len() as int + 2], "arithmetic.int"@, "imul"@, IntLowering::Op(BinOp::Mul)),
{
    let mut r = registry;
    r.register_type(int_types_extension(), String::from_str("int"), IntLowering::Type);
    r.register_constant(int_types_extension(), String::from_str("ConstInt"), IntLowering::Const);
    r.register(int_ops_extension(), String::from_str("iadd"), IntLowering::Op(BinOp::Add));
    r.register(int_ops_extension(), String::from_str("isub"), IntLowering::Op(BinOp::Sub));
    r.register(int_ops_extension(), String::from_str("imul"), IntLowering::Op(BinOp::Mul));
    proof {
        assert(r.types@.drop_last() =~= registry.types@);
        assert(r.constants@.drop_last() =~= registry.constants@);
        assert(r.ops@.take(registry.ops@.len() as int) =~= registry.ops@);
    }
    r
}

} // verus!

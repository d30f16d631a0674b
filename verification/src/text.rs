//! The textual form of the target IR. Every function here takes the text
//! written so far and returns it with more appended.
use vstd::prelude::*;
use crate::layout::Layout;
use crate::layout::TargetType;
use crate::layout::row_view;
use crate::layout::rows_view;
use crate::layout::lemma_row_view;
use crate::layout::lemma_rows_view;
use crate::ir::views;
use crate::ir::nats;
use crate::ir::Constant;
use crate::ir::ConstantView;
use crate::ir::constants_view;
use crate::ir::lemma_constants_view;
use crate::ir::Operand;
use crate::ir::OperandView;
use crate::ir::Instr;
use crate::ir::InstrView;
use crate::ir::BinOp;
use crate::ir::Terminator;
use crate::ir::TerminatorView;
use crate::ir::Block;
use crate::ir::BlockView;
use crate::ir::Function;
use crate::ir::FunctionView;
use crate::ir::Module;
use crate::ir::ModuleView;

verus! {

/// The digit `d`.
pub open spec fn digit_text(d: nat) -> Seq<char> {
    if d == 0 {
        "0"@
    } else if d == 1 {
        "1"@
    } else if d == 2 {
        "2"@
    } else if d == 3 {
        "3"@
    } else if d == 4 {
        "4"@
    } else if d == 5 {
        "5"@
    } else if d == 6 {
        "6"@
    } else if d == 7 {
        "7"@
    } else if d == 8 {
        "8"@
    } else {
        "9"@
    }
}

/// The number `n` in decimal digits.
pub open spec fn number_text(acc: Seq<char>, n: nat) -> Seq<char>
    decreases n,
{
    if n < 10 {
        acc + digit_text(n)
    } else {
        number_text(acc, n / 10) + digit_text(n % 10)
    }
}

/// Writes a digit.
fn push_digit(out: &mut String, d: u64)
    requires
        d < 10,
    ensures
        final(out)@ == old(out)@ + digit_text(d as nat),
{
    if d == 0 {
        out.append("0");
    } else if d == 1 {
        out.append("1");
    } else if d == 2 {
        out.append("2");
    } else if d == 3 {
        out.append("3");
    } else if d == 4 {
        out.append("4");
    } else if d == 5 {
        out.append("5");
    } else if d == 6 {
        out.append("6");
    } else if d == 7 {
        out.append("7");
    } else if d == 8 {
        out.append("8");
    } else {
        out.append("9");
    }
}

/// Writes a number in decimal digits.
pub fn push_number(out: &mut String, n: u64)
    ensures
        final(out)@ == number_text(old(out)@, n as nat),
    decreases n,
{
    if n >= 10 {
        push_number(out, n / 10);
    }
    push_digit(out, n % 10);
}

/// Writes an index in decimal digits.
pub fn push_index(out: &mut String, n: usize)
    ensures
        final(out)@ == number_text(old(out)@, n as nat),
{
    push_number(out, n as u64);
}

/// The types of `row` from position `i` on, separated by commas.
pub open spec fn row_text(acc: Seq<char>, row: Seq<Layout>, i: nat) -> Seq<char>
    decreases row, row.len() - i,
{
    if i >= row.len() {
        acc
    } else {
        row_text(type_text(if i > 0 {
            acc + ", "@
        } else {
            acc
        }, row[i as int]), row, i + 1)
    }
}

/// The variants of `rows` from position `i` on, each after a bar.
pub open spec fn variants_text(acc: Seq<char>, rows: Seq<Seq<Layout>>, i: nat) -> Seq<char>
    decreases rows, rows.len() - i,
{
    if i >= rows.len() {
        acc
    } else {
        variants_text(row_text(acc + " | {"@, rows[i as int], 0) + "}"@, rows, i + 1)
    }
}

/// A type: `i` and the width of an integer; the fields of an aggregate
/// in braces; the discriminant and the variants of a tagged union in
/// angle brackets; `fn`, the parameters and the results of a function
/// pointer.
pub open spec fn type_text(acc: Seq<char>, t: Layout) -> Seq<char>
    decreases t, 0nat,
{
    match t {
        Layout::Int(bits) => number_text(acc + "i"@, bits),
        Layout::Struct(fields) => row_text(acc + "{"@, fields, 0) + "}"@,
        Layout::Union(bits, variants) => variants_text(number_text(acc + "<i"@, bits), variants, 0) + ">"@,
        Layout::FuncPtr(params, results) => row_text(row_text(acc + "fn("@, params, 0) + ") -> ("@, results, 0)
            + ")"@,
    }
}

/// Writes the types of a row, separated by commas.
#[verifier::loop_isolation(false)]
pub fn push_row(out: &mut String, row: &Vec<TargetType>)
    ensures
        final(out)@ == row_text(old(out)@, row_view(*row), 0),
    decreases row, 1nat,
{
    proof {
        lemma_row_view(*row);
    }
    let mut i: usize = 0;
    while i < row.len()
        invariant
            i <= row.len(),
            row_text(old(out)@, row_view(*row), 0) == row_text(out@, row_view(*row), i as nat),
        decreases row.len() - i,
    {
        if i > 0 {
            out.append(", ");
        }
        push_type(out, &row[i]);
        i += 1;
    }
}

/// Writes the variants of a tagged union.
#[verifier::loop_isolation(false)]
pub fn push_variants(out: &mut String, rows: &Vec<Vec<TargetType>>)
    ensures
        final(out)@ == variants_text(old(out)@, rows_view(*rows), 0),
    decreases rows, 1nat,
{
    proof {
        lemma_rows_view(*rows);
    }
    let mut i: usize = 0;
    while i < rows.len()
        invariant
            i <= rows.len(),
            variants_text(old(out)@, rows_view(*rows), 0) == variants_text(out@, rows_view(*rows), i as nat),
        decreases rows.len() - i,
    {
        out.append(" | {");
        push_row(out, &rows[i]);
        out.append("}");
        i += 1;
    }
}

/// Writes a type.
pub fn push_type(out: &mut String, t: &TargetType)
    ensures
        final(out)@ == type_text(old(out)@, t@),
    decreases t, 0nat,
{
    match t {
        TargetType::Int(bits) => {
            out.append("i");
            push_number(out, *bits as u64);
        },
        TargetType::Struct(fields) => {
            out.append("{");
            push_row(out, fields);
            out.append("}");
        },
        TargetType::Union { tag_bits, variants } => {
            out.append("<i");
            push_number(out, *tag_bits as u64);
            push_variants(out, variants);
            out.append(">");
        },
        TargetType::FuncPtr { params, results } => {
            out.append("fn(");
            push_row(out, params);
            out.append(") -> (");
            push_row(out, results);
            out.append(")");
        },
    }
}

/// The literals of `cs` from position `i` on, separated by commas.
pub open spec fn constants_text(acc: Seq<char>, cs: Seq<ConstantView>, i: nat) -> Seq<char>
    decreases cs, cs.len() - i,
{
    if i >= cs.len() {
        acc
    } else {
        constants_text(constant_text(if i > 0 {
            acc + ", "@
        } else {
            acc
        }, cs[i as int]), cs, i + 1)
    }
}

/// A literal: the type and the value of an integer; the fields of an
/// aggregate in braces.
pub open spec fn constant_text(acc: Seq<char>, c: ConstantView) -> Seq<char>
    decreases c, 0nat,
{
    match c {
        ConstantView::Int(bits, value) => number_text(number_text(acc + "i"@, bits as nat) + " "@, value as nat),
        ConstantView::Struct(fields) => constants_text(acc + "{"@, fields, 0) + "}"@,
    }
}

/// Writes literals, separated by commas.
#[verifier::loop_isolation(false)]
pub fn push_constants(out: &mut String, cs: &Vec<Constant>)
    ensures
        final(out)@ == constants_text(old(out)@, constants_view(*cs), 0),
    decreases cs, 1nat,
{
    proof {
        lemma_constants_view(*cs);
    }
    let mut i: usize = 0;
    while i < cs.len()
        invariant
            i <= cs.len(),
            constants_text(old(out)@, constants_view(*cs), 0) == constants_text(
                out@,
                constants_view(*cs),
                i as nat,
            ),
        decreases cs.len() - i,
    {
        if i > 0 {
            out.append(", ");
        }
        push_constant(out, &cs[i]);
        i += 1;
    }
}

/// Writes a literal.
pub fn push_constant(out: &mut String, c: &Constant)
    ensures
        final(out)@ == constant_text(old(out)@, c@),
    decreases c, 0nat,
{
    match c {
        Constant::Int { bits, value } => {
            out.append("i");
            push_number(out, *bits as u64);
            out.append(" ");
            push_number(out, *value);
        },
        Constant::Struct(fields) => {
            out.append("{");
            push_constants(out, fields);
            out.append("}");
        },
    }
}

/// An operand of an instruction of block `block`: `%b`, the block and the
/// position of the instruction that yields the value; `%arg` and the
/// index of a parameter; or a literal.
pub open spec fn operand_text(acc: Seq<char>, block: nat, v: OperandView) -> Seq<char> {
    match v {
        OperandView::Local(i) => number_text(number_text(acc + "%b"@, block) + "_"@, i),
        OperandView::Param(i) => number_text(acc + "%arg"@, i),
        OperandView::Const(c) => constant_text(acc, c),
    }
}

/// The operands of `vs` from position `i` on, separated by commas.
pub open spec fn operands_text(acc: Seq<char>, block: nat, vs: Seq<OperandView>, i: nat) -> Seq<char>
    decreases vs.len() - i,
{
    if i >= vs.len() {
        acc
    } else {
        operands_text(operand_text(if i > 0 {
            acc + ", "@
        } else {
            acc
        }, block, vs[i as int]), block, vs, i + 1)
    }
}

/// Writes an operand.
pub fn push_operand(out: &mut String, block: usize, v: &Operand)
    ensures
        final(out)@ == operand_text(old(out)@, block as nat, v@),
{
    match v {
        Operand::Local(i) => {
            out.append("%b");
            push_index(out, block);
            out.append("_");
            push_index(out, *i);
        },
        Operand::Param(i) => {
            out.append("%arg");
            push_index(out, *i);
        },
        Operand::Const(c) => {
            push_constant(out, c);
        },
    }
}

/// Writes operands, separated by commas.
pub fn push_operands(out: &mut String, block: usize, vs: &Vec<Operand>)
    ensures
        final(out)@ == operands_text(old(out)@, block as nat, views(vs@), 0),
{
    let mut i: usize = 0;
    while i < vs.len()
        invariant
            i <= vs.len(),
            operands_text(old(out)@, block as nat, views(vs@), 0) == operands_text(
                out@,
                block as nat,
                views(vs@),
                i as nat,
            ),
        decreases vs.len() - i,
    {
        if i > 0 {
            out.append(", ");
        }
        push_operand(out, block, &vs[i]);
        i += 1;
    }
}

/// The name of an operator.
pub open spec fn binop_text(op: BinOp) -> Seq<char> {
    match op {
        BinOp::Add => "add "@,
        BinOp::Sub => "sub "@,
        BinOp::Mul => "mul "@,
    }
}

/// The start of a line that yields a value: the name of the value of the
/// instruction at position `pos` of block `block`, and `=`.
pub open spec fn yields_text(acc: Seq<char>, block: nat, pos: nat) -> Seq<char> {
    operand_text(acc + "  "@, block, OperandView::Local(pos)) + " = "@
}

/// The line of the instruction at position `pos` of block `block`.
pub open spec fn instr_text(acc: Seq<char>, block: nat, pos: nat, i: InstrView) -> Seq<char> {
    match i {
        InstrView::Load { slot, ty } => number_text(
            type_text(yields_text(acc, block, pos) + "load "@, ty) + ", %s"@,
            slot,
        ) + "\n"@,
        InstrView::Store { slot, value } => number_text(
            operand_text(acc + "  store "@, block, value) + ", %s"@,
            slot,
        ) + "\n"@,
        InstrView::MakeStruct { ty, fields } => operands_text(
            type_text(yields_text(acc, block, pos) + "struct "@, ty) + " ("@,
            block,
            fields,
            0,
        ) + ")\n"@,
        InstrView::ExtractField { ty, agg, index } => number_text(
            operand_text(type_text(yields_text(acc, block, pos) + "field "@, ty) + " "@, block, agg) + ", "@,
            index,
        ) + "\n"@,
        InstrView::MakeVariant { ty, tag, fields } => operands_text(
            number_text(type_text(yields_text(acc, block, pos) + "variant "@, ty) + " "@, tag) + " ("@,
            block,
            fields,
            0,
        ) + ")\n"@,
        InstrView::GetTag { ty, value } => operand_text(
            type_text(yields_text(acc, block, pos) + "tag "@, ty) + " "@,
            block,
            value,
        ) + "\n"@,
        InstrView::VariantField { ty, value, tag, index } => number_text(
            number_text(
                operand_text(type_text(yields_text(acc, block, pos) + "payload "@, ty) + " "@, block, value)
                    + ", "@,
                tag,
            ) + ", "@,
            index,
        ) + "\n"@,
        InstrView::Binary { op, ty, lhs, rhs } => operand_text(
            operand_text(type_text(yields_text(acc, block, pos) + binop_text(op), ty) + " "@, block, lhs) + ", "@,
            block,
            rhs,
        ) + "\n"@,
    }
}

/// Writes the start of a line that yields a value.
fn push_yields(out: &mut String, block: usize, pos: usize)
    ensures
        final(out)@ == yields_text(old(out)@, block as nat, pos as nat),
{
    out.append("  ");
    out.append("%b");
    push_index(out, block);
    out.append("_");
    push_index(out, pos);
    out.append(" = ");
}

/// Writes the line of an instruction.
pub fn push_instr(out: &mut String, block: usize, pos: usize, i: &Instr)
    ensures
        final(out)@ == instr_text(old(out)@, block as nat, pos as nat, i@),
{
    match i {
        Instr::Load { slot, ty } => {
            push_yields(out, block, pos);
            out.append("load ");
            push_type(out, ty);
            out.append(", %s");
            push_index(out, *slot);
            out.append("\n");
        },
        Instr::Store { slot, value } => {
            out.append("  store ");
            push_operand(out, block, value);
            out.append(", %s");
            push_index(out, *slot);
            out.append("\n");
        },
        Instr::MakeStruct { ty, fields } => {
            push_yields(out, block, pos);
            out.append("struct ");
            push_type(out, ty);
            out.append(" (");
            push_operands(out, block, fields);
            out.append(")\n");
        },
        Instr::ExtractField { ty, agg, index } => {
            push_yields(out, block, pos);
            out.append("field ");
            push_type(out, ty);
            out.append(" ");
            push_operand(out, block, agg);
            out.append(", ");
            push_index(out, *index);
            out.append("\n");
        },
        Instr::MakeVariant { ty, tag, fields } => {
            push_yields(out, block, pos);
            out.append("variant ");
            push_type(out, ty);
            out.append(" ");
            push_index(out, *tag);
            out.append(" (");
            push_operands(out, block, fields);
            out.append(")\n");
        },
        Instr::GetTag { ty, value } => {
            push_yields(out, block, pos);
            out.append("tag ");
            push_type(out, ty);
            out.append(" ");
            push_operand(out, block, value);
            out.append("\n");
        },
        Instr::VariantField { ty, value, tag, index } => {
            push_yields(out, block, pos);
            out.append("payload ");
            push_type(out, ty);
            out.append(" ");
            push_operand(out, block, value);
            out.append(", ");
            push_index(out, *tag);
            out.append(", ");
            push_index(out, *index);
            out.append("\n");
        },
        Instr::Binary { op, ty, lhs, rhs } => {
            push_yields(out, block, pos);
            match op {
                BinOp::Add => out.append("add "),
                BinOp::Sub => out.append("sub "),
                BinOp::Mul => out.append("mul "),
            }
            push_type(out, ty);
            out.append(" ");
            push_operand(out, block, lhs);
            out.append(", ");
            push_operand(out, block, rhs);
            out.append("\n");
        },
    }
}

/// The names of the blocks `targets` from position `i` on, separated by
/// commas.
pub open spec fn targets_text(acc: Seq<char>, targets: Seq<nat>, i: nat) -> Seq<char>
    decreases targets.len() - i,
{
    if i >= targets.len() {
        acc
    } else {
        targets_text(number_text(if i > 0 {
            acc + ", b"@
        } else {
            acc + "b"@
        }, targets[i as int]), targets, i + 1)
    }
}

/// The line of the terminator of block `block`.
pub open spec fn terminator_text(acc: Seq<char>, block: nat, t: TerminatorView) -> Seq<char> {
    match t {
        TerminatorView::Ret(v) => operand_text(acc + "  ret "@, block, v) + "\n"@,
        TerminatorView::Br(b) => number_text(acc + "  br b"@, b) + "\n"@,
        TerminatorView::Switch(on, targets) => targets_text(
            operand_text(acc + "  switch "@, block, on) + " ["@,
            targets,
            0,
        ) + "]\n"@,
        TerminatorView::Unreachable => acc + "  unreachable\n"@,
    }
}

/// Writes the line of a terminator.
pub fn push_terminator(out: &mut String, block: usize, t: &Terminator)
    ensures
        final(out)@ == terminator_text(old(out)@, block as nat, t@),
{
    match t {
        Terminator::Ret(v) => {
            out.append("  ret ");
            push_operand(out, block, v);
            out.append("\n");
        },
        Terminator::Br(b) => {
            out.append("  br b");
            push_index(out, *b);
            out.append("\n");
        },
        Terminator::Switch { on, targets } => {
            out.append("  switch ");
            push_operand(out, block, on);
            out.append(" [");
            let ghost start = out@;
            let mut i: usize = 0;
            while i < targets.len()
                invariant
                    i <= targets.len(),
                    targets_text(start, nats(targets@), 0) == targets_text(out@, nats(targets@), i as nat),
                decreases targets.len() - i,
            {
                if i > 0 {
                    out.append(", b");
                } else {
                    out.append("b");
                }
                push_index(out, targets[i]);
                i += 1;
            }
            out.append("]\n");
        },
        Terminator::Unreachable => {
            out.append("  unreachable\n");
        },
    }
}

/// The lines of the instructions of `instrs` from position `i` on.
pub open spec fn instrs_text(acc: Seq<char>, block: nat, instrs: Seq<InstrView>, i: nat) -> Seq<char>
    decreases instrs.len() - i,
{
    if i >= instrs.len() {
        acc
    } else {
        instrs_text(instr_text(acc, block, i, instrs[i as int]), block, instrs, i + 1)
    }
}

/// A block: its label, its instructions, its terminator.
pub open spec fn block_text(acc: Seq<char>, index: nat, b: BlockView) -> Seq<char> {
    terminator_text(instrs_text(number_text(acc + "b"@, index) + ":\n"@, index, b.instrs, 0), index, b.term)
}

/// Writes a block.
pub fn push_block(out: &mut String, index: usize, b: &Block)
    ensures
        final(out)@ == block_text(old(out)@, index as nat, b@),
{
    out.append("b");
    push_index(out, index);
    out.append(":\n");
    let ghost start = out@;
    let mut i: usize = 0;
    while i < b.instrs.len()
        invariant
            i <= b.instrs.len(),
            instrs_text(start, index as nat, b@.instrs, 0) == instrs_text(out@, index as nat, b@.instrs, i as nat),
        decreases b.instrs.len() - i,
    {
        push_instr(out, index, i, &b.instrs[i]);
        i += 1;
    }
    push_terminator(out, index, &b.term);
}

/// The parameters from position `i` on: each its type and its name.
pub open spec fn params_text(acc: Seq<char>, params: Seq<Layout>, i: nat) -> Seq<char>
    decreases params.len() - i,
{
    if i >= params.len() {
        acc
    } else {
        params_text(number_text(type_text(if i > 0 {
            acc + ", "@
        } else {
            acc
        }, params[i as int]) + " %arg"@, i), params, i + 1)
    }
}

/// The stack slots from position `i` on: one line for each.
pub open spec fn slots_text(acc: Seq<char>, slots: Seq<Layout>, i: nat) -> Seq<char>
    decreases slots.len() - i,
{
    if i >= slots.len() {
        acc
    } else {
        slots_text(type_text(number_text(acc + "  %s"@, i) + " = alloca "@, slots[i as int]) + "\n"@, slots, i + 1)
    }
}

/// The blocks from position `i` on.
pub open spec fn blocks_text(acc: Seq<char>, blocks: Seq<BlockView>, i: nat) -> Seq<char>
    decreases blocks.len() - i,
{
    if i >= blocks.len() {
        acc
    } else {
        blocks_text(block_text(acc, i, blocks[i as int]), blocks, i + 1)
    }
}

/// A function: its header, its stack slots, its blocks.
pub open spec fn function_text(acc: Seq<char>, f: FunctionView) -> Seq<char> {
    blocks_text(
        slots_text(params_text(type_text(acc + "define "@, f.ret) + " @"@ + f.name + "("@, f.params, 0) + ") {\n"@, f.slots, 0),
        f.blocks,
        0,
    ) + "}\n"@
}

/// Writes a function.
pub fn push_function(out: &mut String, f: &Function)
    ensures
        final(out)@ == function_text(old(out)@, f@),
{
    out.append("define ");
    push_type(out, &f.ret);
    out.append(" @");
    out.append(f.name.as_str());
    out.append("(");
    let ghost start = out@;
    proof {
        lemma_row_view(f.params);
        lemma_row_view(f.slots);
    }
    let mut i: usize = 0;
    while i < f.params.len()
        invariant
            i <= f.params.len(),
            params_text(start, f@.params, 0) == params_text(out@, f@.params, i as nat),
        decreases f.params.len() - i,
    {
        proof {
            lemma_row_view(f.params);
        }
        if i > 0 {
            out.append(", ");
        }
        push_type(out, &f.params[i]);
        out.append(" %arg");
        push_index(out, i);
        i += 1;
    }
    out.append(") {\n");
    let ghost start = out@;
    let mut i: usize = 0;
    while i < f.slots.len()
        invariant
            i <= f.slots.len(),
            slots_text(start, f@.slots, 0) == slots_text(out@, f@.slots, i as nat),
        decreases f.slots.len() - i,
    {
        proof {
            lemma_row_view(f.slots);
        }
        out.append("  %s");
        push_index(out, i);
        out.append(" = alloca ");
        push_type(out, &f.slots[i]);
        out.append("\n");
        i += 1;
    }
    let ghost start = out@;
    let mut i: usize = 0;
    while i < f.blocks.len()
        invariant
            i <= f.blocks.len(),
            blocks_text(start, f@.blocks, 0) == blocks_text(out@, f@.blocks, i as nat),
        decreases f.blocks.len() - i,
    {
        push_block(out, i, &f.blocks[i]);
        i += 1;
    }
    out.append("}\n");
}

/// The functions from position `i` on.
pub open spec fn functions_text(acc: Seq<char>, functions: Seq<FunctionView>, i: nat) -> Seq<char>
    decreases functions.len() - i,
{
    if i >= functions.len() {
        acc
    } else {
        functions_text(function_text(acc, functions[i as int]), functions, i + 1)
    }
}

/// The text of a module: its functions, in order.
pub open spec fn module_text(m: ModuleView) -> Seq<char> {
    functions_text(Seq::empty(), m.functions, 0)
}

impl Module {
    /// The text of the module.
    pub fn to_text(&self) -> (r: String)
        ensures
            r@ == module_text(self@),
    {
        let mut out = String::new();
        let mut i: usize = 0;
        while i < self.functions.len()
            invariant
                i <= self.functions.len(),
                module_text(self@) == functions_text(out@, self@.functions, i as nat),
            decreases self.functions.len() - i,
        {
            push_function(&mut out, &self.functions[i]);
            i += 1;
        }
        out
    }
}

} // verus!

//! The structural verifier of the target IR: executable checks that decide
//! the validity stated in `ir`.
use vstd::prelude::*;
use vstd::arithmetic::power2::pow2;
use vstd::arithmetic::power2::lemma_pow2_unfold;
use vstd::arithmetic::power2::lemma2_to64;
use crate::layout::TargetType;
use crate::layout::row_view;
use crate::layout::lemma_row_view;
use crate::layout::lemma_rows_view;
use crate::layout::lemma_pow2_grows;
use crate::ir::views;
use crate::ir::Constant;
use crate::ir::ConstantView;
use crate::ir::Operand;
use crate::ir::Instr;
use crate::ir::Terminator;
use crate::ir::Function;
use crate::ir::Module;
use crate::ir::constants_view;
use crate::ir::constants_layout;
use crate::ir::constant_layout;
use crate::ir::constant_ok;
use crate::ir::constants_ok;
use crate::ir::targets_in_range;
use crate::ir::nats;
use crate::ir::lemma_constants_view;
use crate::ir::result_layout;
use crate::ir::operand_layout;
use crate::ir::operands_have;
use crate::ir::instr_ok;
use crate::ir::instrs_ok;
use crate::ir::terminator_ok;
use crate::ir::block_ok;

verus! {

/// Whether `value` can be written in `bits` bits.
pub fn int_fits(bits: u32, value: u64) -> (r: bool)
    ensures
        r == (bits >= 64 || (value as nat) < pow2(bits as nat)),
{
    if bits >= 64 {
        return true;
    }
    let mut cap: u64 = 1;
    let mut k: u32 = 0;
    proof {
        lemma2_to64();
    }
    while k < bits
        invariant
            k <= bits < 64,
            cap as nat == pow2(k as nat),
        decreases bits - k,
    {
        proof {
            lemma_pow2_unfold((k + 1) as nat);
            lemma_pow2_grows((k + 1) as nat, 63);
            lemma_pow2_unfold(64);
            lemma2_to64();
        }
        cap = cap * 2;
        k += 1;
    }
    value < cap
}

/// A copy of a list of literals.
#[verifier::loop_isolation(false)]
pub fn constants_duplicate(cs: &Vec<Constant>) -> (r: Vec<Constant>)
    ensures
        constants_view(r) == constants_view(*cs),
    decreases cs, 1int,
{
    let mut out: Vec<Constant> = Vec::new();
    let mut i: usize = 0;
    while i < cs.len()
        invariant
            i <= cs.len(),
            out.len() == i,
            forall|k: int| 0 <= k < i ==> out[k]@ == cs[k]@,
        decreases cs.len() - i,
    {
        out.push(cs[i].duplicate());
        i += 1;
    }
    proof {
        lemma_constants_view(*cs);
        lemma_constants_view(out);
        assert(constants_view(out) =~= constants_view(*cs));
    }
    out
}

/// Whether every literal of a list is well formed.
#[verifier::loop_isolation(false)]
pub fn constants_check(cs: &Vec<Constant>) -> (r: bool)
    ensures
        r == constants_ok(constants_view(*cs)),
    decreases cs, 1int,
{
    proof {
        lemma_constants_view(*cs);
    }
    let mut i: usize = 0;
    while i < cs.len()
        invariant
            i <= cs.len(),
            forall|k: int| 0 <= k < i ==> constant_ok(#[trigger] constants_view(*cs)[k]),
        decreases cs.len() - i,
    {
        if !cs[i].check() {
            assert(!constant_ok(constants_view(*cs)[i as int]));
            return false;
        }
        i += 1;
    }
    true
}

/// The types of a list of literals.
#[verifier::loop_isolation(false)]
pub fn constants_types(cs: &Vec<Constant>) -> (r: Vec<TargetType>)
    ensures
        row_view(r) == constants_layout(constants_view(*cs)),
    decreases cs, 1int,
{
    let mut out: Vec<TargetType> = Vec::new();
    let mut i: usize = 0;
    while i < cs.len()
        invariant
            i <= cs.len(),
            out.len() == i,
            forall|k: int| 0 <= k < i ==> out[k]@ == constant_layout(cs[k]@),
        decreases cs.len() - i,
    {
        out.push(cs[i].layout());
        i += 1;
    }
    proof {
        lemma_constants_view(*cs);
        lemma_row_view(out);
        assert(row_view(out) =~= constants_layout(constants_view(*cs)));
    }
    out
}

impl Constant {
    /// A deep copy with the same model.
    pub fn duplicate(&self) -> (r: Constant)
        ensures
            r@ == self@,
        decreases self, 0int,
    {
        match self {
            Constant::Int { bits, value } => Constant::Int { bits: *bits, value: *value },
            Constant::Struct(fields) => Constant::Struct(constants_duplicate(fields)),
        }
    }

    /// Decides `constant_ok`.
    pub fn check(&self) -> (r: bool)
        ensures
            r == constant_ok(self@),
        decreases self, 0int,
    {
        match self {
            Constant::Int { bits, value } => {
                let r = int_fits(*bits, *value);
                assert(r == constant_ok(self@));
                r
            },
            Constant::Struct(fields) => {
                let r = constants_check(fields);
                proof {
                    lemma_constants_view(*fields);
                    assert(self@ == ConstantView::Struct(constants_view(*fields)));

                }
                r
            },
        }
    }

    /// The type of the literal.
    pub fn layout(&self) -> (r: TargetType)
        ensures
            r@ == constant_layout(self@),
        decreases self, 0int,
    {
        match self {
            Constant::Int { bits, value } => TargetType::Int(*bits),
            Constant::Struct(fields) => TargetType::Struct(constants_types(fields)),
        }
    }
}

impl Operand {
    /// A deep copy with the same model.
    pub fn duplicate(&self) -> (r: Operand)
        ensures
            r@ == self@,
    {
        match self {
            Operand::Local(i) => Operand::Local(*i),
            Operand::Param(i) => Operand::Param(*i),
            Operand::Const(c) => Operand::Const(c.duplicate()),
        }
    }
}

impl Instr {
    /// The type of what the instruction yields, if it yields a value.
    pub fn result_type(&self) -> (r: Option<&TargetType>)
        ensures
            match r {
                Some(t) => result_layout(self@) == Some(t@),
                None => result_layout(self@) is None,
            },
    {
        match self {
            Instr::Load { ty, .. } => Some(ty),
            Instr::Store { .. } => None,
            Instr::MakeStruct { ty, .. } => Some(ty),
            Instr::ExtractField { ty, .. } => Some(ty),
            Instr::MakeVariant { ty, .. } => Some(ty),
            Instr::GetTag { ty, .. } => Some(ty),
            Instr::VariantField { ty, .. } => Some(ty),
            Instr::Binary { ty, .. } => Some(ty),
        }
    }
}

/// The type of an operand that stands after the first `k` instructions of
/// `instrs`, or `None` where it names no value there.
pub fn operand_type(params: &Vec<TargetType>, instrs: &Vec<Instr>, k: usize, v: &Operand) -> (r: Option<
    TargetType,
>)
    requires
        k <= instrs.len(),
    ensures
        match r {
            Some(t) => operand_layout(row_view(*params), views(instrs@).take(k as int), v@) == Some(t@),
            None => operand_layout(row_view(*params), views(instrs@).take(k as int), v@) is None,
        },
{
    proof {
        lemma_row_view(*params);
    }
    match v {
        Operand::Local(i) => {
            if *i < k {
                match instrs[*i].result_type() {
                    Some(t) => Some(t.duplicate()),
                    None => None,
                }
            } else {
                None
            }
        },
        Operand::Param(i) => {
            if *i < params.len() {
                Some(params[*i].duplicate())
            } else {
                None
            }
        },
        Operand::Const(c) => {
            if c.check() {
                Some(c.layout())
            } else {
                None
            }
        },
    }
}

/// Whether an operand after the first `k` instructions has the type `ty`.
pub fn operand_has_type(
    params: &Vec<TargetType>,
    instrs: &Vec<Instr>,
    k: usize,
    v: &Operand,
    ty: &TargetType,
) -> (r: bool)
    requires
        k <= instrs.len(),
    ensures
        r == (operand_layout(row_view(*params), views(instrs@).take(k as int), v@) == Some(ty@)),
{
    match operand_type(params, instrs, k, v) {
        Some(t) => t.same(ty),
        None => false,
    }
}

/// Decides `operands_have`.
pub fn operands_check(
    params: &Vec<TargetType>,
    instrs: &Vec<Instr>,
    k: usize,
    vs: &Vec<Operand>,
    row: &Vec<TargetType>,
) -> (r: bool)
    requires
        k <= instrs.len(),
    ensures
        r == operands_have(row_view(*params), views(instrs@).take(k as int), views(vs@), row_view(*row)),
{
    proof {
        lemma_row_view(*row);
    }
    if vs.len() != row.len() {
        return false;
    }
    let mut i: usize = 0;
    while i < vs.len()
        invariant
            i <= vs.len(),
            vs.len() == row.len(),
            k <= instrs.len(),
            forall|j: int|
                0 <= j < i ==> operand_layout(
                    row_view(*params),
                    views(instrs@).take(k as int),
                    #[trigger] views(vs@)[j],
                ) == Some(row_view(*row)[j]),
        decreases vs.len() - i,
    {
        if !operand_has_type(params, instrs, k, &vs[i], &row[i]) {
            assert(views(vs@)[i as int] == vs[i as int]@);
            return false;
        }
        i += 1;
    }
    true
}

/// Decides `instr_ok` for the instruction at position `k`.
pub fn instr_check(slots: &Vec<TargetType>, params: &Vec<TargetType>, instrs: &Vec<Instr>, k: usize) -> (r:
    bool)
    requires
        k < instrs.len(),
    ensures
        r == instr_ok(row_view(*slots), row_view(*params), views(instrs@).take(k as int), instrs[k as int]@),
{
    proof {
        lemma_row_view(*slots);
    }
    match &instrs[k] {
        Instr::Load { slot, ty } => *slot < slots.len() && slots[*slot].same(ty),
        Instr::Store { slot, value } => *slot < slots.len() && operand_has_type(
            params,
            instrs,
            k,
            value,
            &slots[*slot],
        ),
        Instr::MakeStruct { ty, fields } => match ty {
            TargetType::Struct(row) => operands_check(params, instrs, k, fields, row),
            _ => false,
        },
        Instr::ExtractField { ty, agg, index } => match operand_type(params, instrs, k, agg) {
            Some(TargetType::Struct(row)) => {
                proof {
                    lemma_row_view(row);
                }
                *index < row.len() && row[*index].same(ty)
            },
            _ => false,
        },
        Instr::MakeVariant { ty, tag, fields } => match ty {
            TargetType::Union { tag_bits, variants } => {
                proof {
                    lemma_rows_view(*variants);
                }
                *tag < variants.len() && operands_check(params, instrs, k, fields, &variants[*tag])
            },
            _ => false,
        },
        Instr::GetTag { ty, value } => match operand_type(params, instrs, k, value) {
            Some(TargetType::Union { tag_bits, variants }) => ty.same(&TargetType::Int(tag_bits)),
            _ => false,
        },
        Instr::VariantField { ty, value, tag, index } => match operand_type(params, instrs, k, value) {
            Some(TargetType::Union { tag_bits, variants }) => {
                proof {
                    lemma_rows_view(variants);
                    if *tag < variants.len() {
                        lemma_row_view(variants[*tag as int]);
                    }
                }
                *tag < variants.len() && *index < variants[*tag].len() && variants[*tag][*index].same(ty)
            },
            _ => false,
        },
        Instr::Binary { op, ty, lhs, rhs } => match ty {
            TargetType::Int(_) => operand_has_type(params, instrs, k, lhs, ty) && operand_has_type(
                params,
                instrs,
                k,
                rhs,
                ty,
            ),
            _ => false,
        },
    }
}

/// Decides `instrs_ok`.
pub fn instrs_check(slots: &Vec<TargetType>, params: &Vec<TargetType>, instrs: &Vec<Instr>) -> (r: bool)
    ensures
        r == instrs_ok(row_view(*slots), row_view(*params), views(instrs@)),
{
    let mut k: usize = 0;
    while k < instrs.len()
        invariant
            k <= instrs.len(),
            forall|j: int|
                0 <= j < k ==> instr_ok(
                    row_view(*slots),
                    row_view(*params),
                    views(instrs@).take(j),
                    #[trigger] views(instrs@)[j],
                ),
        decreases instrs.len() - k,
    {
        if !instr_check(slots, params, instrs, k) {
            assert(views(instrs@)[k as int] == instrs[k as int]@);
            return false;
        }
        k += 1;
    }
    true
}

/// Whether every target names a block of the function.
pub fn targets_check(targets: &Vec<usize>, nblocks: usize) -> (r: bool)
    ensures
        r == targets_in_range(nats(targets@), nblocks as nat),
{
    let mut i: usize = 0;
    while i < targets.len()
        invariant
            i <= targets.len(),
            forall|j: int| 0 <= j < i ==> (#[trigger] nats(targets@)[j]) < nblocks,
        decreases targets.len() - i,
    {
        if targets[i] >= nblocks {
            assert(!(nats(targets@)[i as int] < nblocks));
            return false;
        }
        i += 1;
    }
    true
}

/// Decides `terminator_ok`.
pub fn terminator_check(
    params: &Vec<TargetType>,
    ret: &TargetType,
    nblocks: usize,
    instrs: &Vec<Instr>,
    t: &Terminator,
) -> (r: bool)
    ensures
        r == terminator_ok(row_view(*params), ret@, nblocks as nat, views(instrs@), t@),
{
    assert(views(instrs@).take(instrs.len() as int) =~= views(instrs@));
    match t {
        Terminator::Ret(v) => operand_has_type(params, instrs, instrs.len(), v, ret),
        Terminator::Br(b) => *b < nblocks,
        Terminator::Switch { on, targets } => {
            match operand_type(params, instrs, instrs.len(), on) {
                Some(TargetType::Int(_)) => targets_check(targets, nblocks),
                _ => false,
            }
        },
        Terminator::Unreachable => true,
    }
}

impl Function {
    /// The structural verifier: decides the validity of the function.
    pub fn verify(&self) -> (r: bool)
        ensures
            r == self@.valid(),
    {
        if self.blocks.len() == 0 {
            return false;
        }
        let mut b: usize = 0;
        while b < self.blocks.len()
            invariant
                b <= self.blocks.len(),
                forall|j: int|
                    0 <= j < b ==> block_ok(
                        self@.slots,
                        self@.params,
                        self@.ret,
                        self@.blocks.len(),
                        #[trigger] self@.blocks[j],
                    ),
            decreases self.blocks.len() - b,
        {
            let block = &self.blocks[b];
            assert(self@.blocks[b as int] == block@);
            if !instrs_check(&self.slots, &self.params, &block.instrs) {
                return false;
            }
            if !terminator_check(&self.params, &self.ret, self.blocks.len(), &block.instrs, &block.term) {
                return false;
            }
            b += 1;
        }
        true
    }
}

impl Module {
    /// The structural verifier: decides the validity of the module.
    pub fn verify(&self) -> (r: bool)
        ensures
            r == self@.valid(),
    {
        let mut f: usize = 0;
        while f < self.functions.len()
            invariant
                f <= self.functions.len(),
                forall|j: int| 0 <= j < f ==> (#[trigger] self@.functions[j]).valid(),
            decreases self.functions.len() - f,
        {
            if !self.functions[f].verify() {
                assert(self@.functions[f as int] == self.functions[f as int]@);
                return false;
            }
            assert(self@.functions[f as int] == self.functions[f as int]@);
            f += 1;
        }
        true
    }
}

} // verus!

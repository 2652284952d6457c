//! The target machine: registers, the register allocator, the label
//! counter, and the instruction forms that the code generator emits.
//!
//! Instructions are kept structured; `asm` renders them to text lines.

use vstd::prelude::*;

verus! {

/// One of the 32 machine registers, `x0` .. `x31`.
#[derive(Copy, Clone, Debug, PartialEq, Eq, Structural)]
pub struct Reg(pub u8);

/// Allocation state of one register.
#[derive(Debug, Clone, Copy, PartialEq, Eq, Structural)]
pub enum RState {
    Used,
    Free,
}

/// Whether `r` is one of the seven scratch registers that the allocator
/// hands out: x5, x6, x7 (t0..t2) and x28..x31 (t3..t6).
pub open spec fn is_scratch(r: int) -> bool {
    r == 5 || r == 6 || r == 7 || r == 28 || r == 29 || r == 30 || r == 31
}

/// A register table is a map from the 32 register numbers to their state.
pub open spec fn regs_wf(regs: Seq<RState>) -> bool {
    &&& regs.len() == 32
    &&& forall|i: int| 0 <= i < 32 && !is_scratch(i) ==> regs[i] == RState::Free
}

/// What `RegMap::get_reg` returns and how it changes the table: the
/// first free scratch register in preference order t0, t1, t2, t3, t4,
/// t5, t6 is marked used and handed out; with no free scratch register
/// the table is unchanged and nothing is handed out.
pub open spec fn sp_get_reg(regs: Seq<RState>) -> (Option<u8>, Seq<RState>) {
    if regs[5] == RState::Free {
        (Some(5u8), regs.update(5, RState::Used))
    } else if regs[6] == RState::Free {
        (Some(6u8), regs.update(6, RState::Used))
    } else if regs[7] == RState::Free {
        (Some(7u8), regs.update(7, RState::Used))
    } else if regs[28] == RState::Free {
        (Some(28u8), regs.update(28, RState::Used))
    } else if regs[29] == RState::Free {
        (Some(29u8), regs.update(29, RState::Used))
    } else if regs[30] == RState::Free {
        (Some(30u8), regs.update(30, RState::Used))
    } else if regs[31] == RState::Free {
        (Some(31u8), regs.update(31, RState::Used))
    } else {
        (None, regs)
    }
}

/// Free/used table over registers 0..31; only the scratch subset ever
/// becomes used.
pub struct RegMap {
    pub map: Vec<RState>,
}

impl View for RegMap {
    type V = Seq<RState>;

    open spec fn view(&self) -> Seq<RState> {
        self.map@
    }
}

impl RegMap {
    /// Fresh table with every register free.
    pub fn new() -> (r: RegMap)
        ensures
            r@ == Seq::new(32, |i: int| RState::Free),
            regs_wf(r@),
    {
        let mut map: Vec<RState> = Vec::new();
        let mut i: usize = 0;
        while i < 32
            invariant
                i <= 32,
                map@ == Seq::new(i as nat, |j: int| RState::Free),
            decreases 32 - i,
        {
            map.push(RState::Free);
            proof {
                assert(map@ =~= Seq::new((i + 1) as nat, |j: int| RState::Free));
            }
            i = i + 1;
        }
        proof {
            assert(regs_wf(map@));
        }
        RegMap { map }
    }

    /// Allocate the first free scratch register, in fixed preference
    /// order; none is handed out when all seven are in use.
    pub fn get_reg(&mut self) -> (r: Option<Reg>)
        requires
            old(self)@.len() == 32,
        ensures
            final(self)@.len() == 32,
            (match r {
                Some(reg) => Some(reg.0) == sp_get_reg(old(self)@).0,
                None => sp_get_reg(old(self)@).0 is None,
            }),
            final(self)@ == sp_get_reg(old(self)@).1,
    {
        if self.map[5] == RState::Free {
            self.map[5] = RState::Used;
            Some(Reg(5))
        } else if self.map[6] == RState::Free {
            self.map[6] = RState::Used;
            Some(Reg(6))
        } else if self.map[7] == RState::Free {
            self.map[7] = RState::Used;
            Some(Reg(7))
        } else if self.map[28] == RState::Free {
            self.map[28] = RState::Used;
            Some(Reg(28))
        } else if self.map[29] == RState::Free {
            self.map[29] = RState::Used;
            Some(Reg(29))
        } else if self.map[30] == RState::Free {
            self.map[30] = RState::Used;
            Some(Reg(30))
        } else if self.map[31] == RState::Free {
            self.map[31] = RState::Used;
            Some(Reg(31))
        } else {
            None
        }
    }

    /// Mark a register free again.
    pub fn free_reg(&mut self, r: Reg)
        requires
            old(self)@.len() == 32,
            r.0 < 32,
        ensures
            final(self)@ == old(self)@.update(r.0 as int, RState::Free),
    {
        self.map[r.0 as usize] = RState::Free;
    }
}

/// How many scratch registers are free.
pub open spec fn free_scratch_count(regs: Seq<RState>) -> int {
    (if regs[5] == RState::Free { 1int } else { 0int })
    + (if regs[6] == RState::Free { 1int } else { 0int })
    + (if regs[7] == RState::Free { 1int } else { 0int })
    + (if regs[28] == RState::Free { 1int } else { 0int })
    + (if regs[29] == RState::Free { 1int } else { 0int })
    + (if regs[30] == RState::Free { 1int } else { 0int })
    + (if regs[31] == RState::Free { 1int } else { 0int })
}

/// The label counter increments until it saturates at `u64::MAX`; one
/// compilation never gets near that, so labels are fresh in practice.
pub open spec fn sp_next_label(c: nat) -> nat {
    if c < u64::MAX {
        c + 1
    } else {
        c
    }
}

/// Source of fresh numbers for generated branch labels `__L_<n>`.
pub struct LabelCounter {
    pub count: u64,
}

impl LabelCounter {
    pub fn new() -> (r: LabelCounter)
        ensures
            r.count == 0,
    {
        LabelCounter { count: 0 }
    }

    /// Hand out the current number and step the counter.
    pub fn next(&mut self) -> (r: u64)
        ensures
            r == old(self).count,
            final(self).count == sp_next_label(old(self).count as nat),
    {
        let ret = self.count;
        if self.count < u64::MAX {
            self.count = self.count + 1;
        }
        ret
    }
}

/// A label in the data section: a declared variable's cell `__var_<name>`
/// or an interned string `__str_<n>`.
#[derive(Debug)]
pub enum DataLabel {
    Var(String),
    Str(usize),
}

/// Mathematical view of `DataLabel`.
pub enum DataLabelView {
    Var(Seq<char>),
    Str(int),
}

impl View for DataLabel {
    type V = DataLabelView;

    open spec fn view(&self) -> DataLabelView {
        match self {
            DataLabel::Var(name) => DataLabelView::Var(name@),
            DataLabel::Str(n) => DataLabelView::Str(*n as int),
        }
    }
}

/// Instruction mnemonics that combine two register operands into the
/// first, `mn dst, dst, src`.
#[derive(Copy, Clone, Debug, PartialEq, Eq, Structural)]
pub enum Mnem {
    Add,
    Sub,
    Mul,
    Div,
    Rem,
    Srl,
    Sra,
    Sll,
    And,
    Or,
    Xor,
    Slt,
    Sltu,
}

/// One emitted instruction or local label definition.
#[derive(Debug)]
pub enum Instr {
    /// `li r, n`
    Li(Reg, i64),
    /// `la r, label`
    La(Reg, DataLabel),
    /// `lw r, label`
    Lw(Reg, DataLabel),
    /// `lw r, (s)`
    LwInd(Reg, Reg),
    /// `sw value, label, scratch`
    Sw(Reg, DataLabel, Reg),
    /// `mn a, a, b`
    Op(Mnem, Reg, Reg),
    /// `sub r, x0, r`, arithmetic negation in place
    Neg(Reg),
    /// `seqz r, s`
    Seqz(Reg, Reg),
    /// `xori r, r, n`
    Xori(Reg, Reg, i64),
    /// `mv a<n>, r`, copying into an argument register
    MvArg(usize, Reg),
    /// `call name`
    Call(String),
    /// `beqz r, __L_<n>`
    Beqz(Reg, u64),
    /// `j __L_<n>`
    Jump(u64),
    /// `__L_<n>:`
    Label(u64),
}

/// Mathematical view of `Instr`.
pub enum InstrView {
    Li(Reg, int),
    La(Reg, DataLabelView),
    Lw(Reg, DataLabelView),
    LwInd(Reg, Reg),
    Sw(Reg, DataLabelView, Reg),
    Op(Mnem, Reg, Reg),
    Neg(Reg),
    Seqz(Reg, Reg),
    Xori(Reg, Reg, int),
    MvArg(int, Reg),
    Call(Seq<char>),
    Beqz(Reg, int),
    Jump(int),
    Label(int),
}

impl View for Instr {
    type V = InstrView;

    open spec fn view(&self) -> InstrView {
        match self {
            Instr::Li(r, n) => InstrView::Li(*r, *n as int),
            Instr::La(r, l) => InstrView::La(*r, l@),
            Instr::Lw(r, l) => InstrView::Lw(*r, l@),
            Instr::LwInd(r, s) => InstrView::LwInd(*r, *s),
            Instr::Sw(v, l, s) => InstrView::Sw(*v, l@, *s),
            Instr::Op(m, a, b) => InstrView::Op(*m, *a, *b),
            Instr::Neg(r) => InstrView::Neg(*r),
            Instr::Seqz(r, s) => InstrView::Seqz(*r, *s),
            Instr::Xori(r, s, n) => InstrView::Xori(*r, *s, *n as int),
            Instr::MvArg(n, r) => InstrView::MvArg(*n as int, *r),
            Instr::Call(name) => InstrView::Call(name@),
            Instr::Beqz(r, l) => InstrView::Beqz(*r, *l as int),
            Instr::Jump(l) => InstrView::Jump(*l as int),
            Instr::Label(l) => InstrView::Label(*l as int),
        }
    }
}

impl DeepView for Instr {
    type V = InstrView;

    open spec fn deep_view(&self) -> InstrView {
        self.view()
    }
}

/// The mnemonic a binary operator lowers to; equality has no single
/// mnemonic (it lowers to `xor` then `seqz`) and greater swaps its
/// operands around `sltu`, so those two are handled at the emit site.
pub open spec fn simple_mnem(op: crate::expr::BinOp) -> Option<Mnem> {
    match op {
        crate::expr::BinOp::Add => Some(Mnem::Add),
        crate::expr::BinOp::Sub => Some(Mnem::Sub),
        crate::expr::BinOp::Mul => Some(Mnem::Mul),
        crate::expr::BinOp::Div => Some(Mnem::Div),
        crate::expr::BinOp::Rem => Some(Mnem::Rem),
        crate::expr::BinOp::Srl => Some(Mnem::Srl),
        crate::expr::BinOp::Sra => Some(Mnem::Sra),
        crate::expr::BinOp::Sll => Some(Mnem::Sll),
        crate::expr::BinOp::And => Some(Mnem::And),
        crate::expr::BinOp::Or => Some(Mnem::Or),
        crate::expr::BinOp::Xor => Some(Mnem::Xor),
        crate::expr::BinOp::Less => Some(Mnem::Slt),
        crate::expr::BinOp::LessUnsigned => Some(Mnem::Sltu),
        crate::expr::BinOp::Greater => None,
        crate::expr::BinOp::TestEq => None,
    }
}

} // verus!

//! Rendering of the structured instruction stream and the data
//! section to assembly text lines. Each line is pinned down character
//! for character by a spec function.

use vstd::prelude::*;

use vstd::string::StringExecFns;

use crate::riscv::{DataLabel, DataLabelView, Instr, InstrView, Mnem, Reg};
use crate::symtab::{SymTab, SymTabView, VarInit, VarInitView};

verus! {

/// The decimal digit characters.
pub open spec fn digit_char(d: int) -> char {
    if d == 0 {
        '0'
    } else if d == 1 {
        '1'
    } else if d == 2 {
        '2'
    } else if d == 3 {
        '3'
    } else if d == 4 {
        '4'
    } else if d == 5 {
        '5'
    } else if d == 6 {
        '6'
    } else if d == 7 {
        '7'
    } else if d == 8 {
        '8'
    } else {
        '9'
    }
}

/// Decimal spelling of a non-negative number.
pub open spec fn sp_dec(n: int) -> Seq<char>
    decreases n,
{
    if n < 10 {
        seq![digit_char(n)]
    } else {
        sp_dec(n / 10) + seq![digit_char(n % 10)]
    }
}

/// Decimal spelling of a possibly negative number.
pub open spec fn sp_dec_signed(v: int) -> Seq<char> {
    if v < 0 {
        "-"@ + sp_dec(-v)
    } else {
        sp_dec(v)
    }
}

/// The symbolic name of a register, `x0` .. `x31`.
pub open spec fn sp_reg(r: Reg) -> Seq<char> {
    "x"@ + sp_dec(r.0 as int)
}

/// The name of a data-section label.
pub open spec fn sp_data_label(l: DataLabelView) -> Seq<char> {
    match l {
        DataLabelView::Var(name) => "__var_"@ + name,
        DataLabelView::Str(n) => "__str_"@ + sp_dec(n),
    }
}

/// The name of a generated branch target.
pub open spec fn sp_code_label(n: int) -> Seq<char> {
    "__L_"@ + sp_dec(n)
}

/// The mnemonic of a two-operand combining instruction.
pub open spec fn sp_mnem(m: Mnem) -> Seq<char> {
    match m {
        Mnem::Add => "add"@,
        Mnem::Sub => "sub"@,
        Mnem::Mul => "mul"@,
        Mnem::Div => "div"@,
        Mnem::Rem => "rem"@,
        Mnem::Srl => "srl"@,
        Mnem::Sra => "sra"@,
        Mnem::Sll => "sll"@,
        Mnem::And => "and"@,
        Mnem::Or => "or"@,
        Mnem::Xor => "xor"@,
        Mnem::Slt => "slt"@,
        Mnem::Sltu => "sltu"@,
    }
}

/// The text line of one instruction or label definition.
pub open spec fn sp_render_instr(i: InstrView) -> Seq<char> {
    match i {
        InstrView::Li(r, n) => "li "@ + sp_reg(r) + ", "@ + sp_dec_signed(n),
        InstrView::La(r, l) => "la "@ + sp_reg(r) + ", "@ + sp_data_label(l),
        InstrView::Lw(r, l) => "lw "@ + sp_reg(r) + ", "@ + sp_data_label(l),
        InstrView::LwInd(r, s) => "lw "@ + sp_reg(r) + ", ("@ + sp_reg(s) + ")"@,
        InstrView::Sw(v, l, s) => "sw "@ + sp_reg(v) + ", "@ + sp_data_label(l) + ", "@ + sp_reg(
            s,
        ),
        InstrView::Op(m, a, b) => sp_mnem(m) + " "@ + sp_reg(a) + ", "@ + sp_reg(a) + ", "@
            + sp_reg(b),
        InstrView::Neg(r) => "sub "@ + sp_reg(r) + ", x0, "@ + sp_reg(r),
        InstrView::Seqz(a, b) => "seqz "@ + sp_reg(a) + ", "@ + sp_reg(b),
        InstrView::Xori(a, b, n) => "xori "@ + sp_reg(a) + ", "@ + sp_reg(b) + ", "@
            + sp_dec_signed(n),
        InstrView::MvArg(i, r) => "mv a"@ + sp_dec(i) + ", "@ + sp_reg(r),
        InstrView::Call(name) => "call "@ + name,
        InstrView::Beqz(r, l) => "beqz "@ + sp_reg(r) + ", "@ + sp_code_label(l),
        InstrView::Jump(l) => "j "@ + sp_code_label(l),
        InstrView::Label(l) => sp_code_label(l) + ":"@,
    }
}

/// The data-section lines: every interned string as a labeled
/// null-terminated text blob, then every declared variable as one
/// labeled 32-bit word holding its initial value.
pub open spec fn sp_data_lines(st: SymTabView) -> Seq<Seq<char>> {
    Seq::new(st.strings.len(), |i: int| sp_string_line(i, st.strings[i])) + Seq::new(
        st.vars.len() * 2,
        |k: int|
            if k % 2 == 0 {
                sp_data_label(DataLabelView::Var(st.vars[k / 2].0)) + ":"@
            } else {
                "    .word "@ + sp_init_text(st.vars[k / 2].1)
            },
    )
}

/// The line of one interned string.
pub open spec fn sp_string_line(i: int, text: Seq<char>) -> Seq<char> {
    sp_data_label(DataLabelView::Str(i)) + ": .asciz \""@ + text + "\" "@
}

/// The initializer a variable's word is filled with.
pub open spec fn sp_init_text(init: VarInitView) -> Seq<char> {
    match init {
        VarInitView::Int(v) => sp_dec_signed(v),
        VarInitView::StrRef(i) => sp_data_label(DataLabelView::Str(i)),
    }
}

/// One decimal digit as text.
fn digit_str(d: u64) -> (r: &'static str)
    requires
        d < 10,
    ensures
        r@ == seq![digit_char(d as int)],
{
    proof {
        reveal_strlit("0");
        reveal_strlit("1");
        reveal_strlit("2");
        reveal_strlit("3");
        reveal_strlit("4");
        reveal_strlit("5");
        reveal_strlit("6");
        reveal_strlit("7");
        reveal_strlit("8");
        reveal_strlit("9");
    }
    let r = if d == 0 {
        "0"
    } else if d == 1 {
        "1"
    } else if d == 2 {
        "2"
    } else if d == 3 {
        "3"
    } else if d == 4 {
        "4"
    } else if d == 5 {
        "5"
    } else if d == 6 {
        "6"
    } else if d == 7 {
        "7"
    } else if d == 8 {
        "8"
    } else {
        "9"
    };
    proof {
        assert(r@ =~= seq![digit_char(d as int)]);
    }
    r
}

/// Append the decimal spelling of `n`.
fn push_dec(out: &mut String, n: u64)
    ensures
        final(out)@ == old(out)@ + sp_dec(n as int),
    decreases n,
{
    if n >= 10 {
        push_dec(out, n / 10);
        out.append(digit_str(n % 10));
        proof {
            assert(out@ =~= old(out)@ + sp_dec(n as int));
        }
    } else {
        out.append(digit_str(n));
        proof {
            assert(out@ =~= old(out)@ + sp_dec(n as int));
        }
    }
}

/// Append the decimal spelling of a signed value.
fn push_dec_signed(out: &mut String, v: i64)
    ensures
        final(out)@ == old(out)@ + sp_dec_signed(v as int),
{
    if v < 0 {
        out.append("-");
        let mag: u64 = if v == i64::MIN {
            9223372036854775808u64
        } else {
            (-v) as u64
        };
        push_dec(out, mag);
        proof {
            assert(out@ =~= old(out)@ + sp_dec_signed(v as int));
        }
    } else {
        push_dec(out, v as u64);
    }
}

/// Append a register name.
fn push_reg(out: &mut String, r: Reg)
    ensures
        final(out)@ == old(out)@ + sp_reg(r),
{
    out.append("x");
    push_dec(out, r.0 as u64);
    proof {
        assert(out@ =~= old(out)@ + sp_reg(r));
    }
}

/// Append a data label.
fn push_data_label(out: &mut String, l: &DataLabel)
    ensures
        final(out)@ == old(out)@ + sp_data_label(l@),
{
    match l {
        DataLabel::Var(name) => {
            out.append("__var_");
            out.append(name.as_str());
        },
        DataLabel::Str(n) => {
            out.append("__str_");
            push_dec(out, *n as u64);
        },
    }
    proof {
        assert(out@ =~= old(out)@ + sp_data_label(l@));
    }
}

/// Append a generated branch label.
fn push_code_label(out: &mut String, n: u64)
    ensures
        final(out)@ == old(out)@ + sp_code_label(n as int),
{
    out.append("__L_");
    push_dec(out, n);
    proof {
        assert(out@ =~= old(out)@ + sp_code_label(n as int));
    }
}

/// The mnemonic text of a combining instruction.
fn mnem_str(m: Mnem) -> (r: &'static str)
    ensures
        r@ == sp_mnem(m),
{
    match m {
        Mnem::Add => "add",
        Mnem::Sub => "sub",
        Mnem::Mul => "mul",
        Mnem::Div => "div",
        Mnem::Rem => "rem",
        Mnem::Srl => "srl",
        Mnem::Sra => "sra",
        Mnem::Sll => "sll",
        Mnem::And => "and",
        Mnem::Or => "or",
        Mnem::Xor => "xor",
        Mnem::Slt => "slt",
        Mnem::Sltu => "sltu",
    }
}

/// Render one instruction to its text line.
#[verifier::rlimit(60)]
pub fn render_instr(i: &Instr) -> (r: String)
    ensures
        r@ == sp_render_instr(i@),
{
    let mut out = String::new();
    match i {
        Instr::Li(r, n) => {
            out.append("li ");
            push_reg(&mut out, *r);
            out.append(", ");
            push_dec_signed(&mut out, *n);
        },
        Instr::La(r, l) => {
            out.append("la ");
            push_reg(&mut out, *r);
            out.append(", ");
            push_data_label(&mut out, l);
        },
        Instr::Lw(r, l) => {
            out.append("lw ");
            push_reg(&mut out, *r);
            out.append(", ");
            push_data_label(&mut out, l);
        },
        Instr::LwInd(r, s) => {
            out.append("lw ");
            push_reg(&mut out, *r);
            out.append(", (");
            push_reg(&mut out, *s);
            out.append(")");
        },
        Instr::Sw(v, l, s) => {
            out.append("sw ");
            push_reg(&mut out, *v);
            out.append(", ");
            push_data_label(&mut out, l);
            out.append(", ");
            push_reg(&mut out, *s);
        },
        Instr::Op(m, a, b) => {
            out.append(mnem_str(*m));
            out.append(" ");
            push_reg(&mut out, *a);
            out.append(", ");
            push_reg(&mut out, *a);
            out.append(", ");
            push_reg(&mut out, *b);
        },
        Instr::Neg(r) => {
            out.append("sub ");
            push_reg(&mut out, *r);
            out.append(", x0, ");
            push_reg(&mut out, *r);
        },
        Instr::Seqz(a, b) => {
            out.append("seqz ");
            push_reg(&mut out, *a);
            out.append(", ");
            push_reg(&mut out, *b);
        },
        Instr::Xori(a, b, n) => {
            out.append("xori ");
            push_reg(&mut out, *a);
            out.append(", ");
            push_reg(&mut out, *b);
            out.append(", ");
            push_dec_signed(&mut out, *n);
        },
        Instr::MvArg(i, r) => {
            out.append("mv a");
            push_dec(&mut out, *i as u64);
            out.append(", ");
            push_reg(&mut out, *r);
        },
        Instr::Call(name) => {
            out.append("call ");
            out.append(name.as_str());
        },
        Instr::Beqz(r, l) => {
            out.append("beqz ");
            push_reg(&mut out, *r);
            out.append(", ");
            push_code_label(&mut out, *l);
        },
        Instr::Jump(l) => {
            out.append("j ");
            push_code_label(&mut out, *l);
        },
        Instr::Label(l) => {
            push_code_label(&mut out, *l);
            out.append(":");
        },
    }
    proof {
        assert(out@ =~= sp_render_instr(i@));
    }
    out
}

/// Render the data section: one line per interned string, then a label
/// line and a word line per declared variable.
pub fn data_lines(stab: &SymTab) -> (r: Vec<String>)
    ensures
        r.deep_view() == sp_data_lines(stab@),
{
    let mut out: Vec<String> = Vec::new();
    let n = stab.strings.len();
    let mut i: usize = 0;
    while i < n
        invariant
            i <= n,
            n == stab.strings.len(),
            out.deep_view() == Seq::new(i as nat, |k: int| sp_string_line(k, stab@.strings[k])),
        decreases n - i,
    {
        let ghost pre = out.deep_view();
        let mut line = String::new();
        line.append("__str_");
        push_dec(&mut line, i as u64);
        line.append(": .asciz \"");
        line.append(stab.strings[i].as_str());
        line.append("\" ");
        proof {
            assert(line@ =~= sp_string_line(i as int, stab@.strings[i as int]));
        }
        let ghost lv1 = line@;
        out.push(line);
        proof {
            assert(out.deep_view() =~= pre.push(lv1));
            assert(out.deep_view() =~= Seq::new(
                (i + 1) as nat,
                |k: int| sp_string_line(k, stab@.strings[k]),
            ));
        }
        i = i + 1;
    }
    let m = stab.vars.len();
    let mut j: usize = 0;
    while j < m
        invariant
            j <= m,
            m == stab.vars.len(),
            n == stab.strings.len(),
            out.deep_view() == Seq::new(n as nat, |k: int| sp_string_line(k, stab@.strings[k]))
                + Seq::new(
                (j * 2) as nat,
                |k: int|
                    if k % 2 == 0 {
                        sp_data_label(DataLabelView::Var(stab@.vars[k / 2].0)) + ":"@
                    } else {
                        "    .word "@ + sp_init_text(stab@.vars[k / 2].1)
                    },
            ),
        decreases m - j,
    {
        let ghost pre = out.deep_view();
        let mut line = String::new();
        line.append("__var_");
        line.append(stab.vars[j].0.as_str());
        line.append(":");
        proof {
            assert(line@ =~= sp_data_label(DataLabelView::Var(stab@.vars[j as int].0)) + ":"@);
        }
        let ghost lv1 = line@;
        out.push(line);
        let mut wline = String::new();
        wline.append("    .word ");
        match &stab.vars[j].1 {
            VarInit::Int(v) => {
                push_dec_signed(&mut wline, *v);
            },
            VarInit::StrRef(si) => {
                wline.append("__str_");
                push_dec(&mut wline, *si as u64);
            },
        }
        proof {
            assert(wline@ =~= "    .word "@ + sp_init_text(stab@.vars[j as int].1));
        }
        let ghost lv2 = wline@;
        out.push(wline);
        proof {
            assert(out.deep_view() =~= pre.push(lv1).push(lv2));
            assert((j + 1) * 2 == j * 2 + 2);
            assert(out.deep_view() =~= Seq::new(
                n as nat,
                |k: int| sp_string_line(k, stab@.strings[k]),
            ) + Seq::new(
                ((j + 1) * 2) as nat,
                |k: int|
                    if k % 2 == 0 {
                        sp_data_label(DataLabelView::Var(stab@.vars[k / 2].0)) + ":"@
                    } else {
                        "    .word "@ + sp_init_text(stab@.vars[k / 2].1)
                    },
            ));
        }
        j = j + 1;
    }
    proof {
        assert(out.deep_view() =~= sp_data_lines(stab@));
    }
    out
}

/// Render the whole instruction list, one line per instruction.
pub fn instr_lines(instrs: &Vec<Instr>) -> (r: Vec<String>)
    ensures
        r.deep_view().len() == instrs.deep_view().len(),
        forall|k: int|
            0 <= k < instrs.deep_view().len() ==> r.deep_view()[k] == sp_render_instr(
                #[trigger] instrs.deep_view()[k],
            ),
{
    let mut out: Vec<String> = Vec::new();
    let n = instrs.len();
    let mut i: usize = 0;
    while i < n
        invariant
            i <= n,
            n == instrs.len(),
            out.deep_view().len() == i as nat,
            forall|k: int|
                0 <= k < i ==> out.deep_view()[k] == sp_render_instr(
                    #[trigger] instrs.deep_view()[k],
                ),
        decreases n - i,
    {
        let line = render_instr(&instrs[i]);
        out.push(line);
        i = i + 1;
    }
    out
}

} // verus!

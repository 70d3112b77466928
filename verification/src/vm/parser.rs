//! The instruction language: registers, constants, the four instructions,
//! and the parser that turns raw text lines into them.

use vstd::prelude::*;
use vstd::string::*;

use crate::vm::text::{
    canon_int, char_is_alphabetic, dec_digits, i32_to_dec, int_lit_ok, int_lit_val, is_alpha,
    is_ascii_ws, is_dec_digit, lemma_canon_int_round_trip, lemma_tokens_three, lemma_tokens_two,
    no_ws, parse_i32_str, tokenize, tokens_of, u64_to_dec,
};

verus! {

// ---------------------------------------------------------------------------
// Data model
// ---------------------------------------------------------------------------

/// A register name: in well-formed programs a case-sensitive alphabetic
/// string. The constructor does not check; the parser does.
#[derive(Hash, Eq, PartialEq, Clone, Debug)]
pub struct Register(String);

impl View for Register {
    type V = Seq<char>;

    closed spec fn view(&self) -> Seq<char> {
        self.0@
    }
}

impl Register {
    pub fn of(r: String) -> (res: Register)
        ensures
            res@ == r@,
    {
        Register(r)
    }

    /// The register's identifier.
    pub fn name(&self) -> (r: &String)
        ensures
            r@ == self@,
    {
        &self.0
    }

    /// A copy of this register whose name is known to be the same.
    pub fn duplicate(&self) -> (r: Register)
        ensures
            r@ == self@,
    {
        Register(self.0.clone())
    }

    /// Whether two registers carry the same identifier.
    pub fn same_as(&self, other: &Register) -> (r: bool)
        ensures
            r == (self@ == other@),
    {
        self.0.eq(&other.0)
    }
}

/// A signed 32-bit constant.
#[derive(Clone, Copy, Debug, PartialEq, Eq, PartialOrd, Ord)]
pub struct Constant(i32);

impl View for Constant {
    type V = int;

    closed spec fn view(&self) -> int {
        self.0 as int
    }
}

impl Constant {
    pub fn of(v: i32) -> (res: Constant)
        ensures
            res@ == v as int,
    {
        Constant(v)
    }

    /// The constant's value.
    pub fn value(&self) -> (v: i32)
        ensures
            v as int == self@,
    {
        self.0
    }
}

/// An operand that is either a literal constant or a register reference,
/// resolved only at execution time.
#[derive(Clone, Debug, PartialEq, Eq)]
pub enum ConstOrReg {
    Const(Constant),
    Reg(Register),
}

/// The mathematical shape of a `ConstOrReg`.
pub enum ConstOrRegV {
    Const(int),
    Reg(Seq<char>),
}

impl View for ConstOrReg {
    type V = ConstOrRegV;

    open spec fn view(&self) -> ConstOrRegV {
        match self {
            ConstOrReg::Const(c) => ConstOrRegV::Const(c@),
            ConstOrReg::Reg(r) => ConstOrRegV::Reg(r@),
        }
    }
}

/// One instruction of the language.
#[derive(Clone, Debug, PartialEq, Eq)]
pub enum Instruction {
    Mov(Register, ConstOrReg),
    Add(Register, Register),
    Jnz(ConstOrReg, ConstOrReg),
    Print(Register),
}

/// The mathematical shape of an `Instruction`.
pub enum InstructionV {
    Mov(Seq<char>, ConstOrRegV),
    Add(Seq<char>, Seq<char>),
    Jnz(ConstOrRegV, ConstOrRegV),
    Print(Seq<char>),
}

impl View for Instruction {
    type V = InstructionV;

    open spec fn view(&self) -> InstructionV {
        match self {
            Instruction::Mov(d, s) => InstructionV::Mov(d@, s@),
            Instruction::Add(d, s) => InstructionV::Add(d@, s@),
            Instruction::Jnz(t, o) => InstructionV::Jnz(t@, o@),
            Instruction::Print(r) => InstructionV::Print(r@),
        }
    }
}

/// A parse failure; parsing stops at the first one.
#[derive(Debug, PartialEq)]
pub enum ParseError {
    /// No lines were supplied at all.
    EmptyInput,
    /// The line at this 0-based index has no tokens.
    EmptyLine(usize),
    /// An operand token fails its own grammar; carries the diagnostic text.
    IncorrectArgument(String),
    /// Unknown opcode or wrong operand count; carries the diagnostic text.
    InstructionNotFoundOrWrongArgs(String),
}

/// The mathematical shape of a `ParseError`.
pub enum ParseErrorV {
    EmptyInput,
    EmptyLine(int),
    IncorrectArgument(Seq<char>),
    InstructionNotFoundOrWrongArgs(Seq<char>),
}

impl View for ParseError {
    type V = ParseErrorV;

    open spec fn view(&self) -> ParseErrorV {
        match self {
            ParseError::EmptyInput => ParseErrorV::EmptyInput,
            ParseError::EmptyLine(i) => ParseErrorV::EmptyLine(*i as int),
            ParseError::IncorrectArgument(m) => ParseErrorV::IncorrectArgument(m@),
            ParseError::InstructionNotFoundOrWrongArgs(m) => {
                ParseErrorV::InstructionNotFoundOrWrongArgs(m@)
            },
        }
    }
}

// ---------------------------------------------------------------------------
// The grammar, as spec functions
// ---------------------------------------------------------------------------

/// A valid register token: one or more characters, every one alphabetic.
pub open spec fn valid_reg(s: Seq<char>) -> bool {
    s.len() > 0 && forall|i: int| 0 <= i < s.len() ==> is_alpha(s[i])
}

/// The diagnostic text for an operand that fails its grammar.
pub open spec fn incorrect_arg_msg(tok: Seq<char>) -> Seq<char> {
    "Failed to parse "@ + tok
        + ", with error: Parsing failure, register value should be alphabetic"@
}

/// The diagnostic text for an unknown opcode or a wrong operand count.
pub open spec fn not_found_msg(idx: nat, line: Seq<char>) -> Seq<char> {
    "Not found instruction or wrong args on line "@ + dec_digits(idx) + ", error: "@ + line
}

/// How a token is read where a register is demanded.
pub open spec fn reg_of_tok(tok: Seq<char>) -> Result<Seq<char>, ParseErrorV> {
    if valid_reg(tok) {
        Ok(tok)
    } else {
        Err(ParseErrorV::IncorrectArgument(incorrect_arg_msg(tok)))
    }
}

/// How a token is read where a constant or a register is allowed: the
/// constant grammar is tried first, so a numeric token is always a constant.
pub open spec fn cor_of_tok(tok: Seq<char>) -> Result<ConstOrRegV, ParseErrorV> {
    if int_lit_ok(tok) {
        Ok(ConstOrRegV::Const(int_lit_val(tok)))
    } else if valid_reg(tok) {
        Ok(ConstOrRegV::Reg(tok))
    } else {
        Err(ParseErrorV::IncorrectArgument(incorrect_arg_msg(tok)))
    }
}

/// How one line is read, given its 0-based index.
pub open spec fn parse_line_spec(line: Seq<char>, idx: nat) -> Result<InstructionV, ParseErrorV> {
    let toks = tokens_of(line);
    if toks.len() == 3 && toks[0] == "mov"@ {
        match reg_of_tok(toks[1]) {
            Err(e) => Err(e),
            Ok(d) => match cor_of_tok(toks[2]) {
                Err(e) => Err(e),
                Ok(s) => Ok(InstructionV::Mov(d, s)),
            },
        }
    } else if toks.len() == 3 && toks[0] == "add"@ {
        match reg_of_tok(toks[1]) {
            Err(e) => Err(e),
            Ok(d) => match reg_of_tok(toks[2]) {
                Err(e) => Err(e),
                Ok(s) => Ok(InstructionV::Add(d, s)),
            },
        }
    } else if toks.len() == 2 && toks[0] == "print"@ {
        match reg_of_tok(toks[1]) {
            Err(e) => Err(e),
            Ok(r) => Ok(InstructionV::Print(r)),
        }
    } else if toks.len() == 3 && toks[0] == "jnz"@ {
        match cor_of_tok(toks[1]) {
            Err(e) => Err(e),
            Ok(t) => match cor_of_tok(toks[2]) {
                Err(e) => Err(e),
                Ok(o) => Ok(InstructionV::Jnz(t, o)),
            },
        }
    } else if toks.len() >= 1 {
        Err(ParseErrorV::InstructionNotFoundOrWrongArgs(not_found_msg(idx, line)))
    } else {
        Err(ParseErrorV::EmptyLine(idx as int))
    }
}

/// How the lines from `idx` on are read: the first error wins.
pub open spec fn parse_lines_spec(lines: Seq<Seq<char>>, idx: nat) -> Result<
    Seq<InstructionV>,
    ParseErrorV,
>
    decreases lines.len() - idx,
{
    if idx >= lines.len() {
        Ok(Seq::empty())
    } else {
        match parse_line_spec(lines[idx as int], idx) {
            Err(e) => Err(e),
            Ok(ins) => match parse_lines_spec(lines, idx + 1) {
                Err(e) => Err(e),
                Ok(rest) => Ok(seq![ins] + rest),
            },
        }
    }
}

/// How a whole program text is read: an empty line sequence is refused
/// outright, anything else line by line.
pub open spec fn parse_spec(lines: Seq<Seq<char>>) -> Result<Seq<InstructionV>, ParseErrorV> {
    if lines.len() == 0 {
        Err(ParseErrorV::EmptyInput)
    } else {
        parse_lines_spec(lines, 0)
    }
}

/// The views of a sequence of raw lines.
pub open spec fn lines_view(input: Seq<&str>) -> Seq<Seq<char>> {
    input.map_values(|s: &str| s@)
}

/// The views of a sequence of instructions.
pub open spec fn instrs_view(instrs: Seq<Instruction>) -> Seq<InstructionV> {
    instrs.map_values(|i: Instruction| i@)
}

// ---------------------------------------------------------------------------
// The parser
// ---------------------------------------------------------------------------

fn incorrect_argument(tok: &String) -> (e: ParseError)
    ensures
        e@ == ParseErrorV::IncorrectArgument(incorrect_arg_msg(tok@)),
{
    let mut m = "Failed to parse ".to_owned();
    m.append(tok.as_str());
    m.append(", with error: Parsing failure, register value should be alphabetic");
    ParseError::IncorrectArgument(m)
}

fn not_found(line: &str, idx: usize) -> (e: ParseError)
    ensures
        e@ == ParseErrorV::InstructionNotFoundOrWrongArgs(not_found_msg(idx as nat, line@)),
{
    let mut m = "Not found instruction or wrong args on line ".to_owned();
    let num = u64_to_dec(idx as u64);
    m.append(num.as_str());
    m.append(", error: ");
    m.append(line);
    ParseError::InstructionNotFoundOrWrongArgs(m)
}

/// Reads a register token: accepted exactly when it is nonempty and every
/// character is alphabetic.
fn parse_register(tok: &String) -> (r: Result<Register, ParseError>)
    ensures
        valid_reg(tok@) ==> (r matches Ok(reg) && reg@ == tok@ && reg_token_wf(tok@)),
        !valid_reg(tok@) ==> (r matches Err(e) && e@ == ParseErrorV::IncorrectArgument(
            incorrect_arg_msg(tok@),
        )),
{
    let s = tok.as_str();
    let n = s.unicode_len();
    if n == 0 {
        return Err(incorrect_argument(tok));
    }
    let mut i: usize = 0;
    while i < n
        invariant
            i <= n,
            n == tok@.len(),
            s@ == tok@,
            forall|j: int|
                0 <= j < i ==> is_alpha(tok@[j]) && !is_ascii_ws(tok@[j]) && !is_dec_digit(
                    tok@[j],
                ) && tok@[j] != '-',
        decreases n - i,
    {
        let c = s.get_char(i);
        if !char_is_alphabetic(c) {
            return Err(incorrect_argument(tok));
        }
        i = i + 1;
    }
    Ok(Register::of(tok.clone()))
}

/// Reads an operand that may be a constant or a register; the constant
/// grammar is tried first.
fn parse_const_or_reg(tok: &String) -> (r: Result<ConstOrReg, ParseError>)
    ensures
        int_lit_ok(tok@) ==> (r matches Ok(x) && x@ == ConstOrRegV::Const(int_lit_val(tok@))
            && cor_wf(x@)),
        !int_lit_ok(tok@) && valid_reg(tok@) ==> (r matches Ok(x) && x@ == ConstOrRegV::Reg(
            tok@,
        ) && cor_wf(x@)),
        !int_lit_ok(tok@) && !valid_reg(tok@) ==> (r matches Err(e) && e@
            == ParseErrorV::IncorrectArgument(incorrect_arg_msg(tok@))),
{
    match parse_i32_str(tok.as_str()) {
        Some(v) => Ok(ConstOrReg::Const(Constant::of(v))),
        None => match parse_register(tok) {
            Ok(reg) => Ok(ConstOrReg::Reg(reg)),
            Err(e) => Err(e),
        },
    }
}

/// Reads one line, given its 0-based index.
fn parse_line(line: &str, idx: usize) -> (r: Result<Instruction, ParseError>)
    ensures
        ({
            let sp = parse_line_spec(line@, idx as nat);
            match r {
                Ok(ins) => sp == Ok::<InstructionV, ParseErrorV>(ins@) && instruction_wf(ins@),
                Err(e) => sp == Err::<InstructionV, ParseErrorV>(e@),
            }
        }),
{
    let toks = tokenize(line);
    if toks.len() == 3 {
        let mov = "mov".to_owned();
        let add = "add".to_owned();
        let jnz = "jnz".to_owned();
        if toks[0].eq(&mov) {
            match parse_register(&toks[1]) {
                Err(e) => Err(e),
                Ok(d) => match parse_const_or_reg(&toks[2]) {
                    Err(e) => Err(e),
                    Ok(s) => Ok(Instruction::Mov(d, s)),
                },
            }
        } else if toks[0].eq(&add) {
            match parse_register(&toks[1]) {
                Err(e) => Err(e),
                Ok(d) => match parse_register(&toks[2]) {
                    Err(e) => Err(e),
                    Ok(s) => Ok(Instruction::Add(d, s)),
                },
            }
        } else if toks[0].eq(&jnz) {
            match parse_const_or_reg(&toks[1]) {
                Err(e) => Err(e),
                Ok(t) => match parse_const_or_reg(&toks[2]) {
                    Err(e) => Err(e),
                    Ok(o) => Ok(Instruction::Jnz(t, o)),
                },
            }
        } else {
            Err(not_found(line, idx))
        }
    } else if toks.len() == 2 {
        let print = "print".to_owned();
        if toks[0].eq(&print) {
            match parse_register(&toks[1]) {
                Err(e) => Err(e),
                Ok(reg) => Ok(Instruction::Print(reg)),
            }
        } else {
            Err(not_found(line, idx))
        }
    } else if toks.len() >= 1 {
        Err(not_found(line, idx))
    } else {
        Err(ParseError::EmptyLine(idx))
    }
}

/// Splices a parsed prefix onto the outcome for the remaining lines.
spec fn splice(prefix: Seq<InstructionV>, r: Result<Seq<InstructionV>, ParseErrorV>) -> Result<
    Seq<InstructionV>,
    ParseErrorV,
> {
    match r {
        Ok(rest) => Ok(prefix + rest),
        Err(e) => Err(e),
    }
}

/// Reads a whole program: every line an instruction, in order, or the first
/// error; an empty line sequence is refused as `EmptyInput`. Everything
/// parsed is well formed, so the canonical-text laws apply to it.
pub fn parse_instructions(input: Vec<&str>) -> (r: Result<Vec<Instruction>, ParseError>)
    ensures
        ({
            let sp = parse_spec(lines_view(input@));
            match r {
                Ok(instrs) => sp == Ok::<Seq<InstructionV>, ParseErrorV>(instrs_view(instrs@))
                    && forall|i: int|
                    0 <= i < instrs@.len() ==> instruction_wf(#[trigger] instrs@[i]@),
                Err(e) => sp == Err::<Seq<InstructionV>, ParseErrorV>(e@),
            }
        }),
{
    let ghost lv = lines_view(input@);
    if input.len() == 0 {
        return Err(ParseError::EmptyInput);
    }
    let mut out: Vec<Instruction> = Vec::new();
    let mut i: usize = 0;
    proof {
        assert(instrs_view(out@) =~= Seq::<InstructionV>::empty());
        assert(splice(instrs_view(out@), parse_lines_spec(lv, 0)) == parse_lines_spec(lv, 0));
        assert(Seq::<InstructionV>::empty() + Seq::<InstructionV>::empty()
            =~= Seq::<InstructionV>::empty());
        match parse_lines_spec(lv, 0) {
            Ok(rest) => {
                assert(Seq::<InstructionV>::empty() + rest =~= rest);
            },
            _ => {},
        }
    }
    while i < input.len()
        invariant
            i <= input@.len(),
            lv == lines_view(input@),
            lv.len() == input@.len(),
            parse_spec(lv) == splice(instrs_view(out@), parse_lines_spec(lv, i as nat)),
            forall|j: int| 0 <= j < out@.len() ==> instruction_wf(#[trigger] out@[j]@),
        decreases input@.len() - i,
    {
        let line: &str = input[i];
        proof {
            assert(lv[i as int] == line@);
        }
        match parse_line(line, i) {
            Err(e) => {
                proof {
                    assert(parse_lines_spec(lv, i as nat) == Err::<Seq<InstructionV>, ParseErrorV>(
                        e@,
                    ));
                }
                return Err(e);
            },
            Ok(ins) => {
                let ghost prev = out@;
                out.push(ins);
                proof {
                    assert(instrs_view(out@) =~= instrs_view(prev) + seq![ins@]);
                    assert forall|j: int|
                        0 <= j < out@.len() implies instruction_wf(#[trigger] out@[j]@) by {
                        if j < prev.len() {
                            assert(out@[j] == prev[j]);
                        }
                    }
                    match parse_lines_spec(lv, (i + 1) as nat) {
                        Ok(rest) => {
                            assert(instrs_view(prev) + (seq![ins@] + rest) =~= (instrs_view(prev)
                                + seq![ins@]) + rest);
                        },
                        _ => {},
                    }
                }
            },
        }
        i = i + 1;
    }
    proof {
        assert(parse_lines_spec(lv, i as nat) == Ok::<Seq<InstructionV>, ParseErrorV>(
            Seq::empty(),
        ));
        assert(instrs_view(out@) + Seq::<InstructionV>::empty() =~= instrs_view(out@));
    }
    Ok(out)
}

// ---------------------------------------------------------------------------
// Canonical text
// ---------------------------------------------------------------------------

/// The canonical text of an operand: the register name, or the integer's
/// canonical decimal form.
pub open spec fn canon_cor(x: ConstOrRegV) -> Seq<char> {
    match x {
        ConstOrRegV::Const(v) => canon_int(v),
        ConstOrRegV::Reg(s) => s,
    }
}

/// The canonical text of an instruction: opcode and operands separated by
/// single spaces.
pub open spec fn canon_line(i: InstructionV) -> Seq<char> {
    match i {
        InstructionV::Mov(d, s) => seq!['m', 'o', 'v'] + seq![' '] + d + seq![' '] + canon_cor(s),
        InstructionV::Add(d, s) => seq!['a', 'd', 'd'] + seq![' '] + d + seq![' '] + s,
        InstructionV::Jnz(t, o) => seq!['j', 'n', 'z'] + seq![' '] + canon_cor(t) + seq![' ']
            + canon_cor(o),
        InstructionV::Print(r) => seq!['p', 'r', 'i', 'n', 't'] + seq![' '] + r,
    }
}

fn cor_to_string(x: &ConstOrReg) -> (r: String)
    ensures
        r@ == canon_cor(x@),
{
    match x {
        ConstOrReg::Const(c) => i32_to_dec(c.value()),
        ConstOrReg::Reg(reg) => reg.name().as_str().to_owned(),
    }
}

impl Instruction {
    /// The canonical text of this instruction.
    pub fn to_line(&self) -> (r: String)
        ensures
            r@ == canon_line(self@),
    {
        proof {
            reveal_strlit("mov ");
            reveal_strlit("add ");
            reveal_strlit("jnz ");
            reveal_strlit("print ");
            reveal_strlit(" ");
        }
        match self {
            Instruction::Mov(d, s) => {
                let mut out = "mov ".to_owned();
                out.append(d.name().as_str());
                out.append(" ");
                let cs = cor_to_string(s);
                out.append(cs.as_str());
                proof {
                    assert(out@ =~= canon_line(self@));
                }
                out
            },
            Instruction::Add(d, s) => {
                let mut out = "add ".to_owned();
                out.append(d.name().as_str());
                out.append(" ");
                out.append(s.name().as_str());
                proof {
                    assert(out@ =~= canon_line(self@));
                }
                out
            },
            Instruction::Jnz(t, o) => {
                let mut out = "jnz ".to_owned();
                let ts = cor_to_string(t);
                out.append(ts.as_str());
                out.append(" ");
                let os = cor_to_string(o);
                out.append(os.as_str());
                proof {
                    assert(out@ =~= canon_line(self@));
                }
                out
            },
            Instruction::Print(r) => {
                let mut out = "print ".to_owned();
                out.append(r.name().as_str());
                proof {
                    assert(out@ =~= canon_line(self@));
                }
                out
            },
        }
    }
}

// ---------------------------------------------------------------------------
// Laws of the grammar
// ---------------------------------------------------------------------------

/// A register identifier as the parser produces one: nonempty and entirely
/// alphabetic. The character test guarantees besides that an alphabetic
/// character is never whitespace, a decimal digit or the minus sign; the
/// test's own spec is opaque, so those facts stand here beside the grammar.
pub open spec fn reg_token_wf(s: Seq<char>) -> bool {
    &&& valid_reg(s)
    &&& forall|i: int|
        0 <= i < s.len() ==> !is_ascii_ws(s[i]) && !is_dec_digit(s[i]) && s[i] != '-'
}

/// A well-formed operand: a constant in the 32-bit range, or a well-formed
/// register identifier.
pub open spec fn cor_wf(x: ConstOrRegV) -> bool {
    match x {
        ConstOrRegV::Const(v) => -0x8000_0000 <= v <= 0x7fff_ffff,
        ConstOrRegV::Reg(s) => reg_token_wf(s),
    }
}

/// A well-formed instruction: every register identifier well formed, every
/// constant in the 32-bit range — exactly what the parser produces.
pub open spec fn instruction_wf(i: InstructionV) -> bool {
    match i {
        InstructionV::Mov(d, s) => reg_token_wf(d) && cor_wf(s),
        InstructionV::Add(d, s) => reg_token_wf(d) && reg_token_wf(s),
        InstructionV::Jnz(t, o) => cor_wf(t) && cor_wf(o),
        InstructionV::Print(r) => reg_token_wf(r),
    }
}

/// The canonical text of a well-formed operand is a nonempty token without
/// whitespace, and reading it back as a constant-or-register operand gives
/// the operand itself.
proof fn lemma_cor_token(x: ConstOrRegV)
    requires
        cor_wf(x),
    ensures
        canon_cor(x).len() > 0,
        no_ws(canon_cor(x)),
        cor_of_tok(canon_cor(x)) == Ok::<ConstOrRegV, ParseErrorV>(x),
{
    match x {
        ConstOrRegV::Const(v) => {
            lemma_canon_int_round_trip(v);
        },
        ConstOrRegV::Reg(s) => {
            assert(!(s[0] == '-'));
            assert(!is_dec_digit(s[0]));
            assert(!int_lit_ok(s));
        },
    }
}

/// Law: a token that satisfies the integer grammar always resolves to a
/// constant, never to a register — numeric text cannot name a register.
pub proof fn lemma_numeric_token_is_constant(tok: Seq<char>)
    requires
        int_lit_ok(tok),
    ensures
        cor_of_tok(tok) == Ok::<ConstOrRegV, ParseErrorV>(ConstOrRegV::Const(int_lit_val(tok))),
{
}

/// Law: a one-line program holding the canonical text of a well-formed
/// instruction — anything `parse_instructions` produced is one — parses to
/// exactly that instruction.
pub proof fn lemma_parsed_program_round_trip(ins: InstructionV)
    requires
        instruction_wf(ins),
    ensures
        parse_spec(seq![canon_line(ins)]) == Ok::<Seq<InstructionV>, ParseErrorV>(seq![ins]),
{
    let lines = seq![canon_line(ins)];
    lemma_canonical_round_trip(ins, 0);
    assert(parse_lines_spec(lines, 1) == Ok::<Seq<InstructionV>, ParseErrorV>(Seq::empty()));
    assert(seq![ins] + Seq::<InstructionV>::empty() =~= seq![ins]);
}

/// Law: re-parsing the canonical text of a well-formed instruction, at any
/// line index, yields exactly that instruction — the textual grammar is
/// idempotent on canonical forms.
pub proof fn lemma_canonical_round_trip(i: InstructionV, idx: nat)
    requires
        instruction_wf(i),
    ensures
        parse_line_spec(canon_line(i), idx) == Ok::<InstructionV, ParseErrorV>(i),
{
    reveal_strlit("mov");
    reveal_strlit("add");
    reveal_strlit("jnz");
    reveal_strlit("print");
    match i {
        InstructionV::Mov(d, s) => {
            let wm = seq!['m', 'o', 'v'];
            let t2 = canon_cor(s);
            lemma_cor_token(s);
            assert(no_ws(wm)) by {
                assert forall|k: int| 0 <= k < wm.len() implies !is_ascii_ws(wm[k]) by {}
            }
            lemma_tokens_three(wm, d, t2);
            assert(wm =~= "mov"@);
            let toks = tokens_of(canon_line(i));
            assert(toks[0] == "mov"@ && toks[1] == d && toks[2] == t2);
            assert(reg_of_tok(d) == Ok::<Seq<char>, ParseErrorV>(d));
        },
        InstructionV::Add(d, s) => {
            let wa = seq!['a', 'd', 'd'];
            assert(no_ws(wa)) by {
                assert forall|k: int| 0 <= k < wa.len() implies !is_ascii_ws(wa[k]) by {}
            }
            lemma_tokens_three(wa, d, s);
            assert(wa =~= "add"@);
            let toks = tokens_of(canon_line(i));
            assert(toks[0] == "add"@ && toks[1] == d && toks[2] == s);
            assert(toks[0] != "mov"@) by {
                assert("add"@[0] == 'a' && "mov"@[0] == 'm');
            }
        },
        InstructionV::Jnz(t, o) => {
            let wj = seq!['j', 'n', 'z'];
            let t1 = canon_cor(t);
            let t2 = canon_cor(o);
            lemma_cor_token(t);
            lemma_cor_token(o);
            assert(no_ws(wj)) by {
                assert forall|k: int| 0 <= k < wj.len() implies !is_ascii_ws(wj[k]) by {}
            }
            lemma_tokens_three(wj, t1, t2);
            assert(wj =~= "jnz"@);
            let toks = tokens_of(canon_line(i));
            assert(toks[0] == "jnz"@ && toks[1] == t1 && toks[2] == t2);
            assert(toks[0] != "mov"@) by {
                assert("jnz"@[0] == 'j' && "mov"@[0] == 'm');
            }
            assert(toks[0] != "add"@) by {
                assert("jnz"@[0] == 'j' && "add"@[0] == 'a');
            }
        },
        InstructionV::Print(r) => {
            let wp = seq!['p', 'r', 'i', 'n', 't'];
            assert(no_ws(wp)) by {
                assert forall|k: int| 0 <= k < wp.len() implies !is_ascii_ws(wp[k]) by {}
            }
            lemma_tokens_two(wp, r);
            assert(wp =~= "print"@);
            let toks = tokens_of(canon_line(i));
            assert(canon_line(i) == wp + seq![' '] + r);
            assert(toks[0] == "print"@ && toks[1] == r);
        },
    }
}

} // verus!

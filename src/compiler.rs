//! The two passes: tokens to operations and symbols, then operations to bytes.
//!
//! Two choices are kept from the machine's conventions. The program counter
//! and the memory pointer are single bytes and wrap around past 255 without a
//! diagnostic. A name defined twice, as a label or a variable, silently takes
//! its latest address.
use vstd::prelude::*;
use crate::isa::{
    find_instruction, instruction_set, instruction_table, lookup, models, Instruction,
    InstructionArgument,
};
use crate::symbols::{Label, SymbolTable};
use crate::text::{
    copy_range, parse_hex, parse_hex_byte, split_whitespace, texts, tokens, trim, trim_char,
};

verus! {

/// The operand of a decoded statement.
pub enum OperationArgument {
    Absent,
    Value(u8),
    Address(Vec<char>),
    Dereference(Vec<char>),
}

/// The mathematical content of an operand.
pub enum Operand {
    Absent,
    Value(u8),
    Address(Seq<char>),
    Dereference(Seq<char>),
}

impl View for OperationArgument {
    type V = Operand;

    open spec fn view(&self) -> Operand {
        match self {
            OperationArgument::Absent => Operand::Absent,
            OperationArgument::Value(v) => Operand::Value(*v),
            OperationArgument::Address(n) => Operand::Address(n@),
            OperationArgument::Dereference(n) => Operand::Dereference(n@),
        }
    }
}

/// One decoded statement: the instruction selected and its operand.
pub struct Operation<'a> {
    pub instruction: &'a Instruction<'a>,
    pub argument: OperationArgument,
}

/// The mathematical content of a decoded statement.
pub struct OperationModel {
    pub opcode: u8,
    pub operand: Operand,
}

impl<'a> Operation<'a> {
    pub open spec fn model(&self) -> OperationModel {
        OperationModel { opcode: self.instruction.opcode, operand: self.argument@ }
    }

    /// An operation of `instruction` with operand `argument`.
    pub fn new(instruction: &'a Instruction<'a>, argument: OperationArgument) -> (r: Self)
        ensures
            r.instruction == instruction,
            r.argument == argument,
    {
        Self { instruction, argument }
    }
}

/// The decoded statements of a list of operations, as values.
pub open spec fn operation_models<'a>(v: Seq<Operation<'a>>) -> Seq<OperationModel> {
    v.map_values(|o: Operation<'a>| o.model())
}

/// Why a compilation stopped.
pub enum CompileError {
    /// The text after `0x` is not a hexadecimal byte; holds the operand token.
    InvalidArgument(Vec<char>),
    /// No instruction answers to the mnemonic in the operand shape given.
    InvalidInstruction(Vec<char>),
    /// `VAR` stands last, with no name after it.
    InvalidVariable,
    /// An operand names a symbol that is never defined.
    InvalidSymbol(Vec<char>),
}

/// The mathematical content of a compile error.
pub enum Fault {
    InvalidArgument(Seq<char>),
    InvalidInstruction(Seq<char>),
    InvalidVariable,
    InvalidSymbol(Seq<char>),
}

impl View for CompileError {
    type V = Fault;

    open spec fn view(&self) -> Fault {
        match self {
            CompileError::InvalidArgument(t) => Fault::InvalidArgument(t@),
            CompileError::InvalidInstruction(t) => Fault::InvalidInstruction(t@),
            CompileError::InvalidVariable => Fault::InvalidVariable,
            CompileError::InvalidSymbol(t) => Fault::InvalidSymbol(t@),
        }
    }
}

/// What the first pass has gathered at some point of the token stream.
pub struct ScanState {
    pub pc: u8,
    pub mp: u8,
    pub comment: bool,
    pub symbols: Map<Seq<char>, u8>,
    pub ops: Seq<OperationModel>,
}

/// Program counter 0, memory pointer 128 (the first byte past the program
/// region), outside a comment, nothing defined or decoded.
pub open spec fn initial() -> ScanState {
    ScanState { pc: 0, mp: 128, comment: false, symbols: Map::empty(), ops: seq![] }
}

/// `x + n`, wrapped to a byte.
pub open spec fn bump(x: u8, n: u8) -> u8 {
    ((x + n) % 256) as u8
}

/// A token that opens or closes a comment.
pub open spec fn is_comment_mark(t: Seq<char>) -> bool {
    t.len() > 0 && t[0] == ';'
}

/// A token that defines a label.
pub open spec fn is_label_def(t: Seq<char>) -> bool {
    t.len() > 0 && t.last() == ':'
}

/// The keyword that declares a variable.
pub open spec fn is_var_keyword(t: Seq<char>) -> bool {
    t == seq!['V', 'A', 'R']
}

/// The operand shape that the token after a mnemonic announces, if any.
pub open spec fn operand_mode(t: Seq<char>) -> Option<InstructionArgument> {
    if t.len() >= 2 && t[0] == '0' && t[1] == 'x' {
        Some(InstructionArgument::Value)
    } else if t.len() >= 2 && t[0] == '&' && t[1] == '&' {
        Some(InstructionArgument::Dereference)
    } else if t.len() >= 1 && t[0] == '&' {
        Some(InstructionArgument::Address)
    } else {
        None
    }
}

/// The operand shape announced after the token at `i`.
pub open spec fn mode_at(toks: Seq<Seq<char>>, i: int) -> Option<InstructionArgument> {
    if i + 1 < toks.len() {
        operand_mode(toks[i + 1])
    } else {
        None
    }
}

/// The state after an instruction of `width` bytes that decodes to `op`.
pub open spec fn emit(s: ScanState, width: u8, op: OperationModel) -> ScanState {
    ScanState { pc: bump(s.pc, width), ops: s.ops.push(op), ..s }
}

/// One statement of the first pass, from the token at `i`: the position of the
/// next statement and the state after this one.
pub open spec fn step(toks: Seq<Seq<char>>, i: int, s: ScanState) -> Result<(int, ScanState), Fault> {
    let t = toks[i];
    if is_comment_mark(t) {
        Ok((i + 1, ScanState { comment: !s.comment, ..s }))
    } else if s.comment {
        Ok((i + 1, s))
    } else if is_label_def(t) {
        Ok((i + 1, ScanState { symbols: s.symbols.insert(trim(t, ':'), s.pc), ..s }))
    } else if is_var_keyword(t) {
        if i + 1 < toks.len() {
            Ok(
                (
                    i + 2,
                    ScanState {
                        symbols: s.symbols.insert(toks[i + 1], s.mp),
                        mp: bump(s.mp, 1),
                        ..s
                    },
                ),
            )
        } else {
            Err(Fault::InvalidVariable)
        }
    } else {
        let mode = mode_at(toks, i);
        match lookup(t, mode) {
            None => Err(Fault::InvalidInstruction(t)),
            Some(e) => match mode {
                None => Ok((i + 1, emit(s, 1, OperationModel { opcode: e.opcode, operand: Operand::Absent }))),
                Some(InstructionArgument::Value) => {
                    let a = toks[i + 1];
                    match parse_hex(a.subrange(2, a.len() as int)) {
                        None => Err(Fault::InvalidArgument(a)),
                        Some(v) => Ok((i + 2, emit(s, 2, OperationModel { opcode: e.opcode, operand: Operand::Value(v) }))),
                    }
                },
                Some(InstructionArgument::Dereference) => Ok(
                    (i + 2, emit(s, 2, OperationModel { opcode: e.opcode, operand: Operand::Dereference(trim(toks[i + 1], '&')) })),
                ),
                Some(_) => Ok(
                    (i + 2, emit(s, 2, OperationModel { opcode: e.opcode, operand: Operand::Address(trim(toks[i + 1], '&')) })),
                ),
            },
        }
    }
}

/// The first pass over `toks` from position `i` in state `s`.
pub open spec fn scan(toks: Seq<Seq<char>>, i: int, s: ScanState) -> Result<ScanState, Fault>
    decreases toks.len() - i,
{
    if i < 0 || i >= toks.len() {
        Ok(s)
    } else {
        match step(toks, i, s) {
            Err(e) => Err(e),
            // `step` always moves forward; the test makes that plain to termination.
            Ok((j, t)) => if i < j {
                scan(toks, j, t)
            } else {
                Ok(t)
            },
        }
    }
}

/// The bytes of one operation, with symbols looked up in `syms`.
pub open spec fn operation_bytes(op: OperationModel, syms: Map<Seq<char>, u8>) -> Result<Seq<u8>, Fault> {
    match op.operand {
        Operand::Absent => Ok(seq![op.opcode]),
        Operand::Value(v) => Ok(seq![op.opcode, v]),
        Operand::Address(n) | Operand::Dereference(n) => if syms.contains_key(n) {
            Ok(seq![op.opcode, syms[n]])
        } else {
            Err(Fault::InvalidSymbol(n))
        },
    }
}

/// The second pass: the bytes of `ops` in order, or the first failure.
pub open spec fn encode_all(ops: Seq<OperationModel>, syms: Map<Seq<char>, u8>) -> Result<Seq<u8>, Fault>
    decreases ops.len(),
{
    if ops.len() == 0 {
        Ok(seq![])
    } else {
        match encode_all(ops.drop_last(), syms) {
            Err(e) => Err(e),
            Ok(b) => match operation_bytes(ops.last(), syms) {
                Err(e) => Err(e),
                Ok(c) => Ok(b + c),
            },
        }
    }
}

/// Both passes over a token stream.
pub open spec fn assemble(toks: Seq<Seq<char>>) -> Result<Seq<u8>, Fault> {
    match scan(toks, 0, initial()) {
        Err(e) => Err(e),
        Ok(s) => encode_all(s.ops, s.symbols),
    }
}

/// Both passes over a source text.
pub open spec fn compile_text(src: Seq<char>) -> Result<Seq<u8>, Fault> {
    assemble(tokens(src))
}

/// The outcome of a compilation, as a value.
pub open spec fn bytes_view(r: Result<Vec<u8>, CompileError>) -> Result<Seq<u8>, Fault> {
    match r {
        Ok(b) => Ok(b@),
        Err(e) => Err(e@),
    }
}


/// The second pass: the bytes of `operations`, with every symbol looked up in
/// `symbols`; fails on the first symbol that is not defined.
pub fn encode(operations: &Vec<Operation>, symbols: &SymbolTable) -> (r: Result<Vec<u8>, CompileError>)
    ensures
        bytes_view(r) == encode_all(operation_models(operations@), symbols@),
{
    let ghost all = operation_models(operations@);
    let mut out: Vec<u8> = Vec::new();
    let mut i: usize = 0;
    while i < operations.len()
        invariant
            0 <= i <= operations@.len(),
            all == operation_models(operations@),
            encode_all(all.subrange(0, i as int), symbols@) == Ok::<Seq<u8>, Fault>(out@),
        decreases operations@.len() - i,
    {
        let op = &operations[i];
        let ghost pre = all.subrange(0, i as int);
        let ghost next = all.subrange(0, i + 1);
        assert(next.drop_last() =~= pre);
        assert(next.last() == op.model());
        let ghost before = out@;
        match &op.argument {
            OperationArgument::Absent => {
                out.push(op.instruction.opcode);
                assert(out@ =~= before + seq![op.instruction.opcode]);
            },
            OperationArgument::Value(v) => {
                out.push(op.instruction.opcode);
                out.push(*v);
                assert(out@ =~= before + seq![op.instruction.opcode, *v]);
            },
            OperationArgument::Address(n) | OperationArgument::Dereference(n) => {
                match symbols.get(n) {
                    Some(label) => {
                        out.push(op.instruction.opcode);
                        out.push(label.address);
                        assert(out@ =~= before + seq![op.instruction.opcode, label.address]);
                    },
                    None => {
                        let name = copy_range(n, 0, n.len());
                        assert(name@ =~= n@);
                        proof {
                            lemma_encode_stops(all, i as int + 1, symbols@);
                            assert(all.subrange(0, all.len() as int) =~= all);
                        }
                        return Err(CompileError::InvalidSymbol(name));
                    },
                }
            },
        }
        assert(encode_all(next, symbols@) == Ok::<Seq<u8>, Fault>(out@));
        i = i + 1;
    }
    assert(all.subrange(0, all.len() as int) =~= all);
    Ok(out)
}

/// Once a prefix of the operations fails, so do all the longer ones, with the
/// same error.
proof fn lemma_encode_stops(ops: Seq<OperationModel>, k: int, syms: Map<Seq<char>, u8>)
    requires
        0 <= k <= ops.len(),
        encode_all(ops.subrange(0, k), syms) is Err,
    ensures
        encode_all(ops.subrange(0, ops.len() as int), syms) == encode_all(ops.subrange(0, k), syms),
    decreases ops.len() - k,
{
    if k < ops.len() {
        let next = ops.subrange(0, k + 1);
        assert(next.drop_last() =~= ops.subrange(0, k));
        lemma_encode_stops(ops, k + 1, syms);
    }
}

fn is_var_token(t: &Vec<char>) -> (r: bool)
    ensures
        r == is_var_keyword(t@),
{
    let r = t.len() == 3 && t[0] == 'V' && t[1] == 'A' && t[2] == 'R';
    if r {
        assert(t@ =~= seq!['V', 'A', 'R']);
    }
    r
}

fn operand_mode_of(t: &Vec<char>) -> (r: Option<InstructionArgument>)
    ensures
        r == operand_mode(t@),
{
    if t.len() >= 2 && t[0] == '0' && t[1] == 'x' {
        Some(InstructionArgument::Value)
    } else if t.len() >= 2 && t[0] == '&' && t[1] == '&' {
        Some(InstructionArgument::Dereference)
    } else if t.len() >= 1 && t[0] == '&' {
        Some(InstructionArgument::Address)
    } else {
        None
    }
}

fn bump_byte(x: u8, n: u8) -> (r: u8)
    ensures
        r == bump(x, n),
{
    ((x as u16 + n as u16) % 256) as u8
}

/// The first pass: reads statements from `toks` in order and returns the
/// operations they decode to and the symbols they define, or the first error.
pub fn parse<'a>(table: &'a Vec<Instruction<'static>>, toks: &Vec<Vec<char>>) -> (r: Result<
    (Vec<Operation<'a>>, SymbolTable),
    CompileError,
>)
    requires
        models(table@) == instruction_set(),
    ensures
        match r {
            Ok((ops, syms)) => scan(texts(toks@), 0, initial()) matches Ok(s) && s.ops
                == operation_models(ops@) && s.symbols == syms@,
            Err(e) => scan(texts(toks@), 0, initial()) == Err::<ScanState, Fault>(e@),
        },
{
    let ghost all = texts(toks@);
    let n = toks.len();
    let mut pc: u8 = 0;
    let mut mp: u8 = 128;
    let mut comment = false;
    let mut symbols = SymbolTable::new();
    let mut ops: Vec<Operation<'a>> = Vec::new();
    let mut i: usize = 0;
    assert(operation_models(ops@) =~= Seq::<OperationModel>::empty());
    while i < n
        invariant
            n == toks@.len() == all.len(),
            all == texts(toks@),
            i <= n,
            models(table@) == instruction_set(),
            scan(all, 0, initial()) == scan(
                all,
                i as int,
                ScanState { pc, mp, comment, symbols: symbols@, ops: operation_models(ops@) },
            ),
        decreases n - i,
    {
        let ghost st = ScanState { pc, mp, comment, symbols: symbols@, ops: operation_models(ops@) };
        let t = &toks[i];
        assert(all[i as int] == t@);
        if t.len() > 0 && t[0] == ';' {
            comment = !comment;
            i = i + 1;
        } else if comment {
            i = i + 1;
        } else if t.len() > 0 && t[t.len() - 1] == ':' {
            let name = trim_char(t, ':');
            symbols.insert(name, Label::new(pc));
            i = i + 1;
        } else if is_var_token(t) {
            if i + 1 < n {
                let next = &toks[i + 1];
                assert(all[i + 1] == next@);
                let name = copy_range(next, 0, next.len());
                assert(name@ =~= next@);
                symbols.insert(name, Label::new(mp));
                mp = bump_byte(mp, 1);
                i = i + 2;
            } else {
                return Err(CompileError::InvalidVariable);
            }
        } else {
            let mode = if i + 1 < n {
                assert(all[i + 1] == toks@[i + 1]@);
                operand_mode_of(&toks[i + 1])
            } else {
                None
            };
            assert(mode == mode_at(all, i as int));
            match find_instruction(table, t, mode) {
                None => {
                    let name = copy_range(t, 0, t.len());
                    assert(name@ =~= t@);
                    return Err(CompileError::InvalidInstruction(name));
                },
                Some(k) => {
                    let instruction = &table[k];
                    assert(lookup(t@, mode) == Some(instruction.model()));
                    let ghost before = operation_models(ops@);
                    let argument = match mode {
                        None => OperationArgument::Absent,
                        Some(InstructionArgument::Value) => {
                            let next = &toks[i + 1];
                            assert(all[i + 1] == next@);
                            let digits = copy_range(next, 2, next.len());
                            match parse_hex_byte(&digits) {
                                Some(v) => OperationArgument::Value(v),
                                None => {
                                    let text = copy_range(next, 0, next.len());
                                    assert(text@ =~= next@);
                                    return Err(CompileError::InvalidArgument(text));
                                },
                            }
                        },
                        Some(InstructionArgument::Dereference) => {
                            assert(all[i + 1] == toks@[i + 1]@);
                            OperationArgument::Dereference(trim_char(&toks[i + 1], '&'))
                        },
                        Some(_) => {
                            assert(all[i + 1] == toks@[i + 1]@);
                            OperationArgument::Address(trim_char(&toks[i + 1], '&'))
                        },
                    };
                    let op = Operation::new(instruction, argument);
                    ops.push(op);
                    assert(operation_models(ops@) =~= before.push(op.model()));
                    if mode.is_some() {
                        pc = bump_byte(pc, 2);
                        i = i + 2;
                    } else {
                        pc = bump_byte(pc, 1);
                        i = i + 1;
                    }
                },
            }
        }
    }
    Ok((ops, symbols))
}

/// The characters of `s`.
pub fn chars_of(s: &str) -> (r: Vec<char>)
    ensures
        r@ == s@,
{
    let n = s.unicode_len();
    let mut r: Vec<char> = Vec::new();
    let mut i: usize = 0;
    while i < n
        invariant
            n == s@.len(),
            i <= n,
            r@ == s@.subrange(0, i as int),
        decreases n - i,
    {
        r.push(s.get_char(i));
        assert(r@ =~= s@.subrange(0, i + 1));
        i = i + 1;
    }
    assert(s@.subrange(0, n as int) =~= s@);
    r
}

/// Assembles a source text into the binary image of the machine, or the first
/// error met: the first pass runs over the whole text before the second.
pub fn compile(source: &str) -> (r: Result<Vec<u8>, CompileError>)
    ensures
        bytes_view(r) == compile_text(source@),
{
    let text = chars_of(source);
    let toks = split_whitespace(&text);
    let table = instruction_table();
    match parse(&table, &toks) {
        Err(e) => Err(e),
        Ok((ops, symbols)) => encode(&ops, &symbols),
    }
}

} // verus!

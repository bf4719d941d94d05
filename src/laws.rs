//! Properties of the assembler as a whole, proved over the two passes.
use vstd::prelude::*;
use crate::compiler::{
    assemble, encode_all, initial, is_comment_mark, is_label_def, is_var_keyword, operand_mode,
    operation_bytes, scan, step, Operand, OperationModel, ScanState,
};
use crate::isa::{lookup, InstructionArgument};
use crate::text::trim;

verus! {

/// A token that stands for a whole instruction without operand: a mnemonic
/// whose first row takes none, and nothing else the first pass would read.
pub open spec fn plain_instruction(t: Seq<char>) -> bool {
    !is_comment_mark(t) && !is_label_def(t) && !is_var_keyword(t) && operand_mode(t) is None
        && (lookup(t, None) matches Some(e) && e.argument == InstructionArgument::Absent)
}

/// The opcode that a lone mnemonic selects.
pub open spec fn plain_opcode(t: Seq<char>) -> u8 {
    lookup(t, None).unwrap().opcode
}

/// The operations that a stream of lone mnemonics decodes to.
pub open spec fn plain_ops(toks: Seq<Seq<char>>) -> Seq<OperationModel> {
    toks.map_values(|t: Seq<char>| OperationModel { opcode: plain_opcode(t), operand: Operand::Absent })
}

proof fn lemma_scan_plain(toks: Seq<Seq<char>>, i: int, s: ScanState)
    requires
        0 <= i <= toks.len(),
        !s.comment,
        forall|j: int| 0 <= j < toks.len() ==> plain_instruction(#[trigger] toks[j]),
    ensures
        scan(toks, i, s) matches Ok(f) && f.symbols == s.symbols && f.ops == s.ops + plain_ops(
            toks.subrange(i, toks.len() as int),
        ),
    decreases toks.len() - i,
{
    let rest = plain_ops(toks.subrange(i, toks.len() as int));
    if i == toks.len() {
        assert(rest =~= seq![]);
        assert(s.ops + rest =~= s.ops);
    } else {
        assert(plain_instruction(toks[i]));
        if i + 1 < toks.len() {
            assert(plain_instruction(toks[i + 1]));
        }
        let op = OperationModel { opcode: plain_opcode(toks[i]), operand: Operand::Absent };
        let t = ScanState { pc: ((s.pc + 1) % 256) as u8, ops: s.ops.push(op), ..s };
        assert(step(toks, i, s) == Ok::<(int, ScanState), crate::compiler::Fault>((i + 1, t)));
        lemma_scan_plain(toks, i + 1, t);
        assert(rest =~= seq![op] + plain_ops(toks.subrange(i + 1, toks.len() as int)));
        assert(t.ops + plain_ops(toks.subrange(i + 1, toks.len() as int)) =~= s.ops + rest);
    }
}

proof fn lemma_encode_plain(ops: Seq<OperationModel>, syms: Map<Seq<char>, u8>)
    requires
        forall|j: int| 0 <= j < ops.len() ==> (#[trigger] ops[j]).operand is Absent,
    ensures
        encode_all(ops, syms) == Ok::<Seq<u8>, crate::compiler::Fault>(
            ops.map_values(|o: OperationModel| o.opcode),
        ),
    decreases ops.len(),
{
    if ops.len() > 0 {
        let d = ops.drop_last();
        assert forall|j: int| 0 <= j < d.len() implies (#[trigger] d[j]).operand is Absent by {
            assert(d[j] == ops[j]);
        }
        lemma_encode_plain(d, syms);
        assert(ops[ops.len() - 1].operand is Absent);
        assert(d.map_values(|o: OperationModel| o.opcode) + seq![ops.last().opcode]
            =~= ops.map_values(|o: OperationModel| o.opcode));
    } else {
        assert(ops.map_values(|o: OperationModel| o.opcode) =~= seq![]);
    }
}

/// A stream of operand-less instructions assembles to one byte per token: the
/// opcode of each, in order.
pub proof fn law_plain_stream_one_byte_each(toks: Seq<Seq<char>>)
    requires
        forall|j: int| 0 <= j < toks.len() ==> plain_instruction(#[trigger] toks[j]),
    ensures
        assemble(toks) matches Ok(b) && b.len() == toks.len() && forall|j: int|
            0 <= j < toks.len() ==> b[j] == plain_opcode(#[trigger] toks[j]),
{
    lemma_scan_plain(toks, 0, initial());
    let f = scan(toks, 0, initial())->Ok_0;
    let ops = plain_ops(toks.subrange(0, toks.len() as int));
    assert(toks.subrange(0, toks.len() as int) =~= toks);
    assert(f.ops =~= ops);
    lemma_encode_plain(ops, f.symbols);
}

/// The operand byte of an operation: the immediate, or the address of the
/// symbol it names.
pub open spec fn resolved(op: OperationModel, syms: Map<Seq<char>, u8>) -> Option<u8> {
    match op.operand {
        Operand::Absent => None,
        Operand::Value(v) => Some(v),
        Operand::Address(n) | Operand::Dereference(n) => if syms.contains_key(n) {
            Some(syms[n])
        } else {
            None
        },
    }
}

/// An operation with an operand adds exactly two bytes after those of the
/// operations before it: its opcode, then the operand's resolved value.
pub proof fn law_operand_takes_two_bytes(
    ops: Seq<OperationModel>,
    op: OperationModel,
    syms: Map<Seq<char>, u8>,
)
    requires
        !(op.operand is Absent),
        resolved(op, syms) is Some,
        encode_all(ops, syms) is Ok,
    ensures
        encode_all(ops.push(op), syms) == Ok::<Seq<u8>, crate::compiler::Fault>(
            encode_all(ops, syms)->Ok_0 + seq![op.opcode, resolved(op, syms).unwrap()],
        ),
{
    assert(ops.push(op).drop_last() =~= ops);
}

/// The first pass, started at position `i` in state `s`, comes to a statement
/// at position `k` in state `sk`.
pub open spec fn reaches(toks: Seq<Seq<char>>, i: int, s: ScanState, k: int, sk: ScanState) -> bool
    decreases toks.len() - i,
{
    if i == k {
        s == sk
    } else if 0 <= i < toks.len() {
        match step(toks, i, s) {
            Ok((j, t)) => i < j && reaches(toks, j, t, k, sk),
            Err(_) => false,
        }
    } else {
        false
    }
}

proof fn lemma_reaches_scan(toks: Seq<Seq<char>>, i: int, s: ScanState, k: int, sk: ScanState)
    requires
        0 <= i,
        reaches(toks, i, s, k, sk),
    ensures
        scan(toks, i, s) == scan(toks, k, sk),
    decreases toks.len() - i,
{
    if i != k {
        let (j, t) = step(toks, i, s)->Ok_0;
        lemma_reaches_scan(toks, j, t, k, sk);
    }
}

proof fn lemma_reaches_forward(toks: Seq<Seq<char>>, i: int, s: ScanState, k: int, sk: ScanState)
    requires
        reaches(toks, i, s, k, sk),
    ensures
        i <= k,
    decreases toks.len() - i,
{
    if i != k {
        let (j, t) = step(toks, i, s)->Ok_0;
        lemma_reaches_forward(toks, j, t, k, sk);
    }
}

proof fn lemma_reaches_trans(
    toks: Seq<Seq<char>>,
    i: int,
    s: ScanState,
    k: int,
    sk: ScanState,
    m: int,
    sm: ScanState,
)
    requires
        reaches(toks, i, s, k, sk),
        reaches(toks, k, sk, m, sm),
    ensures
        reaches(toks, i, s, m, sm),
    decreases toks.len() - i,
{
    if i != k {
        let (j, t) = step(toks, i, s)->Ok_0;
        lemma_reaches_forward(toks, j, t, k, sk);
        lemma_reaches_forward(toks, k, sk, m, sm);
        lemma_reaches_trans(toks, j, t, k, sk, m, sm);
    }
}

/// Whether the token `t` may give `name` a value: as a label, or as the name
/// after `VAR`.
pub open spec fn may_define(t: Seq<char>, name: Seq<char>) -> bool {
    (is_label_def(t) && trim(t, ':') == name) || t == name
}

proof fn lemma_symbol_kept(toks: Seq<Seq<char>>, i: int, s: ScanState, name: Seq<char>, k: int)
    requires
        0 <= k < i,
        s.symbols.contains_key(name),
        forall|j: int| k < j < toks.len() ==> !may_define(#[trigger] toks[j], name),
        scan(toks, i, s) is Ok,
    ensures
        (scan(toks, i, s)->Ok_0).symbols.contains_key(name),
        (scan(toks, i, s)->Ok_0).symbols[name] == s.symbols[name],
    decreases toks.len() - i,
{
    if i < toks.len() {
        let (j, t) = step(toks, i, s)->Ok_0;
        assert(!may_define(toks[i], name));
        if i + 1 < toks.len() {
            assert(!may_define(toks[i + 1], name));
        }
        assert(t.symbols.contains_key(name) && t.symbols[name] == s.symbols[name]);
        if i < j {
            lemma_symbol_kept(toks, j, t, name, k);
        }
    }
}

/// A label resolves to the program counter at its definition, for every
/// reference to it, before or after the definition, once no later token
/// defines the name again.
pub proof fn law_label_resolves(toks: Seq<Seq<char>>, k: int, sk: ScanState)
    requires
        0 <= k < toks.len(),
        reaches(toks, 0, initial(), k, sk),
        !sk.comment,
        is_label_def(toks[k]),
        !is_comment_mark(toks[k]),
        forall|j: int| k < j < toks.len() ==> !may_define(#[trigger] toks[j], trim(toks[k], ':')),
        scan(toks, 0, initial()) is Ok,
    ensures
        ({
            let f = scan(toks, 0, initial())->Ok_0;
            let name = trim(toks[k], ':');
            &&& f.symbols.contains_key(name)
            &&& f.symbols[name] == sk.pc
            &&& forall|j: int|
                0 <= j < f.ops.len() && (f.ops[j].operand == Operand::Address(name)
                    || f.ops[j].operand == Operand::Dereference(name)) ==> operation_bytes(
                    #[trigger] f.ops[j],
                    f.symbols,
                ) == Ok::<Seq<u8>, crate::compiler::Fault>(seq![f.ops[j].opcode, sk.pc])
        }),
{
    let name = trim(toks[k], ':');
    lemma_reaches_scan(toks, 0, initial(), k, sk);
    let t = ScanState { symbols: sk.symbols.insert(name, sk.pc), ..sk };
    assert(step(toks, k, sk) == Ok::<(int, ScanState), crate::compiler::Fault>((k + 1, t)));
    lemma_symbol_kept(toks, k + 1, t, name, k);
}

proof fn lemma_inside_comment(toks: Seq<Seq<char>>, j: int, m: int, sk: ScanState)
    requires
        0 <= j <= m < toks.len(),
        !sk.comment,
        is_comment_mark(toks[m]),
        forall|x: int| j <= x < m ==> !is_comment_mark(#[trigger] toks[x]),
    ensures
        reaches(toks, j, ScanState { comment: true, ..sk }, m + 1, sk),
    decreases m - j,
{
    let on = ScanState { comment: true, ..sk };
    if j == m {
        assert(step(toks, j, on) == Ok::<(int, ScanState), crate::compiler::Fault>((m + 1, sk)));
        assert(reaches(toks, m + 1, sk, m + 1, sk));
    } else {
        assert(!is_comment_mark(toks[j]));
        assert(step(toks, j, on) == Ok::<(int, ScanState), crate::compiler::Fault>((j + 1, on)));
        lemma_inside_comment(toks, j + 1, m, sk);
    }
}

/// A region between two `;` tokens leaves the first pass exactly where it was:
/// no operation, so no byte, and no symbol comes from inside it.
pub proof fn law_comment_region_is_silent(toks: Seq<Seq<char>>, k: int, m: int, sk: ScanState)
    requires
        0 <= k < m < toks.len(),
        reaches(toks, 0, initial(), k, sk),
        !sk.comment,
        is_comment_mark(toks[k]),
        is_comment_mark(toks[m]),
        forall|x: int| k < x < m ==> !is_comment_mark(#[trigger] toks[x]),
    ensures
        reaches(toks, 0, initial(), m + 1, sk),
{
    let on = ScanState { comment: true, ..sk };
    assert(step(toks, k, sk) == Ok::<(int, ScanState), crate::compiler::Fault>((k + 1, on)));
    lemma_inside_comment(toks, k + 1, m, sk);
    assert(reaches(toks, k, sk, m + 1, sk));
    lemma_reaches_trans(toks, 0, initial(), k, sk, m + 1, sk);
}

/// Whether the statement at `i`, read in state `s`, declares a variable.
pub open spec fn declares_var(toks: Seq<Seq<char>>, i: int, s: ScanState) -> bool {
    !is_comment_mark(toks[i]) && !s.comment && !is_label_def(toks[i]) && is_var_keyword(toks[i])
}

/// How many variables the first pass declares from position `i` in state `s`
/// until it comes to position `k`.
pub open spec fn var_count(toks: Seq<Seq<char>>, i: int, s: ScanState, k: int) -> nat
    decreases toks.len() - i,
{
    if i < 0 || i >= k || i >= toks.len() {
        0
    } else {
        match step(toks, i, s) {
            Ok((j, t)) => if i < j {
                (if declares_var(toks, i, s) {
                    1nat
                } else {
                    0nat
                }) + var_count(toks, j, t, k)
            } else {
                0
            },
            Err(_) => 0,
        }
    }
}

proof fn lemma_memory_pointer(toks: Seq<Seq<char>>, i: int, s: ScanState, k: int, sk: ScanState)
    requires
        0 <= i,
        reaches(toks, i, s, k, sk),
    ensures
        sk.mp == (s.mp + var_count(toks, i, s, k)) % 256,
    decreases toks.len() - i,
{
    if i != k {
        let (j, t) = step(toks, i, s)->Ok_0;
        lemma_reaches_forward(toks, j, t, k, sk);
        lemma_memory_pointer(toks, j, t, k, sk);
        let n = var_count(toks, j, t, k);
        if declares_var(toks, i, s) {
            assert(t.mp == (s.mp + 1) % 256);
            assert(((s.mp + 1) % 256 + n) % 256 == (s.mp + 1 + n) % 256) by (nonlinear_arith);
        } else {
            assert(t.mp == s.mp);
        }
    }
}

/// Variables take successive bytes from 128 on: the declaration that follows
/// `n` earlier ones gives its name the address `128 + n` (wrapped to a byte)
/// and moves the memory pointer one slot on.
pub proof fn law_variable_slots(toks: Seq<Seq<char>>, k: int, sk: ScanState)
    requires
        0 <= k,
        k + 1 < toks.len(),
        reaches(toks, 0, initial(), k, sk),
        declares_var(toks, k, sk),
    ensures
        ({
            let n = var_count(toks, 0, initial(), k);
            step(toks, k, sk) matches Ok((j, t)) && j == k + 2 && t.symbols.contains_key(
                toks[k + 1],
            ) && t.symbols[toks[k + 1]] == (128 + n) % 256 && t.mp == (128 + n + 1) % 256
        }),
{
    lemma_memory_pointer(toks, 0, initial(), k, sk);
    let n = var_count(toks, 0, initial(), k);
    assert(((128 + n) % 256 + 1) % 256 == (128 + n + 1) % 256) by (nonlinear_arith);
}

} // verus!

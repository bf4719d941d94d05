use vstd::prelude::*;

verus! {

/// The operand shape an instruction expects.
#[derive(Clone, Copy, Debug, PartialEq, Eq, Structural)]
pub enum InstructionArgument {
    Absent,
    Value,
    Address,
    Dereference,
}

/// One row of the instruction table: an opcode, its mnemonic, and the operand
/// shape that selects it. A mnemonic may stand in several rows.
pub struct Instruction<'a> {
    pub opcode: u8,
    pub mnemonic: &'a str,
    pub argument: InstructionArgument,
}

/// The mathematical content of an instruction table row.
pub struct InstructionModel {
    pub opcode: u8,
    pub mnemonic: Seq<char>,
    pub argument: InstructionArgument,
}

impl<'a> Instruction<'a> {
    pub open spec fn model(&self) -> InstructionModel {
        InstructionModel { opcode: self.opcode, mnemonic: self.mnemonic@, argument: self.argument }
    }

    /// A row with the given opcode, mnemonic and operand shape.
    pub fn new(opcode: u8, mnemonic: &'a str, argument: InstructionArgument) -> (r: Self)
        ensures
            r.opcode == opcode,
            r.mnemonic@ == mnemonic@,
            r.argument == argument,
    {
        Self { opcode, mnemonic, argument }
    }
}

/// A row of the instruction set, as a value.
pub open spec fn row(opcode: u8, mnemonic: Seq<char>, argument: InstructionArgument) -> InstructionModel {
    InstructionModel { opcode, mnemonic, argument }
}

/// The instruction set of the machine.
pub open spec fn instruction_set() -> Seq<InstructionModel> {
    seq![
        row(0x01, seq!['H', 'L', 'T'], InstructionArgument::Absent),
        row(0x02, seq!['J', 'M', 'P'], InstructionArgument::Address),
        row(0x03, seq!['J', 'E', 'Q'], InstructionArgument::Address),
        row(0x04, seq!['J', 'N', 'Q'], InstructionArgument::Address),
        row(0x05, seq!['J', 'G', 'R'], InstructionArgument::Address),
        row(0x06, seq!['J', 'G', 'Q'], InstructionArgument::Address),
        row(0x07, seq!['J', 'L', 'E'], InstructionArgument::Address),
        row(0x08, seq!['J', 'L', 'Q'], InstructionArgument::Address),
        row(0x09, seq!['L', 'D', 'A'], InstructionArgument::Value),
        row(0x0a, seq!['L', 'D', 'A'], InstructionArgument::Address),
        row(0x0b, seq!['L', 'D', 'A'], InstructionArgument::Dereference),
        row(0x0c, seq!['L', 'D', 'B'], InstructionArgument::Value),
        row(0x0d, seq!['L', 'D', 'B'], InstructionArgument::Address),
        row(0x0e, seq!['L', 'D', 'B'], InstructionArgument::Dereference),
        row(0x0f, seq!['S', 'T', 'A'], InstructionArgument::Address),
        row(0x10, seq!['S', 'T', 'A'], InstructionArgument::Dereference),
        row(0x11, seq!['S', 'T', 'B'], InstructionArgument::Address),
        row(0x12, seq!['S', 'T', 'B'], InstructionArgument::Dereference),
        row(0x13, seq!['A', 'D', 'D'], InstructionArgument::Absent),
        row(0x14, seq!['S', 'U', 'B'], InstructionArgument::Absent),
        row(0x15, seq!['N', 'E', 'G'], InstructionArgument::Absent),
        row(0x16, seq!['A', 'N', 'D'], InstructionArgument::Absent),
        row(0x17, seq!['O', 'R'], InstructionArgument::Absent),
        row(0x18, seq!['X', 'O', 'R'], InstructionArgument::Absent),
        row(0x19, seq!['N', 'O', 'T'], InstructionArgument::Absent),
        row(0x1a, seq!['S', 'H', 'L'], InstructionArgument::Absent),
        row(0x1b, seq!['S', 'H', 'R'], InstructionArgument::Absent),
        row(0x1c, seq!['C', 'M', 'P'], InstructionArgument::Absent),
        row(0x1d, seq!['O', 'U', 'T', 'A'], InstructionArgument::Absent),
        row(0x1e, seq!['O', 'U', 'T', 'B'], InstructionArgument::Absent),
        row(0x1f, seq!['O', 'U', 'T', 'C'], InstructionArgument::Absent),
        row(0x20, seq!['O', 'U', 'T', 'D'], InstructionArgument::Absent),
    ]
}

/// The rows of an instruction table, as values.
pub open spec fn models(v: Seq<Instruction<'static>>) -> Seq<InstructionModel> {
    v.map_values(|i: Instruction<'static>| i.model())
}

/// Builds the instruction set of the machine.
pub fn instruction_table() -> (r: Vec<Instruction<'static>>)
    ensures
        models(r@) == instruction_set(),
{
    let r = vec![
        Instruction::new(0x01, "HLT", InstructionArgument::Absent),
        Instruction::new(0x02, "JMP", InstructionArgument::Address),
        Instruction::new(0x03, "JEQ", InstructionArgument::Address),
        Instruction::new(0x04, "JNQ", InstructionArgument::Address),
        Instruction::new(0x05, "JGR", InstructionArgument::Address),
        Instruction::new(0x06, "JGQ", InstructionArgument::Address),
        Instruction::new(0x07, "JLE", InstructionArgument::Address),
        Instruction::new(0x08, "JLQ", InstructionArgument::Address),
        Instruction::new(0x09, "LDA", InstructionArgument::Value),
        Instruction::new(0x0a, "LDA", InstructionArgument::Address),
        Instruction::new(0x0b, "LDA", InstructionArgument::Dereference),
        Instruction::new(0x0c, "LDB", InstructionArgument::Value),
        Instruction::new(0x0d, "LDB", InstructionArgument::Address),
        Instruction::new(0x0e, "LDB", InstructionArgument::Dereference),
        Instruction::new(0x0f, "STA", InstructionArgument::Address),
        Instruction::new(0x10, "STA", InstructionArgument::Dereference),
        Instruction::new(0x11, "STB", InstructionArgument::Address),
        Instruction::new(0x12, "STB", InstructionArgument::Dereference),
        Instruction::new(0x13, "ADD", InstructionArgument::Absent),
        Instruction::new(0x14, "SUB", InstructionArgument::Absent),
        Instruction::new(0x15, "NEG", InstructionArgument::Absent),
        Instruction::new(0x16, "AND", InstructionArgument::Absent),
        Instruction::new(0x17, "OR", InstructionArgument::Absent),
        Instruction::new(0x18, "XOR", InstructionArgument::Absent),
        Instruction::new(0x19, "NOT", InstructionArgument::Absent),
        Instruction::new(0x1a, "SHL", InstructionArgument::Absent),
        Instruction::new(0x1b, "SHR", InstructionArgument::Absent),
        Instruction::new(0x1c, "CMP", InstructionArgument::Absent),
        Instruction::new(0x1d, "OUTA", InstructionArgument::Absent),
        Instruction::new(0x1e, "OUTB", InstructionArgument::Absent),
        Instruction::new(0x1f, "OUTC", InstructionArgument::Absent),
        Instruction::new(0x20, "OUTD", InstructionArgument::Absent),
    ];
    proof {
        reveal_strlit("HLT");
        assert("HLT"@ =~= seq!['H', 'L', 'T']);
        reveal_strlit("JMP");
        assert("JMP"@ =~= seq!['J', 'M', 'P']);
        reveal_strlit("JEQ");
        assert("JEQ"@ =~= seq!['J', 'E', 'Q']);
        reveal_strlit("JNQ");
        assert("JNQ"@ =~= seq!['J', 'N', 'Q']);
        reveal_strlit("JGR");
        assert("JGR"@ =~= seq!['J', 'G', 'R']);
        reveal_strlit("JGQ");
        assert("JGQ"@ =~= seq!['J', 'G', 'Q']);
        reveal_strlit("JLE");
        assert("JLE"@ =~= seq!['J', 'L', 'E']);
        reveal_strlit("JLQ");
        assert("JLQ"@ =~= seq!['J', 'L', 'Q']);
        reveal_strlit("LDA");
        assert("LDA"@ =~= seq!['L', 'D', 'A']);
        reveal_strlit("LDB");
        assert("LDB"@ =~= seq!['L', 'D', 'B']);
        reveal_strlit("STA");
        assert("STA"@ =~= seq!['S', 'T', 'A']);
        reveal_strlit("STB");
        assert("STB"@ =~= seq!['S', 'T', 'B']);
        reveal_strlit("ADD");
        assert("ADD"@ =~= seq!['A', 'D', 'D']);
        reveal_strlit("SUB");
        assert("SUB"@ =~= seq!['S', 'U', 'B']);
        reveal_strlit("NEG");
        assert("NEG"@ =~= seq!['N', 'E', 'G']);
        reveal_strlit("AND");
        assert("AND"@ =~= seq!['A', 'N', 'D']);
        reveal_strlit("OR");
        assert("OR"@ =~= seq!['O', 'R']);
        reveal_strlit("XOR");
        assert("XOR"@ =~= seq!['X', 'O', 'R']);
        reveal_strlit("NOT");
        assert("NOT"@ =~= seq!['N', 'O', 'T']);
        reveal_strlit("SHL");
        assert("SHL"@ =~= seq!['S', 'H', 'L']);
        reveal_strlit("SHR");
        assert("SHR"@ =~= seq!['S', 'H', 'R']);
        reveal_strlit("CMP");
        assert("CMP"@ =~= seq!['C', 'M', 'P']);
        reveal_strlit("OUTA");
        assert("OUTA"@ =~= seq!['O', 'U', 'T', 'A']);
        reveal_strlit("OUTB");
        assert("OUTB"@ =~= seq!['O', 'U', 'T', 'B']);
        reveal_strlit("OUTC");
        assert("OUTC"@ =~= seq!['O', 'U', 'T', 'C']);
        reveal_strlit("OUTD");
        assert("OUTD"@ =~= seq!['O', 'U', 'T', 'D']);
        assert(models(r@) =~= instruction_set());
    }
    r
}

/// Whether row `e` answers to mnemonic `m` in mode `mode`; with no mode, any
/// row of that mnemonic does.
pub open spec fn row_matches(e: InstructionModel, m: Seq<char>, mode: Option<InstructionArgument>) -> bool {
    e.mnemonic == m && match mode {
        Some(a) => e.argument == a,
        None => true,
    }
}

/// The first row of `tab`, at index `i` or later, that answers to `m` in `mode`.
pub open spec fn find_from(
    tab: Seq<InstructionModel>,
    m: Seq<char>,
    mode: Option<InstructionArgument>,
    i: int,
) -> Option<int>
    decreases tab.len() - i,
{
    if i < 0 || i >= tab.len() {
        None
    } else if row_matches(tab[i], m, mode) {
        Some(i)
    } else {
        find_from(tab, m, mode, i + 1)
    }
}

/// A row that the search finds lies in the table and answers to the query.
pub proof fn lemma_find_from(
    tab: Seq<InstructionModel>,
    m: Seq<char>,
    mode: Option<InstructionArgument>,
    i: int,
)
    requires
        0 <= i,
    ensures
        find_from(tab, m, mode, i) matches Some(k) ==> i <= k < tab.len() && row_matches(
            tab[k],
            m,
            mode,
        ),
    decreases tab.len() - i,
{
    if 0 <= i < tab.len() && !row_matches(tab[i], m, mode) {
        lemma_find_from(tab, m, mode, i + 1);
    }
}

/// The row of the instruction set that `m` in `mode` selects.
pub open spec fn lookup(m: Seq<char>, mode: Option<InstructionArgument>) -> Option<InstructionModel> {
    match find_from(instruction_set(), m, mode, 0) {
        Some(k) => Some(instruction_set()[k]),
        None => None,
    }
}

/// Whether the text `s` and the characters `t` are the same.
pub fn text_eq(s: &str, t: &Vec<char>) -> (r: bool)
    ensures
        r == (s@ == t@),
{
    let n = s.unicode_len();
    if n != t.len() {
        return false;
    }
    let mut i: usize = 0;
    while i < n
        invariant
            n == s@.len() == t@.len(),
            0 <= i <= n,
            forall|j: int| 0 <= j < i ==> s@[j] == t@[j],
        decreases n - i,
    {
        if s.get_char(i) != t[i] {
            return false;
        }
        i = i + 1;
    }
    assert(s@ =~= t@);
    true
}

/// The index in `tab` of the first row that answers to `m` in `mode`.
pub fn find_instruction(
    tab: &Vec<Instruction<'static>>,
    m: &Vec<char>,
    mode: Option<InstructionArgument>,
) -> (r: Option<usize>)
    ensures
        match r {
            Some(k) => k < tab@.len() && find_from(models(tab@), m@, mode, 0) == Some(k as int),
            None => find_from(models(tab@), m@, mode, 0) is None,
        },
{
    let ghost tm = models(tab@);
    let mut i: usize = 0;
    while i < tab.len()
        invariant
            0 <= i <= tab@.len(),
            tm == models(tab@),
            find_from(tm, m@, mode, 0) == find_from(tm, m@, mode, i as int),
        decreases tab@.len() - i,
    {
        let e = &tab[i];
        let hit = text_eq(e.mnemonic, m) && match mode {
            Some(a) => e.argument == a,
            None => true,
        };
        assert(tm[i as int] == e.model());
        if hit {
            proof {
                lemma_find_from(tm, m@, mode, 0);
            }
            return Some(i);
        }
        i = i + 1;
    }
    None
}

} // verus!

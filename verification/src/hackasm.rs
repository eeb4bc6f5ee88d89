//! The assembler driver: it scans the source once, keeps the symbol table,
//! and resolves in a second pass what the scan had to leave open.
//!
//! The scan turns each address and compute instruction into one [`Word`]. An
//! address instruction whose symbol is not yet in the table yields a word that
//! is still open and remembers the symbol. The second pass walks the words in
//! program order: an open word whose symbol has become a label gets the
//! label's address; any other open symbol is a variable and gets the next
//! free data address, from [`FIRST_VARIABLE`] upwards, in the order in which
//! the variables first occur.

use crate::code;
use crate::parser::{
    comp_of, dest_of, instructions, instructions_unfold, is_carrier, jump_of, kind_of, scan, seek,
    symbol_text, InstructionType, Parser,
};
use crate::text::{binary16, bits16, copy_chars, numeral, parse_numeral, text_eq};
use vstd::prelude::*;
use vstd::string::*;

verus! {

/// The data address of the first variable.
pub const FIRST_VARIABLE: u16 = 16;

/// One entry of the symbol table.
pub struct Symbol {
    pub name: String,
    pub address: u16,
}

/// One word of output while the scan runs.
pub enum Word {
    /// A finished word: its text.
    Bits(String),
    /// An address instruction whose symbol was unknown when it was read.
    Open(String),
}

/// The mathematical view of a [`Word`].
pub enum Slot {
    Bits(Seq<char>),
    Open(Seq<char>),
}

impl View for Word {
    type V = Slot;

    open spec fn view(&self) -> Slot {
        match self {
            Word::Bits(s) => Slot::Bits(s@),
            Word::Open(s) => Slot::Open(s@),
        }
    }
}

/// The views of a sequence of words.
pub open spec fn slots_of(words: Seq<Word>) -> Seq<Slot> {
    Seq::new(words.len(), |i: int| words[i]@)
}

/// The texts of a sequence of strings.
pub open spec fn lines_of(lines: Seq<String>) -> Seq<Seq<char>> {
    Seq::new(lines.len(), |i: int| lines[i]@)
}

/// The table that a list of entries stands for: a later entry of a name
/// replaces an earlier one.
pub open spec fn table_of(entries: Seq<Symbol>) -> Map<Seq<char>, u16>
    decreases entries.len(),
{
    if entries.len() == 0 {
        Map::empty()
    } else {
        table_of(entries.drop_last()).insert(entries.last().name@, entries.last().address)
    }
}

/// The symbols that every program starts with: the registers `R0` to `R15`,
/// the five pointer names for the first five of them, and the bases of the
/// screen and the keyboard.
pub open spec fn predefined() -> Map<Seq<char>, u16> {
    Map::empty().insert(
        "R0"@,
        0u16,
    ).insert(
        "SP"@,
        0u16,
    ).insert(
        "R1"@,
        1u16,
    ).insert(
        "LCL"@,
        1u16,
    ).insert(
        "R2"@,
        2u16,
    ).insert(
        "ARG"@,
        2u16,
    ).insert(
        "R3"@,
        3u16,
    ).insert(
        "THIS"@,
        3u16,
    ).insert(
        "R4"@,
        4u16,
    ).insert(
        "THAT"@,
        4u16,
    ).insert(
        "R5"@,
        5u16,
    ).insert(
        "R6"@,
        6u16,
    ).insert(
        "R7"@,
        7u16,
    ).insert(
        "R8"@,
        8u16,
    ).insert(
        "R9"@,
        9u16,
    ).insert(
        "R10"@,
        10u16,
    ).insert(
        "R11"@,
        11u16,
    ).insert(
        "R12"@,
        12u16,
    ).insert(
        "R13"@,
        13u16,
    ).insert(
        "R14"@,
        14u16,
    ).insert(
        "R15"@,
        15u16,
    ).insert(
        "SCREEN"@,
        16384u16,
    ).insert(
        "KBD"@,
        24576u16,
    )
}

/// How many of the instructions yield a word of output.
pub open spec fn carriers(prog: Seq<Seq<char>>) -> nat
    decreases prog.len(),
{
    if prog.len() == 0 {
        0
    } else {
        carriers(prog.drop_first()) + if is_carrier(prog[0]) {
            1nat
        } else {
            0nat
        }
    }
}

/// The word of a compute instruction: `111`, then the bits of its
/// computation, destination and jump fields, in that order. A field that has
/// no encoding leaves the encoder's error mark in its place.
pub open spec fn compute_word(instr: Seq<char>) -> Seq<char> {
    "111"@ + code::comp_bits(comp_of(instr)) + code::dest_bits(dest_of(instr)) + code::jump_bits(
        jump_of(instr),
    )
}

/// The word of an address instruction with operand `symbol` under `table`: a
/// numeral gives its own value, a symbol of the table its address; any other
/// symbol leaves the word open.
pub open spec fn address_slot(symbol: Seq<char>, table: Map<Seq<char>, u16>) -> Slot {
    match numeral(symbol) {
        Some(n) => Slot::Bits(bits16(n)),
        None => if table.contains_key(symbol) {
            Slot::Bits(bits16(table[symbol]))
        } else {
            Slot::Open(symbol)
        },
    }
}

/// The words that the scan of `prog` yields, one per address and compute
/// instruction, starting with symbol table `table` and with `pc` instructions
/// counted so far. A label yields no word; it enters the table with the
/// count at its place.
pub open spec fn scan_slots(prog: Seq<Seq<char>>, table: Map<Seq<char>, u16>, pc: int) -> Seq<Slot>
    decreases prog.len(),
{
    if prog.len() == 0 {
        Seq::empty()
    } else {
        match kind_of(prog[0]) {
            InstructionType::LINSTRUCTION => scan_slots(
                prog.drop_first(),
                table.insert(symbol_text(prog[0]), pc as u16),
                pc,
            ),
            InstructionType::AINSTRUCTION => seq![address_slot(symbol_text(prog[0]), table)]
                + scan_slots(prog.drop_first(), table, pc + 1),
            InstructionType::CINSTRUCTION => seq![Slot::Bits(compute_word(prog[0]))] + scan_slots(
                prog.drop_first(),
                table,
                pc + 1,
            ),
        }
    }
}

/// The symbol table after the scan of `prog`: `table` with every label of
/// `prog` added, a later label of a name replacing an earlier entry.
pub open spec fn scan_table(prog: Seq<Seq<char>>, table: Map<Seq<char>, u16>, pc: int) -> Map<
    Seq<char>,
    u16,
>
    decreases prog.len(),
{
    if prog.len() == 0 {
        table
    } else {
        match kind_of(prog[0]) {
            InstructionType::LINSTRUCTION => scan_table(
                prog.drop_first(),
                table.insert(symbol_text(prog[0]), pc as u16),
                pc,
            ),
            _ => scan_table(prog.drop_first(), table, pc + 1),
        }
    }
}

/// The finished words for `slots[from..]`, with `table` as the symbol table
/// and `next` as the next free data address. A finished word stays. An open
/// word whose symbol is in the table gets that address. Any other open word
/// names a new variable: it gets `next`, and the variable enters the table.
pub open spec fn resolve(slots: Seq<Slot>, from: int, table: Map<Seq<char>, u16>, next: int) -> Seq<
    Seq<char>,
>
    decreases slots.len() - from,
{
    if from < 0 || from >= slots.len() {
        Seq::empty()
    } else {
        match slots[from] {
            Slot::Bits(b) => seq![b] + resolve(slots, from + 1, table, next),
            Slot::Open(name) => if table.contains_key(name) {
                seq![bits16(table[name])] + resolve(slots, from + 1, table, next)
            } else {
                seq![bits16(next as u16)] + resolve(
                    slots,
                    from + 1,
                    table.insert(name, next as u16),
                    next + 1,
                )
            },
        }
    }
}

/// The symbol table when `slots[from..]` are resolved: `table` with every new
/// variable added.
pub open spec fn resolve_table(
    slots: Seq<Slot>,
    from: int,
    table: Map<Seq<char>, u16>,
    next: int,
) -> Map<Seq<char>, u16>
    decreases slots.len() - from,
{
    if from < 0 || from >= slots.len() {
        table
    } else {
        match slots[from] {
            Slot::Open(name) if !table.contains_key(name) => resolve_table(
                slots,
                from + 1,
                table.insert(name, next as u16),
                next + 1,
            ),
            _ => resolve_table(slots, from + 1, table, next),
        }
    }
}

/// The next free data address when `slots[from..]` are resolved: `next`,
/// plus one for every new variable.
pub open spec fn free_after(slots: Seq<Slot>, from: int, table: Map<Seq<char>, u16>, next: int) -> int
    decreases slots.len() - from,
{
    if from < 0 || from >= slots.len() {
        next
    } else {
        match slots[from] {
            Slot::Open(name) if !table.contains_key(name) => free_after(
                slots,
                from + 1,
                table.insert(name, next as u16),
                next + 1,
            ),
            _ => free_after(slots, from + 1, table, next),
        }
    }
}

/// The output for the program `prog`, one line per address and compute
/// instruction, starting with symbol table `table` and instruction count
/// `pc`: the words of the scan, resolved against the table that the scan
/// leaves, with variables from [`FIRST_VARIABLE`] upwards.
pub open spec fn assemble(prog: Seq<Seq<char>>, table: Map<Seq<char>, u16>, pc: int) -> Seq<
    Seq<char>,
> {
    resolve(scan_slots(prog, table, pc), 0, scan_table(prog, table, pc), FIRST_VARIABLE as int)
}

/// The symbol table once `prog` is assembled: labels and variables added.
pub open spec fn assemble_table(prog: Seq<Seq<char>>, table: Map<Seq<char>, u16>, pc: int) -> Map<
    Seq<char>,
    u16,
> {
    resolve_table(
        scan_slots(prog, table, pc),
        0,
        scan_table(prog, table, pc),
        FIRST_VARIABLE as int,
    )
}

/// Whether `prog` fits the machine: the instruction count stays within
/// sixteen bits, and so does every variable's address.
pub open spec fn fits(prog: Seq<Seq<char>>, table: Map<Seq<char>, u16>, pc: int) -> bool {
    &&& pc + carriers(prog) <= u16::MAX
    &&& free_after(
        scan_slots(prog, table, pc),
        0,
        scan_table(prog, table, pc),
        FIRST_VARIABLE as int,
    ) <= u16::MAX + 1
}

/// Resolving never lowers the next free data address.
pub proof fn free_after_grows(slots: Seq<Slot>, from: int, table: Map<Seq<char>, u16>, next: int)
    ensures
        free_after(slots, from, table, next) >= next,
    decreases slots.len() - from,
{
    if 0 <= from < slots.len() {
        match slots[from] {
            Slot::Open(name) if !table.contains_key(name) => {
                free_after_grows(slots, from + 1, table.insert(name, next as u16), next + 1);
            },
            _ => {
                free_after_grows(slots, from + 1, table, next);
            },
        }
    }
}

/// Whether `prog` is short enough to fit the machine whatever its symbols
/// are: even if every instruction yields a word and names a new variable, the
/// count and the variables' addresses stay within sixteen bits.
pub open spec fn is_short(prog: Seq<Seq<char>>, pc: int) -> bool {
    0 <= pc && pc + prog.len() + FIRST_VARIABLE <= u16::MAX
}

/// No more instructions yield a word than there are instructions.
pub proof fn carriers_bound(prog: Seq<Seq<char>>)
    ensures
        carriers(prog) <= prog.len(),
    decreases prog.len(),
{
    if prog.len() > 0 {
        carriers_bound(prog.drop_first());
    }
}

/// The scan yields no more words than there are instructions.
pub proof fn scan_slots_bound(prog: Seq<Seq<char>>, table: Map<Seq<char>, u16>, pc: int)
    ensures
        scan_slots(prog, table, pc).len() <= prog.len(),
    decreases prog.len(),
{
    if prog.len() > 0 {
        match kind_of(prog[0]) {
            InstructionType::LINSTRUCTION => {
                scan_slots_bound(
                    prog.drop_first(),
                    table.insert(symbol_text(prog[0]), pc as u16),
                    pc,
                );
            },
            _ => {
                scan_slots_bound(prog.drop_first(), table, pc + 1);
            },
        }
    }
}

/// Resolving takes at most one data address for each word.
pub proof fn free_after_bound(slots: Seq<Slot>, from: int, table: Map<Seq<char>, u16>, next: int)
    requires
        0 <= from <= slots.len(),
    ensures
        free_after(slots, from, table, next) <= next + slots.len() - from,
    decreases slots.len() - from,
{
    if from < slots.len() {
        match slots[from] {
            Slot::Open(name) if !table.contains_key(name) => {
                free_after_bound(slots, from + 1, table.insert(name, next as u16), next + 1);
            },
            _ => {
                free_after_bound(slots, from + 1, table, next);
            },
        }
    }
}

/// A short program fits the machine.
pub proof fn short_program_fits(prog: Seq<Seq<char>>, table: Map<Seq<char>, u16>, pc: int)
    requires
        is_short(prog, pc),
    ensures
        fits(prog, table, pc),
{
    carriers_bound(prog);
    scan_slots_bound(prog, table, pc);
    free_after_bound(
        scan_slots(prog, table, pc),
        0,
        scan_table(prog, table, pc),
        FIRST_VARIABLE as int,
    );
}

/// Adds an entry to a symbol table; it replaces an earlier entry of the name.
pub fn define(table: &mut Vec<Symbol>, name: String, address: u16)
    ensures
        table_of(final(table)@) == table_of(old(table)@).insert(name@, address),
{
    table.push(Symbol { name, address });
    assert(table@.drop_last() =~= old(table)@);
}

/// Looks a name up in a symbol table.
pub fn lookup(table: &Vec<Symbol>, name: &str) -> (address: Option<u16>)
    ensures
        match address {
            Some(a) => table_of(table@).contains_key(name@) && table_of(table@)[name@] == a,
            None => !table_of(table@).contains_key(name@),
        },
{
    let mut i: usize = table.len();
    assert(table@.subrange(0, i as int) =~= table@);
    while i > 0
        invariant
            i <= table.len(),
            table_of(table@).contains_key(name@) == table_of(
                table@.subrange(0, i as int),
            ).contains_key(name@),
            table_of(table@).contains_key(name@) ==> table_of(table@)[name@] == table_of(
                table@.subrange(0, i as int),
            )[name@],
        decreases i,
    {
        assert(table@.subrange(0, i as int).drop_last() =~= table@.subrange(0, i - 1));
        i -= 1;
        if text_eq(table[i].name.as_str(), name) {
            return Some(table[i].address);
        }
    }
    None
}

/// The word of a compute instruction from its three fields.
pub fn encode_compute(comp: Option<String>, dest: Option<String>, jump: Option<String>) -> (word:
    String)
    ensures
        word@ == "111"@ + code::comp_bits(crate::text::opt_view(comp)) + code::dest_bits(
            crate::text::opt_view(dest),
        ) + code::jump_bits(crate::text::opt_view(jump)),
{
    let mut word = String::from_str("111");
    let c = code::comp(comp);
    let d = code::dest(dest);
    let j = code::jump(jump);
    word.append(c.as_str());
    word.append(d.as_str());
    word.append(j.as_str());
    word
}

/// The word of an address instruction with operand `symbol`.
pub fn encode_address(table: &Vec<Symbol>, symbol: String) -> (word: Word)
    ensures
        word@ == address_slot(symbol@, table_of(table@)),
{
    match parse_numeral(symbol.as_str()) {
        Some(n) => Word::Bits(binary16(n)),
        None => match lookup(table, symbol.as_str()) {
            Some(a) => Word::Bits(binary16(a)),
            None => Word::Open(symbol),
        },
    }
}

/// Resolves the words of a scan against its symbol table: finishes every open
/// word, and enters each new variable into the table.
pub fn resolve_words(table: &mut Vec<Symbol>, words: &Vec<Word>) -> (out: Vec<String>)
    requires
        free_after(slots_of(words@), 0, table_of(old(table)@), FIRST_VARIABLE as int) <= u16::MAX
            + 1,
    ensures
        lines_of(out@) == resolve(
            slots_of(words@),
            0,
            table_of(old(table)@),
            FIRST_VARIABLE as int,
        ),
        table_of(final(table)@) == resolve_table(
            slots_of(words@),
            0,
            table_of(old(table)@),
            FIRST_VARIABLE as int,
        ),
{
    let ghost slots = slots_of(words@);
    let ghost first = table_of(table@);
    let mut out: Vec<String> = Vec::new();
    let mut next: u32 = 16;
    let mut i: usize = 0;
    assert(lines_of(out@) + resolve(slots, 0, first, 16) =~= resolve(slots, 0, first, 16));
    while i < words.len()
        invariant
            i <= words.len(),
            slots == slots_of(words@),
            first == table_of(old(table)@),
            16 <= next <= u16::MAX + 1,
            free_after(slots, i as int, table_of(table@), next as int) <= u16::MAX + 1,
            lines_of(out@) + resolve(slots, i as int, table_of(table@), next as int) == resolve(
                slots,
                0,
                first,
                16,
            ),
            resolve_table(slots, i as int, table_of(table@), next as int) == resolve_table(
                slots,
                0,
                first,
                16,
            ),
        decreases words.len() - i,
    {
        let ghost before = lines_of(out@);
        let ghost rest = resolve(slots, i as int, table_of(table@), next as int);
        assert(slots[i as int] == words@[i as int]@);
        match &words[i] {
            Word::Bits(b) => {
                out.push(b.clone());
            },
            Word::Open(name) => {
                match lookup(table, name.as_str()) {
                    Some(a) => {
                        out.push(binary16(a));
                    },
                    None => {
                        proof {
                            free_after_grows(
                                slots,
                                i + 1,
                                table_of(table@).insert(name@, next as u16),
                                next + 1,
                            );
                        }
                        let a: u16 = next as u16;
                        define(table, name.clone(), a);
                        out.push(binary16(a));
                        next = next + 1;
                    },
                }
            },
        }
        i += 1;
        proof {
            let tail = resolve(slots, i as int, table_of(table@), next as int);
            assert(rest == seq![out@.last()@] + tail);
            assert(lines_of(out@) =~= before.push(out@.last()@));
            assert(lines_of(out@) + tail =~= before + rest);
        }
    }
    assert(lines_of(out@) + Seq::<Seq<char>>::empty() =~= lines_of(out@));
    out
}

/// A copy of a symbol table.
pub fn copy_table(table: &Vec<Symbol>) -> (copy: Vec<Symbol>)
    ensures
        copy@ == table@,
{
    let mut copy: Vec<Symbol> = Vec::new();
    let mut i: usize = 0;
    while i < table.len()
        invariant
            i <= table.len(),
            copy@ == table@.subrange(0, i as int),
        decreases table.len() - i,
    {
        copy.push(Symbol { name: table[i].name.clone(), address: table[i].address });
        i += 1;
        assert(copy@ =~= table@.subrange(0, i as int));
    }
    assert(table@.subrange(0, table.len() as int) =~= table@);
    copy
}

/// Whether at most `limit` of the instructions that `parser` has still to
/// read yield a word of output.
pub fn carriers_within(parser: &Parser, limit: usize) -> (within: bool)
    requires
        parser.wf(),
    ensures
        within == (carriers(instructions(parser.text(), parser.position())) <= limit),
{
    let mut count: usize = 0;
    let mut at: usize = parser.cursor;
    while at < parser.source.len()
        invariant
            parser.wf(),
            parser.cursor <= at <= parser.source.len(),
            count <= limit,
            count + carriers(instructions(parser.text(), at as int)) == carriers(
                instructions(parser.text(), parser.position()),
            ),
        decreases parser.source.len() - at,
    {
        proof {
            instructions_unfold(parser.text(), at as int);
        }
        let ghost prog = instructions(parser.text(), at as int);
        let span = seek(&parser.source, at);
        proof {
            if span.start < span.stop {
                assert(prog.drop_first() =~= instructions(parser.text(), span.next as int));
                assert(prog[0][0] == parser.source@[span.start as int]);
            }
        }
        if span.start < span.stop && parser.source[span.start] != '(' {
            if count == limit {
                return false;
            }
            count += 1;
        }
        at = span.next;
    }
    true
}

/// Whether resolving `words` against `table` keeps the address of every new
/// variable within sixteen bits.
pub fn variables_fit(table: &Vec<Symbol>, words: &Vec<Word>) -> (fit: bool)
    ensures
        fit == (free_after(slots_of(words@), 0, table_of(table@), FIRST_VARIABLE as int)
            <= u16::MAX + 1),
{
    let ghost slots = slots_of(words@);
    let ghost first = table_of(table@);
    let mut scratch = copy_table(&table);
    let mut next: u32 = 16;
    let mut i: usize = 0;
    while i < words.len()
        invariant
            i <= words.len(),
            slots == slots_of(words@),
            first == table_of(table@),
            16 <= next <= u16::MAX + 1,
            free_after(slots, i as int, table_of(scratch@), next as int) == free_after(
                slots,
                0,
                first,
                16,
            ),
        decreases words.len() - i,
    {
        assert(slots[i as int] == words@[i as int]@);
        match &words[i] {
            Word::Bits(_) => {},
            Word::Open(name) => {
                match lookup(&scratch, name.as_str()) {
                    Some(_) => {},
                    None => {
                        if next > 65535 {
                            proof {
                                free_after_grows(
                                    slots,
                                    i + 1,
                                    table_of(scratch@).insert(name@, next as u16),
                                    next + 1,
                                );
                            }
                            return false;
                        }
                        define(&mut scratch, name.clone(), next as u16);
                        next = next + 1;
                    },
                }
            },
        }
        i += 1;
    }
    true
}

/// An assembler for one source text.
pub struct Assembler {
    parser: Parser,
    symbol_table: Vec<Symbol>,
}

impl Assembler {
    /// The symbol table.
    pub closed spec fn symbols(&self) -> Map<Seq<char>, u16> {
        table_of(self.symbol_table@)
    }

    /// The instructions that are still unread.
    pub closed spec fn program(&self) -> Seq<Seq<char>> {
        instructions(self.parser.text(), self.parser.position())
    }

    /// How many address and compute instructions have been read.
    pub closed spec fn counter(&self) -> int {
        self.parser.current_line as int
    }

    /// The scanner's cursor lies within the text.
    pub closed spec fn wf(&self) -> bool {
        self.parser.wf()
    }

    /// An assembler at the start of `file`, with the predefined symbols in
    /// its table.
    pub fn new(file: &str) -> (assembler: Assembler)
        ensures
            assembler.wf(),
            assembler.program() == instructions(file@, 0),
            assembler.counter() == 0,
            assembler.symbols() == predefined(),
    {
        let mut table: Vec<Symbol> = Vec::new();
        define(&mut table, String::from_str("R0"), 0);
        define(&mut table, String::from_str("SP"), 0);
        define(&mut table, String::from_str("R1"), 1);
        define(&mut table, String::from_str("LCL"), 1);
        define(&mut table, String::from_str("R2"), 2);
        define(&mut table, String::from_str("ARG"), 2);
        define(&mut table, String::from_str("R3"), 3);
        define(&mut table, String::from_str("THIS"), 3);
        define(&mut table, String::from_str("R4"), 4);
        define(&mut table, String::from_str("THAT"), 4);
        define(&mut table, String::from_str("R5"), 5);
        define(&mut table, String::from_str("R6"), 6);
        define(&mut table, String::from_str("R7"), 7);
        define(&mut table, String::from_str("R8"), 8);
        define(&mut table, String::from_str("R9"), 9);
        define(&mut table, String::from_str("R10"), 10);
        define(&mut table, String::from_str("R11"), 11);
        define(&mut table, String::from_str("R12"), 12);
        define(&mut table, String::from_str("R13"), 13);
        define(&mut table, String::from_str("R14"), 14);
        define(&mut table, String::from_str("R15"), 15);
        define(&mut table, String::from_str("SCREEN"), 16384);
        define(&mut table, String::from_str("KBD"), 24576);
        Assembler { parser: Parser::new(file), symbol_table: table }
    }

    /// The address of `name` in the symbol table, if it has one.
    pub fn address_of(&self, name: &str) -> (address: Option<u16>)
        ensures
            match address {
                Some(a) => self.symbols().contains_key(name@) && self.symbols()[name@] == a,
                None => !self.symbols().contains_key(name@),
            },
    {
        lookup(&self.symbol_table, name)
    }

    /// Whether what is left of the source fits the machine: decides [`fits`]
    /// by a trial scan on a copy, and leaves the assembler as it is.
    pub fn fits(&self) -> (fit: bool)
        requires
            self.wf(),
        ensures
            fit == fits(self.program(), self.symbols(), self.counter()),
    {
        let room: u16 = u16::MAX - self.parser.current_line;
        if !carriers_within(&self.parser, room as usize) {
            return false;
        }
        let mut trial = Assembler {
            parser: Parser {
                current_line: self.parser.current_line,
                source: copy_chars(&self.parser.source),
                cursor: self.parser.cursor,
                current_instruction: None,
            },
            symbol_table: copy_table(&self.symbol_table),
        };
        let words = trial.first_pass();
        variables_fit(&trial.symbol_table, &words)
    }

    /// Whether what is left of the source is short enough to be assembled
    /// whatever its symbols are.
    pub fn is_short(&self) -> (short: bool)
        requires
            self.wf(),
        ensures
            short == is_short(self.program(), self.counter()),
            short ==> fits(self.program(), self.symbols(), self.counter()),
    {
        let short = if self.parser.current_line > u16::MAX - FIRST_VARIABLE {
            false
        } else {
            let room: u16 = u16::MAX - FIRST_VARIABLE - self.parser.current_line;
            self.parser.at_most_left(room as usize)
        };
        proof {
            if short {
                short_program_fits(self.program(), self.symbols(), self.counter());
            }
        }
        short
    }

    /// Scans what is left of the source: one word per address and compute
    /// instruction, and every label into the symbol table.
    fn first_pass(&mut self) -> (words: Vec<Word>)
        requires
            old(self).wf(),
            old(self).counter() + carriers(old(self).program()) <= u16::MAX,
        ensures
            final(self).wf(),
            slots_of(words@) == scan_slots(
                old(self).program(),
                old(self).symbols(),
                old(self).counter(),
            ),
            final(self).symbols() == scan_table(
                old(self).program(),
                old(self).symbols(),
                old(self).counter(),
            ),
            final(self).program() == Seq::<Seq<char>>::empty(),
            final(self).counter() == old(self).counter() + carriers(old(self).program()),
    {
        let mut words: Vec<Word> = Vec::new();
        let ghost all = scan_slots(old(self).program(), old(self).symbols(), old(self).counter());
        assert(slots_of(words@) + all =~= all);
        while self.parser.has_more_lines()
            invariant
                self.parser.wf(),
                self.parser.text() == old(self).parser.text(),
                all == scan_slots(old(self).program(), old(self).symbols(), old(self).counter()),
                self.counter() + carriers(self.program()) == old(self).counter() + carriers(
                    old(self).program(),
                ),
                old(self).counter() + carriers(old(self).program()) <= u16::MAX,
                slots_of(words@) + scan_slots(self.program(), self.symbols(), self.counter())
                    == all,
                scan_table(self.program(), self.symbols(), self.counter()) == scan_table(
                    old(self).program(),
                    old(self).symbols(),
                    old(self).counter(),
                ),
            decreases self.parser.text().len() - self.parser.position(),
        {
            let ghost prog = self.program();
            let ghost table = self.symbols();
            let ghost pc = self.counter();
            let ghost done = slots_of(words@);
            proof {
                instructions_unfold(self.parser.text(), self.parser.position());
                match scan(self.parser.text(), self.parser.position()) {
                    Some((instr, after)) => {
                        assert(prog.drop_first() =~= instructions(self.parser.text(), after));
                    },
                    None => {},
                }
            }
            self.parser.advance();
            if self.parser.current_instruction.is_none() {
                continue ;
            }
            let ghost instr = prog[0];
            match self.parser.instruction_type() {
                InstructionType::AINSTRUCTION => {
                    match self.parser.symbol() {
                        Some(symbol) => {
                            let word = encode_address(&self.symbol_table, symbol);
                            words.push(word);
                        },
                        None => {},
                    }
                    proof {
                        let slot = address_slot(symbol_text(instr), table);
                        assert(slots_of(words@) =~= done.push(slot));
                        assert(done.push(slot) + scan_slots(prog.drop_first(), table, pc + 1)
                            =~= done + scan_slots(prog, table, pc));
                    }
                },
                InstructionType::CINSTRUCTION => {
                    let word = encode_compute(
                        self.parser.comp(),
                        self.parser.dest(),
                        self.parser.jump(),
                    );
                    words.push(Word::Bits(word));
                    proof {
                        let slot = Slot::Bits(compute_word(instr));
                        assert(slots_of(words@) =~= done.push(slot));
                        assert(done.push(slot) + scan_slots(prog.drop_first(), table, pc + 1)
                            =~= done + scan_slots(prog, table, pc));
                    }
                },
                InstructionType::LINSTRUCTION => {
                    match self.parser.symbol() {
                        Some(symbol) => {
                            define(&mut self.symbol_table, symbol, self.parser.current_line);
                        },
                        None => {},
                    }
                },
            }
        }
        proof {
            instructions_unfold(self.parser.text(), self.parser.position());
            assert(slots_of(words@) + Seq::<Slot>::empty() =~= slots_of(words@));
        }
        words
    }

    /// Assembles what is left of the source: one line of output per address
    /// and compute instruction, in program order. Labels and variables end up
    /// in the symbol table.
    /// The program must fit the machine, see [`fits`]; [`Assembler::is_short`]
    /// tells of a program that does whatever its symbols are.
    pub fn generate_binary(&mut self) -> (out: Vec<String>)
        requires
            old(self).wf(),
            fits(old(self).program(), old(self).symbols(), old(self).counter()),
        ensures
            final(self).wf(),
            lines_of(out@) == assemble(
                old(self).program(),
                old(self).symbols(),
                old(self).counter(),
            ),
            final(self).symbols() == assemble_table(
                old(self).program(),
                old(self).symbols(),
                old(self).counter(),
            ),
            final(self).program() == Seq::<Seq<char>>::empty(),
            final(self).counter() == old(self).counter() + carriers(old(self).program()),
    {
        let words = self.first_pass();
        resolve_words(&mut self.symbol_table, &words)
    }

    /// Assembles what is left of the source if it fits the machine, and
    /// leaves the assembler as it is if not.
    pub fn try_generate_binary(&mut self) -> (out: Option<Vec<String>>)
        requires
            old(self).wf(),
        ensures
            final(self).wf(),
            match out {
                Some(lines) => {
                    &&& fits(old(self).program(), old(self).symbols(), old(self).counter())
                    &&& lines_of(lines@) == assemble(
                        old(self).program(),
                        old(self).symbols(),
                        old(self).counter(),
                    )
                    &&& final(self).symbols() == assemble_table(
                        old(self).program(),
                        old(self).symbols(),
                        old(self).counter(),
                    )
                    &&& final(self).program() == Seq::<Seq<char>>::empty()
                    &&& final(self).counter() == old(self).counter() + carriers(
                        old(self).program(),
                    )
                },
                None => {
                    &&& !fits(old(self).program(), old(self).symbols(), old(self).counter())
                    &&& *final(self) == *old(self)
                },
            },
    {
        if self.fits() {
            Some(self.generate_binary())
        } else {
            None
        }
    }
}

} // verus!

//! What holds of the assembler's output, proved from the definitions in
//! [`crate::hackasm`].

use crate::hackasm::{
    address_slot, assemble, assemble_table, carriers, compute_word, free_after, predefined,
    resolve, resolve_table, scan_slots, scan_table, Slot, FIRST_VARIABLE,
};
use crate::parser::{is_carrier, kind_of, symbol_text, InstructionType};
use crate::text::{bits16, is_digit, numeral};
use vstd::prelude::*;

verus! {

/// The line that a word gets when it is reached with symbol table `table` and
/// next free data address `next`.
pub open spec fn line_for(slot: Slot, table: Map<Seq<char>, u16>, next: int) -> Seq<char> {
    match slot {
        Slot::Bits(b) => b,
        Slot::Open(name) => if table.contains_key(name) {
            bits16(table[name])
        } else {
            bits16(next as u16)
        },
    }
}

/// The scan yields one word for each address and compute instruction, and
/// none for a label.
pub proof fn scan_slots_len(prog: Seq<Seq<char>>, table: Map<Seq<char>, u16>, pc: int)
    ensures
        scan_slots(prog, table, pc).len() == carriers(prog),
    decreases prog.len(),
{
    if prog.len() > 0 {
        match kind_of(prog[0]) {
            InstructionType::LINSTRUCTION => {
                scan_slots_len(prog.drop_first(), table.insert(symbol_text(prog[0]), pc as u16), pc);
            },
            _ => {
                scan_slots_len(prog.drop_first(), table, pc + 1);
            },
        }
    }
}

/// Resolving yields one line for each word.
pub proof fn resolve_len(slots: Seq<Slot>, from: int, table: Map<Seq<char>, u16>, next: int)
    requires
        0 <= from <= slots.len(),
    ensures
        resolve(slots, from, table, next).len() == slots.len() - from,
    decreases slots.len() - from,
{
    if from < slots.len() {
        match slots[from] {
            Slot::Open(name) if !table.contains_key(name) => {
                resolve_len(slots, from + 1, table.insert(name, next as u16), next + 1);
            },
            _ => {
                resolve_len(slots, from + 1, table, next);
            },
        }
    }
}

/// In a program without labels every instruction yields a word: the count
/// after `k` instructions is `k`.
pub proof fn carriers_of_unlabelled(prog: Seq<Seq<char>>)
    requires
        forall|j: int| 0 <= j < prog.len() ==> is_carrier(#[trigger] prog[j]),
    ensures
        carriers(prog) == prog.len(),
    decreases prog.len(),
{
    if prog.len() > 0 {
        let rest = prog.drop_first();
        assert(is_carrier(prog[0]));
        assert forall|j: int| 0 <= j < rest.len() implies is_carrier(#[trigger] rest[j]) by {
            assert(rest[j] == prog[j + 1]);
        }
        carriers_of_unlabelled(rest);
    }
}

/// The output has exactly one line for each address and compute instruction
/// of the program, whatever labels stand between them.
pub proof fn assemble_len(prog: Seq<Seq<char>>, table: Map<Seq<char>, u16>, pc: int)
    ensures
        assemble(prog, table, pc).len() == carriers(prog),
{
    scan_slots_len(prog, table, pc);
    resolve_len(scan_slots(prog, table, pc), 0, scan_table(prog, table, pc), FIRST_VARIABLE as int);
}

/// In a program without labels the word at position `i` is the word of the
/// instruction at position `i`, under the table the scan started with: the
/// program address of an instruction is its position.
pub proof fn unlabelled_program_words(
    prog: Seq<Seq<char>>,
    table: Map<Seq<char>, u16>,
    pc: int,
    i: int,
)
    requires
        forall|j: int| 0 <= j < prog.len() ==> is_carrier(#[trigger] prog[j]),
        0 <= i < prog.len(),
    ensures
        scan_slots(prog, table, pc).len() == prog.len(),
        scan_table(prog, table, pc) == table,
        scan_slots(prog, table, pc)[i] == if kind_of(prog[i]) == InstructionType::AINSTRUCTION {
            address_slot(symbol_text(prog[i]), table)
        } else {
            Slot::Bits(compute_word(prog[i]))
        },
    decreases prog.len(),
{
    let rest = prog.drop_first();
    assert(is_carrier(prog[0]));
    assert forall|j: int| 0 <= j < rest.len() implies is_carrier(#[trigger] rest[j]) by {
        assert(rest[j] == prog[j + 1]);
    }
    if rest.len() > 0 {
        unlabelled_program_words(rest, table, pc + 1, if i > 0 {
            i - 1
        } else {
            0
        });
    } else {
        assert(scan_slots(rest, table, pc + 1).len() == 0);
    }
}

/// The line at position `i` of the resolved words is the line for word `i`
/// under the table and the next free address that resolving the words before
/// it has led to. So a finished word stays as it is, and the variables get
/// the addresses from the first free one upwards, one each, in the order in
/// which they first occur.
pub proof fn resolve_at(
    slots: Seq<Slot>,
    from: int,
    table: Map<Seq<char>, u16>,
    next: int,
    i: int,
)
    requires
        0 <= from <= i < slots.len(),
    ensures
        resolve(slots, from, table, next).len() == slots.len() - from,
        resolve(slots, from, table, next)[i - from] == line_for(
            slots[i],
            resolve_table(slots.take(i), from, table, next),
            free_after(slots.take(i), from, table, next),
        ),
    decreases i - from,
{
    resolve_len(slots, from, table, next);
    if from < i {
        assert(slots.take(i)[from] == slots[from]);
        match slots[from] {
            Slot::Open(name) if !table.contains_key(name) => {
                resolve_at(slots, from + 1, table.insert(name, next as u16), next + 1, i);
                resolve_len(slots, from + 1, table.insert(name, next as u16), next + 1);
            },
            _ => {
                resolve_at(slots, from + 1, table, next, i);
                resolve_len(slots, from + 1, table, next);
            },
        }
    }
}

/// Resolving never changes an entry that the table already holds.
pub proof fn resolve_table_keeps(
    slots: Seq<Slot>,
    from: int,
    table: Map<Seq<char>, u16>,
    next: int,
    name: Seq<char>,
)
    requires
        table.contains_key(name),
    ensures
        resolve_table(slots, from, table, next).contains_key(name),
        resolve_table(slots, from, table, next)[name] == table[name],
    decreases slots.len() - from,
{
    if 0 <= from < slots.len() {
        match slots[from] {
            Slot::Open(other) if !table.contains_key(other) => {
                resolve_table_keeps(slots, from + 1, table.insert(other, next as u16), next + 1, name);
            },
            _ => {
                resolve_table_keeps(slots, from + 1, table, next, name);
            },
        }
    }
}

/// Every open word gets the address that its symbol has in the table once all
/// words are resolved.
pub proof fn open_word_gets_final_address(
    slots: Seq<Slot>,
    from: int,
    table: Map<Seq<char>, u16>,
    next: int,
    i: int,
)
    requires
        0 <= from <= i < slots.len(),
        slots[i] is Open,
    ensures
        resolve(slots, from, table, next).len() == slots.len() - from,
        resolve_table(slots, from, table, next).contains_key(slots[i]->Open_0),
        resolve(slots, from, table, next)[i - from] == bits16(
            resolve_table(slots, from, table, next)[slots[i]->Open_0],
        ),
    decreases i - from,
{
    resolve_len(slots, from, table, next);
    let name = slots[i]->Open_0;
    if from < i {
        match slots[from] {
            Slot::Open(other) if !table.contains_key(other) => {
                open_word_gets_final_address(slots, from + 1, table.insert(other, next as u16), next + 1, i);
            },
            _ => {
                open_word_gets_final_address(slots, from + 1, table, next, i);
            },
        }
    } else if table.contains_key(name) {
        resolve_table_keeps(slots, from + 1, table, next, name);
    } else {
        resolve_table_keeps(slots, from + 1, table.insert(name, next as u16), next + 1, name);
    }
}

/// A symbol that is used again resolves to the same address: two open words
/// with the same symbol get the same line.
pub proof fn same_symbol_same_address(
    slots: Seq<Slot>,
    table: Map<Seq<char>, u16>,
    next: int,
    i: int,
    j: int,
)
    requires
        0 <= i < slots.len(),
        0 <= j < slots.len(),
        slots[i] is Open,
        slots[i] == slots[j],
    ensures
        resolve(slots, 0, table, next)[i] == resolve(slots, 0, table, next)[j],
{
    open_word_gets_final_address(slots, 0, table, next, i);
    open_word_gets_final_address(slots, 0, table, next, j);
}

/// A symbol that was unknown where it was used, and that the table holds when
/// the words are resolved, gets the table's address: a label that is defined
/// after its use resolves to the label's program address.
pub proof fn open_word_of_known_symbol(
    slots: Seq<Slot>,
    table: Map<Seq<char>, u16>,
    next: int,
    i: int,
)
    requires
        0 <= i < slots.len(),
        slots[i] is Open,
        table.contains_key(slots[i]->Open_0),
    ensures
        resolve(slots, 0, table, next)[i] == bits16(table[slots[i]->Open_0]),
{
    open_word_gets_final_address(slots, 0, table, next, i);
    resolve_table_keeps(slots, 0, table, next, slots[i]->Open_0);
}

/// The first variable of a program gets the first variable address, and each
/// new variable the address after the one before: a word whose symbol is
/// still unknown when it is reached gets the next free address, which is then
/// taken.
pub proof fn new_variable_takes_next_address(
    slots: Seq<Slot>,
    table: Map<Seq<char>, u16>,
    next: int,
    i: int,
)
    requires
        0 <= i < slots.len(),
        slots[i] is Open,
        !resolve_table(slots.take(i), 0, table, next).contains_key(slots[i]->Open_0),
    ensures
        resolve(slots, 0, table, next)[i] == bits16(free_after(slots.take(i), 0, table, next) as u16),
        free_after(slots.take(i + 1), 0, table, next) == free_after(slots.take(i), 0, table, next) + 1,
        i == 0 ==> free_after(slots.take(i), 0, table, next) == next,
{
    resolve_at(slots, 0, table, next, i);
    free_after_step(slots, 0, table, next, i);
}

/// The next free address after word `i` is the one before it, plus one where
/// word `i` names a new variable.
pub proof fn free_after_step(
    slots: Seq<Slot>,
    from: int,
    table: Map<Seq<char>, u16>,
    next: int,
    i: int,
)
    requires
        0 <= from <= i < slots.len(),
    ensures
        free_after(slots.take(i + 1), from, table, next) == free_after(
            slots.take(i),
            from,
            table,
            next,
        ) + if slots[i] is Open && !resolve_table(slots.take(i), from, table, next).contains_key(
            slots[i]->Open_0,
        ) {
            1int
        } else {
            0int
        },
    decreases i - from,
{
    assert(slots.take(i + 1)[from] == slots[from]);
    if from < i {
        assert(slots.take(i)[from] == slots[from]);
        match slots[from] {
            Slot::Open(other) if !table.contains_key(other) => {
                free_after_step(slots, from + 1, table.insert(other, next as u16), next + 1, i);
            },
            _ => {
                free_after_step(slots, from + 1, table, next, i);
            },
        }
    } else {
        let upto = slots.take(i + 1);
        match slots[i] {
            Slot::Open(other) if !table.contains_key(other) => {
                assert(free_after(upto, i + 1, table.insert(other, next as u16), next + 1) == next
                    + 1);
            },
            _ => {
                assert(free_after(upto, i + 1, table, next) == next);
            },
        }
    }
}

/// An address instruction whose symbol the table holds, and that no label
/// before it defines anew, yields the finished word of the table's address,
/// at the place that its program address gives.
pub proof fn known_symbol_word(
    prog: Seq<Seq<char>>,
    table: Map<Seq<char>, u16>,
    pc: int,
    i: int,
)
    requires
        0 <= i < prog.len(),
        kind_of(prog[i]) == InstructionType::AINSTRUCTION,
        numeral(symbol_text(prog[i])) is None,
        table.contains_key(symbol_text(prog[i])),
        forall|j: int|
            0 <= j < i && kind_of(#[trigger] prog[j]) == InstructionType::LINSTRUCTION
                ==> symbol_text(prog[j]) != symbol_text(prog[i]),
    ensures
        carriers(prog.take(i)) < scan_slots(prog, table, pc).len(),
        scan_slots(prog, table, pc)[carriers(prog.take(i)) as int] == Slot::Bits(
            bits16(table[symbol_text(prog[i])]),
        ),
    decreases i,
{
    scan_slots_len(prog, table, pc);
    let rest = prog.drop_first();
    if i == 0 {
        assert(prog.take(0) =~= Seq::<Seq<char>>::empty());
    } else {
        assert(prog.take(i).drop_first() =~= rest.take(i - 1));
        assert(prog.take(i)[0] == prog[0]);
        assert(rest[i - 1] == prog[i]);
        assert forall|j: int|
            0 <= j < i - 1 && kind_of(#[trigger] rest[j])
                == InstructionType::LINSTRUCTION implies symbol_text(rest[j]) != symbol_text(
            rest[i - 1],
        ) by {
            assert(rest[j] == prog[j + 1]);
        }
        match kind_of(prog[0]) {
            InstructionType::LINSTRUCTION => {
                let grown = table.insert(symbol_text(prog[0]), pc as u16);
                known_symbol_word(rest, grown, pc, i - 1);
                scan_slots_len(rest, grown, pc);
            },
            _ => {
                known_symbol_word(rest, table, pc + 1, i - 1);
                scan_slots_len(rest, table, pc + 1);
            },
        }
    }
}

/// No predefined symbol reads as a numeral.
pub proof fn predefined_is_no_numeral(name: Seq<char>)
    requires
        predefined().contains_key(name),
    ensures
        numeral(name) is None,
{
    if name == "R0"@ {
        reveal_strlit("R0");
        assert(!is_digit(name[0]));
    } else if name == "SP"@ {
        reveal_strlit("SP");
        assert(!is_digit(name[0]));
    } else if name == "R1"@ {
        reveal_strlit("R1");
        assert(!is_digit(name[0]));
    } else if name == "LCL"@ {
        reveal_strlit("LCL");
        assert(!is_digit(name[0]));
    } else if name == "R2"@ {
        reveal_strlit("R2");
        assert(!is_digit(name[0]));
    } else if name == "ARG"@ {
        reveal_strlit("ARG");
        assert(!is_digit(name[0]));
    } else if name == "R3"@ {
        reveal_strlit("R3");
        assert(!is_digit(name[0]));
    } else if name == "THIS"@ {
        reveal_strlit("THIS");
        assert(!is_digit(name[0]));
    } else if name == "R4"@ {
        reveal_strlit("R4");
        assert(!is_digit(name[0]));
    } else if name == "THAT"@ {
        reveal_strlit("THAT");
        assert(!is_digit(name[0]));
    } else if name == "R5"@ {
        reveal_strlit("R5");
        assert(!is_digit(name[0]));
    } else if name == "R6"@ {
        reveal_strlit("R6");
        assert(!is_digit(name[0]));
    } else if name == "R7"@ {
        reveal_strlit("R7");
        assert(!is_digit(name[0]));
    } else if name == "R8"@ {
        reveal_strlit("R8");
        assert(!is_digit(name[0]));
    } else if name == "R9"@ {
        reveal_strlit("R9");
        assert(!is_digit(name[0]));
    } else if name == "R10"@ {
        reveal_strlit("R10");
        assert(!is_digit(name[0]));
    } else if name == "R11"@ {
        reveal_strlit("R11");
        assert(!is_digit(name[0]));
    } else if name == "R12"@ {
        reveal_strlit("R12");
        assert(!is_digit(name[0]));
    } else if name == "R13"@ {
        reveal_strlit("R13");
        assert(!is_digit(name[0]));
    } else if name == "R14"@ {
        reveal_strlit("R14");
        assert(!is_digit(name[0]));
    } else if name == "R15"@ {
        reveal_strlit("R15");
        assert(!is_digit(name[0]));
    } else if name == "SCREEN"@ {
        reveal_strlit("SCREEN");
        assert(!is_digit(name[0]));
    } else if name == "KBD"@ {
        reveal_strlit("KBD");
        assert(!is_digit(name[0]));
    }
}

/// A predefined symbol resolves to its fixed address wherever the program
/// uses it, unless a label before that use defines the name anew: the line of
/// an address instruction with that symbol is the address in binary.
pub proof fn predefined_symbol_resolves(prog: Seq<Seq<char>>, i: int)
    requires
        0 <= i < prog.len(),
        kind_of(prog[i]) == InstructionType::AINSTRUCTION,
        predefined().contains_key(symbol_text(prog[i])),
        forall|j: int|
            0 <= j < i && kind_of(#[trigger] prog[j]) == InstructionType::LINSTRUCTION
                ==> symbol_text(prog[j]) != symbol_text(prog[i]),
    ensures
        carriers(prog.take(i)) < assemble(prog, predefined(), 0).len(),
        assemble(prog, predefined(), 0)[carriers(prog.take(i)) as int] == bits16(
            predefined()[symbol_text(prog[i])],
        ),
{
    let slots = scan_slots(prog, predefined(), 0);
    let k = carriers(prog.take(i)) as int;
    predefined_is_no_numeral(symbol_text(prog[i]));
    known_symbol_word(prog, predefined(), 0, i);
    resolve_at(slots, 0, scan_table(prog, predefined(), 0), FIRST_VARIABLE as int, k);
}

/// The scan never changes an entry of a name that no label of the program
/// defines.
pub proof fn scan_table_keeps(
    prog: Seq<Seq<char>>,
    table: Map<Seq<char>, u16>,
    pc: int,
    name: Seq<char>,
)
    requires
        table.contains_key(name),
        forall|j: int|
            0 <= j < prog.len() && kind_of(#[trigger] prog[j]) == InstructionType::LINSTRUCTION
                ==> symbol_text(prog[j]) != name,
    ensures
        scan_table(prog, table, pc).contains_key(name),
        scan_table(prog, table, pc)[name] == table[name],
    decreases prog.len(),
{
    if prog.len() > 0 {
        let rest = prog.drop_first();
        assert forall|j: int|
            0 <= j < rest.len() && kind_of(#[trigger] rest[j])
                == InstructionType::LINSTRUCTION implies symbol_text(rest[j]) != name by {
            assert(rest[j] == prog[j + 1]);
        }
        assert(kind_of(prog[0]) == InstructionType::LINSTRUCTION ==> symbol_text(prog[0]) != name);
        match kind_of(prog[0]) {
            InstructionType::LINSTRUCTION => {
                scan_table_keeps(rest, table.insert(symbol_text(prog[0]), pc as u16), pc, name);
            },
            _ => {
                scan_table_keeps(rest, table, pc + 1, name);
            },
        }
    }
}

/// A label stands for the program address of the next instruction: the
/// number of address and compute instructions before it, however many labels
/// stand among them. This holds of the last label of each name, in a program
/// whose instruction count stays within sixteen bits.
pub proof fn label_address(prog: Seq<Seq<char>>, table: Map<Seq<char>, u16>, pc: int, i: int)
    requires
        0 <= pc,
        pc + carriers(prog) <= u16::MAX,
        0 <= i < prog.len(),
        kind_of(prog[i]) == InstructionType::LINSTRUCTION,
        forall|j: int|
            i < j < prog.len() && kind_of(#[trigger] prog[j]) == InstructionType::LINSTRUCTION
                ==> symbol_text(prog[j]) != symbol_text(prog[i]),
    ensures
        scan_table(prog, table, pc).contains_key(symbol_text(prog[i])),
        scan_table(prog, table, pc)[symbol_text(prog[i])] == pc + carriers(prog.take(i)),
    decreases i,
{
    let rest = prog.drop_first();
    let name = symbol_text(prog[i]);
    if i == 0 {
        assert(prog.take(0) =~= Seq::<Seq<char>>::empty());
        assert forall|j: int|
            0 <= j < rest.len() && kind_of(#[trigger] rest[j])
                == InstructionType::LINSTRUCTION implies symbol_text(rest[j]) != name by {
            assert(rest[j] == prog[j + 1]);
        }
        scan_table_keeps(rest, table.insert(name, pc as u16), pc, name);
    } else {
        assert(prog.take(i).drop_first() =~= rest.take(i - 1));
        assert(prog.take(i)[0] == prog[0]);
        assert(rest[i - 1] == prog[i]);
        assert forall|j: int|
            i - 1 < j < rest.len() && kind_of(#[trigger] rest[j])
                == InstructionType::LINSTRUCTION implies symbol_text(rest[j]) != symbol_text(
            rest[i - 1],
        ) by {
            assert(rest[j] == prog[j + 1]);
        }
        match kind_of(prog[0]) {
            InstructionType::LINSTRUCTION => {
                label_address(rest, table.insert(symbol_text(prog[0]), pc as u16), pc, i - 1);
            },
            _ => {
                label_address(rest, table, pc + 1, i - 1);
            },
        }
    }
}

/// A label that is used before it is defined resolves to its program
/// address: where the scan left a word open for a symbol, and the last label
/// of that name stands at position `i` of the program, the word's line is the
/// number of address and compute instructions before position `i`, in binary.
pub proof fn forward_label_resolves(
    prog: Seq<Seq<char>>,
    table: Map<Seq<char>, u16>,
    pc: int,
    i: int,
    k: int,
)
    requires
        0 <= pc,
        pc + carriers(prog) <= u16::MAX,
        0 <= i < prog.len(),
        kind_of(prog[i]) == InstructionType::LINSTRUCTION,
        forall|j: int|
            i < j < prog.len() && kind_of(#[trigger] prog[j]) == InstructionType::LINSTRUCTION
                ==> symbol_text(prog[j]) != symbol_text(prog[i]),
        0 <= k < scan_slots(prog, table, pc).len(),
        scan_slots(prog, table, pc)[k] == Slot::Open(symbol_text(prog[i])),
    ensures
        k < assemble(prog, table, pc).len(),
        assemble(prog, table, pc)[k] == bits16((pc + carriers(prog.take(i))) as u16),
{
    label_address(prog, table, pc, i);
    assemble_len(prog, table, pc);
    scan_slots_len(prog, table, pc);
    open_word_of_known_symbol(
        scan_slots(prog, table, pc),
        scan_table(prog, table, pc),
        FIRST_VARIABLE as int,
        k,
    );
}

/// A variable's address lies between the first free address and the next
/// free address after resolving: a symbol that the table gains by resolving
/// gets one of the addresses that resolving takes.
pub proof fn variable_address_in_range(
    slots: Seq<Slot>,
    from: int,
    table: Map<Seq<char>, u16>,
    next: int,
    name: Seq<char>,
)
    requires
        0 <= from <= slots.len(),
        0 <= next,
        free_after(slots, from, table, next) <= u16::MAX + 1,
        !table.contains_key(name),
        resolve_table(slots, from, table, next).contains_key(name),
    ensures
        next <= resolve_table(slots, from, table, next)[name] < free_after(
            slots,
            from,
            table,
            next,
        ),
    decreases slots.len() - from,
{
    if from < slots.len() {
        match slots[from] {
            Slot::Open(other) if !table.contains_key(other) => {
                let grown = table.insert(other, next as u16);
                crate::hackasm::free_after_grows(slots, from + 1, grown, next + 1);
                if other == name {
                    resolve_table_keeps(slots, from + 1, grown, next + 1, name);
                } else {
                    variable_address_in_range(slots, from + 1, grown, next + 1, name);
                }
            },
            _ => {
                variable_address_in_range(slots, from + 1, table, next, name);
            },
        }
    }
}

/// No two variables share an address: two different symbols that the table
/// gains by resolving get different addresses.
pub proof fn variables_get_distinct_addresses(
    slots: Seq<Slot>,
    from: int,
    table: Map<Seq<char>, u16>,
    next: int,
    a: Seq<char>,
    b: Seq<char>,
)
    requires
        0 <= from <= slots.len(),
        0 <= next,
        free_after(slots, from, table, next) <= u16::MAX + 1,
        a != b,
        !table.contains_key(a),
        !table.contains_key(b),
        resolve_table(slots, from, table, next).contains_key(a),
        resolve_table(slots, from, table, next).contains_key(b),
    ensures
        resolve_table(slots, from, table, next)[a] != resolve_table(slots, from, table, next)[b],
    decreases slots.len() - from,
{
    if from < slots.len() {
        match slots[from] {
            Slot::Open(other) if !table.contains_key(other) => {
                let grown = table.insert(other, next as u16);
                crate::hackasm::free_after_grows(slots, from + 1, grown, next + 1);
                if other == a {
                    resolve_table_keeps(slots, from + 1, grown, next + 1, a);
                    variable_address_in_range(slots, from + 1, grown, next + 1, b);
                } else if other == b {
                    resolve_table_keeps(slots, from + 1, grown, next + 1, b);
                    variable_address_in_range(slots, from + 1, grown, next + 1, a);
                } else {
                    variables_get_distinct_addresses(slots, from + 1, grown, next + 1, a, b);
                }
            },
            _ => {
                variables_get_distinct_addresses(slots, from + 1, table, next, a, b);
            },
        }
    }
}

/// The variables of a program that fits the machine get the addresses from
/// the first variable address upwards, each its own: every open word whose
/// symbol is no label gets an address that is at least the first variable
/// address and below the next free one, words of one symbol get the same
/// address, and words of different symbols get different ones.
pub proof fn variables_of_a_program(
    prog: Seq<Seq<char>>,
    table: Map<Seq<char>, u16>,
    pc: int,
    i: int,
    j: int,
)
    requires
        crate::hackasm::fits(prog, table, pc),
        0 <= i < scan_slots(prog, table, pc).len(),
        0 <= j < scan_slots(prog, table, pc).len(),
        scan_slots(prog, table, pc)[i] is Open,
        scan_slots(prog, table, pc)[j] is Open,
        !scan_table(prog, table, pc).contains_key(scan_slots(prog, table, pc)[i]->Open_0),
        !scan_table(prog, table, pc).contains_key(scan_slots(prog, table, pc)[j]->Open_0),
    ensures
        assemble_table(prog, table, pc).contains_key(scan_slots(prog, table, pc)[i]->Open_0),
        assemble(prog, table, pc)[i] == bits16(
            assemble_table(prog, table, pc)[scan_slots(prog, table, pc)[i]->Open_0],
        ),
        FIRST_VARIABLE <= assemble_table(prog, table, pc)[scan_slots(
            prog,
            table,
            pc,
        )[i]->Open_0] < free_after(
            scan_slots(prog, table, pc),
            0,
            scan_table(prog, table, pc),
            FIRST_VARIABLE as int,
        ),
        (scan_slots(prog, table, pc)[i] == scan_slots(prog, table, pc)[j]) == (assemble_table(
            prog,
            table,
            pc,
        )[scan_slots(prog, table, pc)[i]->Open_0] == assemble_table(prog, table, pc)[scan_slots(
            prog,
            table,
            pc,
        )[j]->Open_0]),
{
    let slots = scan_slots(prog, table, pc);
    let labels = scan_table(prog, table, pc);
    let first = FIRST_VARIABLE as int;
    open_word_gets_final_address(slots, 0, labels, first, i);
    open_word_gets_final_address(slots, 0, labels, first, j);
    variable_address_in_range(slots, 0, labels, first, slots[i]->Open_0);
    if slots[i]->Open_0 != slots[j]->Open_0 {
        variables_get_distinct_addresses(
            slots,
            0,
            labels,
            first,
            slots[i]->Open_0,
            slots[j]->Open_0,
        );
    }
}

/// The word that the scan yields for instruction `u` stands at the place that
/// its program address gives, and is the word of that instruction under the
/// table that the scan has reached there: the table it started with and the
/// labels before `u`.
pub proof fn word_at(prog: Seq<Seq<char>>, table: Map<Seq<char>, u16>, pc: int, u: int)
    requires
        0 <= u < prog.len(),
        is_carrier(prog[u]),
    ensures
        carriers(prog.take(u)) < scan_slots(prog, table, pc).len(),
        scan_slots(prog, table, pc)[carriers(prog.take(u)) as int] == if kind_of(prog[u])
            == InstructionType::AINSTRUCTION {
            address_slot(symbol_text(prog[u]), scan_table(prog.take(u), table, pc))
        } else {
            Slot::Bits(compute_word(prog[u]))
        },
    decreases u,
{
    scan_slots_len(prog, table, pc);
    let rest = prog.drop_first();
    if u == 0 {
        assert(prog.take(0) =~= Seq::<Seq<char>>::empty());
    } else {
        assert(prog.take(u).drop_first() =~= rest.take(u - 1));
        assert(prog.take(u)[0] == prog[0]);
        assert(rest[u - 1] == prog[u]);
        match kind_of(prog[0]) {
            InstructionType::LINSTRUCTION => {
                let grown = table.insert(symbol_text(prog[0]), pc as u16);
                word_at(rest, grown, pc, u - 1);
                scan_slots_len(rest, grown, pc);
            },
            _ => {
                word_at(rest, table, pc + 1, u - 1);
                scan_slots_len(rest, table, pc + 1);
            },
        }
    }
}

/// The scan adds no entry for a name that no label of the program defines.
pub proof fn scan_table_lacks(
    prog: Seq<Seq<char>>,
    table: Map<Seq<char>, u16>,
    pc: int,
    name: Seq<char>,
)
    requires
        !table.contains_key(name),
        forall|j: int|
            0 <= j < prog.len() && kind_of(#[trigger] prog[j]) == InstructionType::LINSTRUCTION
                ==> symbol_text(prog[j]) != name,
    ensures
        !scan_table(prog, table, pc).contains_key(name),
    decreases prog.len(),
{
    if prog.len() > 0 {
        let rest = prog.drop_first();
        assert forall|j: int|
            0 <= j < rest.len() && kind_of(#[trigger] rest[j])
                == InstructionType::LINSTRUCTION implies symbol_text(rest[j]) != name by {
            assert(rest[j] == prog[j + 1]);
        }
        assert(kind_of(prog[0]) == InstructionType::LINSTRUCTION ==> symbol_text(prog[0]) != name);
        match kind_of(prog[0]) {
            InstructionType::LINSTRUCTION => {
                scan_table_lacks(rest, table.insert(symbol_text(prog[0]), pc as u16), pc, name);
            },
            _ => {
                scan_table_lacks(rest, table, pc + 1, name);
            },
        }
    }
}

/// The first instructions of a program yield no more words than the whole.
pub proof fn carriers_of_prefix(prog: Seq<Seq<char>>, u: int)
    requires
        0 <= u <= prog.len(),
    ensures
        carriers(prog.take(u)) <= carriers(prog),
    decreases u,
{
    if u == 0 {
        assert(prog.take(0) =~= Seq::<Seq<char>>::empty());
    } else {
        assert(prog.take(u).drop_first() =~= prog.drop_first().take(u - 1));
        assert(prog.take(u)[0] == prog[0]);
        carriers_of_prefix(prog.drop_first(), u - 1);
    }
}

/// A label that the program defines once, under a name that the table does
/// not hold, resolves to its program address wherever it is used, before the
/// definition or after it: the line of every address instruction with that
/// symbol is the number of address and compute instructions before the
/// label, in binary.
pub proof fn label_use_resolves(
    prog: Seq<Seq<char>>,
    table: Map<Seq<char>, u16>,
    pc: int,
    i: int,
    u: int,
)
    requires
        0 <= pc,
        pc + carriers(prog) <= u16::MAX,
        0 <= i < prog.len(),
        kind_of(prog[i]) == InstructionType::LINSTRUCTION,
        forall|j: int|
            0 <= j < prog.len() && j != i && kind_of(#[trigger] prog[j])
                == InstructionType::LINSTRUCTION ==> symbol_text(prog[j]) != symbol_text(prog[i]),
        !table.contains_key(symbol_text(prog[i])),
        numeral(symbol_text(prog[i])) is None,
        0 <= u < prog.len(),
        kind_of(prog[u]) == InstructionType::AINSTRUCTION,
        symbol_text(prog[u]) == symbol_text(prog[i]),
    ensures
        carriers(prog.take(u)) < assemble(prog, table, pc).len(),
        assemble(prog, table, pc)[carriers(prog.take(u)) as int] == bits16(
            (pc + carriers(prog.take(i))) as u16,
        ),
{
    let name = symbol_text(prog[i]);
    let k = carriers(prog.take(u)) as int;
    let slots = scan_slots(prog, table, pc);
    let before = prog.take(u);
    word_at(prog, table, pc, u);
    assemble_len(prog, table, pc);
    scan_slots_len(prog, table, pc);
    if u < i {
        assert forall|j: int|
            0 <= j < before.len() && kind_of(#[trigger] before[j])
                == InstructionType::LINSTRUCTION implies symbol_text(before[j]) != name by {
            assert(before[j] == prog[j]);
        }
        scan_table_lacks(before, table, pc, name);
        forward_label_resolves(prog, table, pc, i, k);
    } else {
        assert(before[i] == prog[i]);
        assert forall|j: int|
            i < j < before.len() && kind_of(#[trigger] before[j])
                == InstructionType::LINSTRUCTION implies symbol_text(before[j]) != symbol_text(
            before[i],
        ) by {
            assert(before[j] == prog[j]);
        }
        carriers_of_prefix(prog, u);
        label_address(before, table, pc, i);
        assert(before.take(i) =~= prog.take(i));
        resolve_at(slots, 0, scan_table(prog, table, pc), FIRST_VARIABLE as int, k);
    }
}

/// A word that the scan finished is a line of the output as it is, at the
/// same place: the line of a compute instruction, of a numeral, and of a
/// symbol that was known where it was used.
pub proof fn finished_word_stays(
    prog: Seq<Seq<char>>,
    table: Map<Seq<char>, u16>,
    pc: int,
    k: int,
)
    requires
        0 <= k < scan_slots(prog, table, pc).len(),
        scan_slots(prog, table, pc)[k] is Bits,
    ensures
        k < assemble(prog, table, pc).len(),
        assemble(prog, table, pc)[k] == scan_slots(prog, table, pc)[k]->Bits_0,
{
    resolve_at(
        scan_slots(prog, table, pc),
        0,
        scan_table(prog, table, pc),
        FIRST_VARIABLE as int,
        k,
    );
}

} // verus!

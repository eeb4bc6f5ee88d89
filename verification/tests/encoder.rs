use hack_assembler::code::{comp, dest, jump, ERROR_MARK};

fn some(s: &str) -> Option<String> {
    Some(String::from(s))
}

#[test]
fn dest_absent_is_zero() {
    assert_eq!(dest(None), "000");
}

#[test]
fn dest_single_registers() {
    assert_eq!(dest(some("M")), "001");
    assert_eq!(dest(some("D")), "010");
    assert_eq!(dest(some("A")), "100");
}

#[test]
fn dest_pairs_in_both_orders() {
    assert_eq!(dest(some("AM")), "101");
    assert_eq!(dest(some("MA")), "101");
    assert_eq!(dest(some("AD")), "110");
    assert_eq!(dest(some("DA")), "110");
    assert_eq!(dest(some("MD")), "011");
    assert_eq!(dest(some("DM")), "011");
}

#[test]
fn dest_triples_in_every_order() {
    for field in ["ADM", "AMD", "DAM", "DMA", "MAD", "MDA"] {
        assert_eq!(dest(some(field)), "111");
    }
}

#[test]
fn dest_rejects_what_the_table_lacks() {
    assert_eq!(dest(some("")), ERROR_MARK);
    assert_eq!(dest(some("AA")), ERROR_MARK);
    assert_eq!(dest(some("X")), ERROR_MARK);
    assert_eq!(dest(some("m")), ERROR_MARK);
    assert_eq!(dest(some("ADMA")), ERROR_MARK);
    assert_eq!(ERROR_MARK, "error");
}

#[test]
fn comp_holds_all_twenty_eight_mnemonics() {
    let table = [
        ("0", "0101010"),
        ("1", "0111111"),
        ("-1", "0111010"),
        ("D", "0001100"),
        ("A", "0110000"),
        ("M", "1110000"),
        ("!D", "0001101"),
        ("!A", "0110001"),
        ("!M", "1110001"),
        ("-D", "0001111"),
        ("-A", "0110011"),
        ("-M", "1110011"),
        ("D+1", "0011111"),
        ("A+1", "0110111"),
        ("M+1", "1110111"),
        ("D-1", "0001110"),
        ("A-1", "0110010"),
        ("M-1", "1110010"),
        ("D+A", "0000010"),
        ("D+M", "1000010"),
        ("D-A", "0010011"),
        ("D-M", "1010011"),
        ("A-D", "0000111"),
        ("M-D", "1000111"),
        ("D&A", "0000000"),
        ("D&M", "1000000"),
        ("D|A", "0010101"),
        ("D|M", "1010101"),
    ];
    assert_eq!(table.len(), 28);
    for (mnemonic, bits) in table {
        assert_eq!(comp(some(mnemonic)), bits);
    }
}

#[test]
fn comp_rejects_what_the_table_lacks() {
    assert_eq!(comp(None), "error");
    assert_eq!(comp(some("")), "error");
    assert_eq!(comp(some("A+D")), "error");
    assert_eq!(comp(some("D + 1")), "error");
    assert_eq!(comp(some("2")), "error");
}

#[test]
fn jump_table() {
    assert_eq!(jump(None), "000");
    assert_eq!(jump(some("JGT")), "001");
    assert_eq!(jump(some("JEQ")), "010");
    assert_eq!(jump(some("JGE")), "011");
    assert_eq!(jump(some("JLT")), "100");
    assert_eq!(jump(some("JNE")), "101");
    assert_eq!(jump(some("JLE")), "110");
    assert_eq!(jump(some("JMP")), "111");
}

#[test]
fn jump_rejects_what_the_table_lacks() {
    assert_eq!(jump(some("")), "error");
    assert_eq!(jump(some("jmp")), "error");
    assert_eq!(jump(some("JMPX")), "error");
}

use hack_assembler::hackasm::{
    carriers_within, copy_table, variables_fit, define, encode_address, encode_compute, lookup, resolve_words, Assembler, Symbol, Word,
    FIRST_VARIABLE,
};

fn assemble(source: &str) -> Vec<String> {
    Assembler::new(source).generate_binary()
}

fn bits(n: u16) -> String {
    format!("{:016b}", n)
}

#[test]
fn end_to_end_add() {
    let out = assemble("@2\nD=A\n@3\nD=D+A\n@0\nM=D");
    assert_eq!(
        out,
        vec![
            "0000000000000010",
            "1110110000010000",
            "0000000000000011",
            "1110000010010000",
            "0000000000000000",
            "1110001100001000",
        ]
    );
}

#[test]
fn label_and_variable_mix() {
    let mut a = Assembler::new("(START)\n@i\nM=0\n@START\n0;JMP");
    assert_eq!(a.address_of("START"), None);
    assert_eq!(a.address_of("i"), None);
    let out = a.generate_binary();
    assert_eq!(a.address_of("START"), Some(0));
    assert_eq!(a.address_of("i"), Some(16));
    assert_eq!(
        out,
        vec![
            "0000000000010000",
            "1110101010001000",
            "0000000000000000",
            "1110101010000111",
        ]
    );
}

#[test]
fn forward_label_resolves_to_its_program_address() {
    for n in [0usize, 1, 2, 5, 40] {
        let mut source = String::from("@LOOP\n");
        for _ in 0..n {
            source.push_str("D=D+1\n");
        }
        source.push_str("(LOOP)\n0;JMP\n");
        let out = assemble(&source);
        assert_eq!(out.len(), n + 2);
        assert_eq!(out[0], bits(n as u16 + 1));
        assert_eq!(out[n + 1], "1110101010000111");
    }
}

#[test]
fn forward_label_after_n_computes() {
    let out = assemble("D=A\nD=A\nD=A\n@LOOP\n0;JMP\n(LOOP)\n@LOOP\n");
    assert_eq!(out.len(), 6);
    assert_eq!(out[3], bits(5));
    assert_eq!(out[5], bits(5));
}

#[test]
fn predefined_symbols_resolve_to_their_addresses() {
    let mut table: Vec<(String, u16)> = Vec::new();
    for r in 0u16..16 {
        table.push((format!("R{}", r), r));
    }
    for (name, address) in [("SP", 0), ("LCL", 1), ("ARG", 2), ("THIS", 3), ("THAT", 4), ("SCREEN", 16384), ("KBD", 24576)] {
        table.push((String::from(name), address));
    }
    assert_eq!(table.len(), 23);
    for (name, address) in table {
        let out = assemble(&format!("@x\nD=M\n(L)\n@{}\n@y\n", name));
        assert_eq!(out[2], bits(address));
        assert_eq!(out[0], bits(16));
        assert_eq!(out[3], bits(17));
    }
}

#[test]
fn symbols_are_case_sensitive() {
    let out = assemble("@sp\n@SP\n@Screen\n");
    assert_eq!(out, vec![bits(16), bits(0), bits(17)]);
}

#[test]
fn variables_get_increasing_addresses_from_sixteen() {
    let out = assemble("@a\n@b\n@a\n@c\n@b\n@a\n@d\n");
    assert_eq!(
        out,
        vec![bits(16), bits(17), bits(16), bits(18), bits(17), bits(16), bits(19)]
    );
    assert_eq!(FIRST_VARIABLE, 16);
}

#[test]
fn variables_are_numbered_in_order_of_first_use() {
    let out = assemble("@zeta\n@LATER\n@alpha\n(LATER)\n@zeta\n");
    assert_eq!(out, vec![bits(16), bits(3), bits(17), bits(16)]);
}

#[test]
fn program_without_labels_has_one_line_per_instruction() {
    let source = "// sum\n@1\nD=A\n\n@2\nD=D+A // add\n   \n@sum\nM=D\n";
    let out = assemble(source);
    assert_eq!(out.len(), 6);
    for line in &out {
        assert_eq!(line.len(), 16);
        assert!(line.chars().all(|c| c == '0' || c == '1'));
    }
}

#[test]
fn blank_lines_at_the_end_add_nothing() {
    assert_eq!(assemble("@2\n\n\n"), vec![bits(2)]);
    assert_eq!(assemble("\n\n// nothing\n"), Vec::<String>::new());
    assert_eq!(assemble(""), Vec::<String>::new());
}

#[test]
fn label_defined_before_use() {
    let out = assemble("D=A\n(HERE)\nD=A\n@HERE\n");
    assert_eq!(out[2], bits(1));
}

#[test]
fn later_label_of_a_name_replaces_the_earlier() {
    let out = assemble("(X)\n@X\nD=A\n(X)\n@X\n");
    assert_eq!(out, vec![bits(0), String::from("1110110000010000"), bits(2)]);
}

#[test]
fn unknown_mnemonics_leave_the_error_mark() {
    assert_eq!(assemble("Q=D+1"), vec!["1110011111error000"]);
    assert_eq!(assemble("D=D+2"), vec!["111error010000"]);
    assert_eq!(assemble("0;JUMP"), vec!["1110101010000error"]);
}

#[test]
fn numeral_too_large_becomes_a_variable() {
    assert_eq!(assemble("@65535\n@65536\n"), vec![bits(65535), bits(16)]);
}

#[test]
fn compute_word_from_fields() {
    let word = encode_compute(
        Some(String::from("D+A")),
        Some(String::from("D")),
        None,
    );
    assert_eq!(word, "1110000010010000");
    let word = encode_compute(Some(String::from("0")), None, Some(String::from("JMP")));
    assert_eq!(word, "1110101010000111");
}

fn text(word: &Word) -> (bool, String) {
    match word {
        Word::Bits(s) => (true, s.clone()),
        Word::Open(s) => (false, s.clone()),
    }
}

#[test]
fn address_word_by_table() {
    let mut table: Vec<Symbol> = Vec::new();
    define(&mut table, String::from("LOOP"), 7);
    assert_eq!(text(&encode_address(&table, String::from("12"))), (true, bits(12)));
    assert_eq!(text(&encode_address(&table, String::from("LOOP"))), (true, bits(7)));
    assert_eq!(text(&encode_address(&table, String::from("loop"))), (false, String::from("loop")));
}

#[test]
fn lookup_finds_the_latest_entry() {
    let mut table: Vec<Symbol> = Vec::new();
    assert_eq!(lookup(&table, "a"), None);
    define(&mut table, String::from("a"), 1);
    define(&mut table, String::from("b"), 2);
    define(&mut table, String::from("a"), 3);
    assert_eq!(lookup(&table, "a"), Some(3));
    assert_eq!(lookup(&table, "b"), Some(2));
    assert_eq!(lookup(&table, "c"), None);
}

#[test]
fn resolve_words_fills_open_words() {
    let mut table: Vec<Symbol> = Vec::new();
    define(&mut table, String::from("END"), 9);
    let words = vec![
        Word::Open(String::from("x")),
        Word::Bits(String::from("1110101010000111")),
        Word::Open(String::from("END")),
        Word::Open(String::from("y")),
        Word::Open(String::from("x")),
    ];
    let out = resolve_words(&mut table, &words);
    assert_eq!(
        out,
        vec![bits(16), String::from("1110101010000111"), bits(9), bits(17), bits(16)]
    );
    assert_eq!(lookup(&table, "x"), Some(16));
    assert_eq!(lookup(&table, "y"), Some(17));
}

#[test]
fn assembler_can_be_run_once_and_is_then_done() {
    let mut a = Assembler::new("@1\n@v\n");
    assert_eq!(a.generate_binary(), vec![bits(1), bits(16)]);
    assert_eq!(a.generate_binary(), Vec::<String>::new());
}

#[test]
fn short_programs_are_recognised() {
    assert!(Assembler::new("").is_short());
    assert!(Assembler::new("@1\nD=A\n(L)\n@L\n").is_short());
    let mut long = String::new();
    for _ in 0..65519 {
        long.push_str("D=A\n");
    }
    assert!(Assembler::new(&long).is_short());
    long.push_str("// no instruction\n\n");
    assert!(Assembler::new(&long).is_short());
    long.push_str("D=A\n");
    assert!(!Assembler::new(&long).is_short());
}

#[test]
fn longest_short_program_assembles() {
    let mut long = String::new();
    for _ in 0..65518 {
        long.push_str("D=A\n");
    }
    long.push_str("@last\n");
    let mut a = Assembler::new(&long);
    assert!(a.is_short());
    let out = a.generate_binary();
    assert_eq!(out.len(), 65519);
    assert_eq!(out[0], "1110110000010000");
    assert_eq!(out[65518], bits(16));
}

#[test]
fn many_variables_are_numbered_in_order() {
    let mut source = String::new();
    for i in 0..500 {
        source.push_str(&format!("@v{}\n", i));
    }
    source.push_str("@v0\n@v499\n");
    let out = assemble(&source);
    assert_eq!(out.len(), 502);
    for i in 0..500 {
        assert_eq!(out[i], bits(16 + i as u16));
    }
    assert_eq!(out[500], bits(16));
    assert_eq!(out[501], bits(515));
}

#[test]
fn new_assembler_holds_the_predefined_symbols() {
    let a = Assembler::new("");
    for r in 0u16..16 {
        assert_eq!(a.address_of(&format!("R{}", r)), Some(r));
    }
    assert_eq!(a.address_of("SP"), Some(0));
    assert_eq!(a.address_of("LCL"), Some(1));
    assert_eq!(a.address_of("ARG"), Some(2));
    assert_eq!(a.address_of("THIS"), Some(3));
    assert_eq!(a.address_of("THAT"), Some(4));
    assert_eq!(a.address_of("SCREEN"), Some(16384));
    assert_eq!(a.address_of("KBD"), Some(24576));
    assert_eq!(a.address_of("R16"), None);
    assert_eq!(a.address_of("kbd"), None);
}

#[test]
fn forward_label_enters_the_table_with_its_program_address() {
    let mut a = Assembler::new("@END\nD=A\n(MID)\nD=A\n(END)\n@MID\n");
    let out = a.generate_binary();
    assert_eq!(out[0], bits(3));
    assert_eq!(out[3], bits(2));
    assert_eq!(a.address_of("END"), Some(3));
    assert_eq!(a.address_of("MID"), Some(2));
}

#[test]
fn symbols_that_differ_only_in_marks_are_different() {
    let out = assemble("@a@b\n@ab\n@a@b\n");
    assert_eq!(out, vec![bits(16), bits(17), bits(16)]);
}

#[test]
fn fits_is_exact_on_the_instruction_count() {
    let mut long = String::new();
    for _ in 0..65535 {
        long.push_str("D=A\n");
    }
    let a = Assembler::new(&long);
    assert!(a.fits());
    assert!(!a.is_short());
    long.push_str("(END)\n// no instruction\n");
    assert!(Assembler::new(&long).fits());
    long.push_str("D=A\n");
    assert!(!Assembler::new(&long).fits());
}

#[test]
fn fits_leaves_the_assembler_as_it_is() {
    let mut a = Assembler::new("@x\n(L)\n@L\n");
    assert!(a.fits());
    assert_eq!(a.address_of("x"), None);
    assert_eq!(a.address_of("L"), None);
    assert_eq!(a.generate_binary(), vec![bits(16), bits(1)]);
}

#[test]
fn program_of_full_length_assembles() {
    let mut long = String::new();
    for _ in 0..65534 {
        long.push_str("0;JMP\n");
    }
    long.push_str("@v\n");
    let mut a = Assembler::new(&long);
    assert!(a.fits());
    let out = a.generate_binary();
    assert_eq!(out.len(), 65535);
    assert_eq!(out[65534], bits(16));
}

#[test]
fn carriers_within_counts_words_not_labels() {
    let p = hack_assembler::parser::Parser::new("(A)\n@1\n(B)\n\nD=A\n(C)\n");
    assert!(carriers_within(&p, 2));
    assert!(carriers_within(&p, 3));
    assert!(!carriers_within(&p, 1));
    assert!(!carriers_within(&p, 0));
}

#[test]
fn variables_fit_counts_new_variables_once() {
    let mut table: Vec<Symbol> = Vec::new();
    define(&mut table, String::from("known"), 3);
    let words = vec![
        Word::Open(String::from("a")),
        Word::Open(String::from("known")),
        Word::Open(String::from("a")),
        Word::Bits(String::from("0000000000000000")),
    ];
    assert!(variables_fit(&table, &words));
    assert_eq!(table.len(), 1);
    let copy = copy_table(&table);
    assert_eq!(copy.len(), 1);
    assert_eq!(copy[0].name, "known");
    assert_eq!(copy[0].address, 3);
}

#[test]
fn variables_fit_accepts_a_few_hundred_variables() {
    let table: Vec<Symbol> = Vec::new();
    let mut words: Vec<Word> = Vec::new();
    for i in 0..300 {
        words.push(Word::Open(format!("v{}", i)));
    }
    assert!(variables_fit(&table, &words));
}

#[test]
fn try_generate_binary_assembles_what_fits() {
    let mut a = Assembler::new("@2\nD=A\n@v\n");
    assert_eq!(
        a.try_generate_binary(),
        Some(vec![bits(2), String::from("1110110000010000"), bits(16)])
    );
}

#[test]
fn try_generate_binary_refuses_what_does_not_fit() {
    let mut long = String::new();
    for _ in 0..65536 {
        long.push_str("D=A\n");
    }
    let mut a = Assembler::new(&long);
    assert_eq!(a.try_generate_binary(), None);
    assert_eq!(a.address_of("SP"), Some(0));
    assert!(!a.fits());
}

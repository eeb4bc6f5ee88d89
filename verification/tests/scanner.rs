use hack_assembler::parser::{find_char, is_whitespace, InstructionType, Parser};
use hack_assembler::text::{binary16, chars_of, parse_numeral, text_eq, text_of};

fn some(s: &str) -> Option<String> {
    Some(String::from(s))
}

#[test]
fn new_parser_has_read_nothing() {
    let p = Parser::new("@1\n");
    assert_eq!(p.current_line, 0);
    assert_eq!(p.current_instruction, None);
    assert!(p.has_more_lines());
}

#[test]
fn empty_source_has_no_lines() {
    let mut p = Parser::new("");
    assert!(!p.has_more_lines());
    p.advance();
    assert_eq!(p.current_instruction, None);
    assert_eq!(p.current_line, 0);
}

#[test]
fn advance_skips_blank_and_comment_lines() {
    let mut p = Parser::new("\n   \n// a comment\n  // another\n\t@12  // load\r\nD=A\n");
    p.advance();
    assert_eq!(p.current_instruction, some("@12"));
    assert_eq!(p.current_line, 1);
    assert_eq!(p.instruction_type(), InstructionType::AINSTRUCTION);
    assert!(p.has_more_lines());
    p.advance();
    assert_eq!(p.current_instruction, some("D=A"));
    assert_eq!(p.current_line, 2);
    assert_eq!(p.instruction_type(), InstructionType::CINSTRUCTION);
    assert!(!p.has_more_lines());
}

#[test]
fn advance_past_the_last_instruction_leaves_none() {
    let mut p = Parser::new("@1\n\n// done\n");
    p.advance();
    assert_eq!(p.current_instruction, some("@1"));
    assert!(p.has_more_lines());
    p.advance();
    assert_eq!(p.current_instruction, None);
    assert_eq!(p.current_line, 1);
    assert!(!p.has_more_lines());
}

#[test]
fn a_single_slash_is_no_comment() {
    let mut p = Parser::new("D/1\n");
    p.advance();
    assert_eq!(p.current_instruction, some("D/1"));
}

#[test]
fn labels_do_not_count() {
    let mut p = Parser::new("(START)\n@i\n(NEXT)\n(MORE)\nM=0\n");
    p.advance();
    assert_eq!(p.instruction_type(), InstructionType::LINSTRUCTION);
    assert_eq!(p.symbol(), some("START"));
    assert_eq!(p.current_line, 0);
    p.advance();
    assert_eq!(p.instruction_type(), InstructionType::AINSTRUCTION);
    assert_eq!(p.symbol(), some("i"));
    assert_eq!(p.current_line, 1);
    p.advance();
    assert_eq!(p.symbol(), some("NEXT"));
    assert_eq!(p.current_line, 1);
    p.advance();
    assert_eq!(p.symbol(), some("MORE"));
    assert_eq!(p.current_line, 1);
    p.advance();
    assert_eq!(p.instruction_type(), InstructionType::CINSTRUCTION);
    assert_eq!(p.symbol(), None);
    assert_eq!(p.current_line, 2);
}

#[test]
fn last_line_without_newline_is_read() {
    let mut p = Parser::new("@1\n0;JMP");
    p.advance();
    p.advance();
    assert_eq!(p.current_instruction, some("0;JMP"));
    assert!(!p.has_more_lines());
}

fn fields(line: &str) -> (Option<String>, Option<String>, Option<String>) {
    let mut p = Parser::new(line);
    p.advance();
    (p.dest(), p.comp(), p.jump())
}

#[test]
fn compute_fields_full() {
    assert_eq!(fields("AM=D+1;JGT"), (some("AM"), some("D+1"), some("JGT")));
}

#[test]
fn compute_fields_without_jump() {
    assert_eq!(fields("D=A"), (some("D"), some("A"), None));
}

#[test]
fn compute_fields_without_dest() {
    assert_eq!(fields("0;JMP"), (None, some("0"), some("JMP")));
    assert_eq!(fields("D"), (None, some("D"), None));
}

#[test]
fn compute_fields_empty_parts() {
    assert_eq!(fields("=;"), (some(""), some(""), some("")));
    assert_eq!(fields("D=M;"), (some("D"), some("M"), some("")));
    assert_eq!(fields("D=M;JGT;JLT"), (some("D"), some("M"), some("JGT")));
}

#[test]
fn address_and_label_have_no_compute_fields() {
    assert_eq!(fields("@D=A;JMP"), (None, None, None));
    assert_eq!(fields("(D=A;JMP)"), (None, None, None));
}

#[test]
fn address_symbol_is_what_follows_the_at_sign() {
    let mut p = Parser::new("@a(b)c\n@a@b\n@ab\n@\n@ x\n");
    p.advance();
    assert_eq!(p.symbol(), some("a(b)c"));
    p.advance();
    assert_eq!(p.symbol(), some("a@b"));
    p.advance();
    assert_eq!(p.symbol(), some("ab"));
    p.advance();
    assert_eq!(p.symbol(), some(""));
    p.advance();
    assert_eq!(p.symbol(), some(" x"));
}

#[test]
fn label_symbol_is_what_the_parentheses_enclose() {
    let mut p = Parser::new("(LOOP)\n(a.b$c)\n(OPEN\n()\n(X) y\n((Y))\n(@Z)\n");
    p.advance();
    assert_eq!(p.symbol(), some("LOOP"));
    p.advance();
    assert_eq!(p.symbol(), some("a.b$c"));
    p.advance();
    assert_eq!(p.symbol(), some("OPEN"));
    p.advance();
    assert_eq!(p.symbol(), some(""));
    p.advance();
    assert_eq!(p.symbol(), some("X"));
    p.advance();
    assert_eq!(p.symbol(), some("(Y"));
    p.advance();
    assert_eq!(p.symbol(), some("@Z"));
}

#[test]
fn advance_with_no_line_left_changes_nothing() {
    let mut p = Parser::new("@1");
    p.advance();
    assert_eq!(p.current_instruction, some("@1"));
    assert_eq!(p.current_line, 1);
    assert!(!p.has_more_lines());
    p.advance();
    assert_eq!(p.current_instruction, some("@1"));
    assert_eq!(p.current_line, 1);
    assert_eq!(p.cursor, 2);
    assert!(!p.has_more_lines());
    let mut q = Parser::new("(L)\n");
    q.advance();
    q.advance();
    q.advance();
    assert_eq!(q.current_instruction, some("(L)"));
    assert_eq!(q.current_line, 0);
}

#[test]
fn cloned_parser_reads_on_its_own() {
    let mut p = Parser::new("@1\n@2\n");
    p.advance();
    let mut q = p.clone();
    q.advance();
    assert_eq!(p.current_instruction, some("@1"));
    assert_eq!(q.current_instruction, some("@2"));
    assert!(p.has_more_lines());
    assert!(!q.has_more_lines());
}

#[test]
fn white_space_is_unicode_white_space() {
    for c in [' ', '\t', '\n', '\r', '\u{0B}', '\u{0C}', '\u{85}', '\u{A0}', '\u{1680}', '\u{2003}', '\u{2028}', '\u{2029}', '\u{202F}', '\u{205F}', '\u{3000}'] {
        assert!(is_whitespace(c));
    }
    for c in ['a', '0', '/', '@', '\u{200B}', '\u{0}', '\u{1F}', '\u{FEFF}'] {
        assert!(!is_whitespace(c));
    }
    for code in 0u32..0x3100 {
        if let Some(c) = char::from_u32(code) {
            assert_eq!(is_whitespace(c), c.is_whitespace());
        }
    }
}

#[test]
fn find_char_gives_first_match_or_length() {
    let v: Vec<char> = "a=b=c".chars().collect();
    assert_eq!(find_char(&v, '=', 0), 1);
    assert_eq!(find_char(&v, '=', 2), 3);
    assert_eq!(find_char(&v, '=', 4), 5);
    assert_eq!(find_char(&v, ';', 0), 5);
}

#[test]
fn chars_and_text_round_trip() {
    let v = chars_of("héllo wörld");
    assert_eq!(v.len(), 11);
    assert_eq!(v[1], 'é');
    assert_eq!(text_of(&v, 0, 11), "héllo wörld");
    assert_eq!(text_of(&v, 6, 11), "wörld");
    assert_eq!(text_of(&v, 3, 3), "");
}

#[test]
fn text_eq_compares_characters() {
    assert!(text_eq("", ""));
    assert!(text_eq("JMP", "JMP"));
    assert!(!text_eq("JMP", "JMp"));
    assert!(!text_eq("JMP", "JM"));
    assert!(!text_eq("é", "e"));
}

#[test]
fn binary16_exact_values() {
    assert_eq!(binary16(0), "0000000000000000");
    assert_eq!(binary16(1), "0000000000000001");
    assert_eq!(binary16(2), "0000000000000010");
    assert_eq!(binary16(16), "0000000000010000");
    assert_eq!(binary16(16384), "0100000000000000");
    assert_eq!(binary16(24576), "0110000000000000");
    assert_eq!(binary16(32768), "1000000000000000");
    assert_eq!(binary16(43690), "1010101010101010");
    assert_eq!(binary16(65535), "1111111111111111");
}

#[test]
fn binary16_agrees_with_std_formatting() {
    let mut n: u32 = 0;
    while n <= 65535 {
        assert_eq!(binary16(n as u16), format!("{:016b}", n));
        n += 257;
    }
}

#[test]
fn parse_numeral_accepts_sixteen_bit_numbers() {
    assert_eq!(parse_numeral("0"), Some(0));
    assert_eq!(parse_numeral("7"), Some(7));
    assert_eq!(parse_numeral("007"), Some(7));
    assert_eq!(parse_numeral("+42"), Some(42));
    assert_eq!(parse_numeral("65535"), Some(65535));
    assert_eq!(parse_numeral("000000000000000000065535"), Some(65535));
}

#[test]
fn parse_numeral_rejects_the_rest() {
    assert_eq!(parse_numeral(""), None);
    assert_eq!(parse_numeral("+"), None);
    assert_eq!(parse_numeral("-1"), None);
    assert_eq!(parse_numeral("++1"), None);
    assert_eq!(parse_numeral("65536"), None);
    assert_eq!(parse_numeral("99999999999999999999"), None);
    assert_eq!(parse_numeral("12a"), None);
    assert_eq!(parse_numeral("1 2"), None);
    assert_eq!(parse_numeral("i"), None);
    assert_eq!(parse_numeral("١٢"), None);
}

#[test]
fn parse_numeral_agrees_with_std() {
    for s in ["0", "1", "+1", "-1", "+", "", "65535", "65536", "0065535", "6553 5", "x1", "1x", "+-1", "４２"] {
        assert_eq!(parse_numeral(s), s.parse::<u16>().ok());
    }
}

#[test]
fn at_most_left_counts_instructions() {
    let mut p = Parser::new("@1\n\n// c\n(L)\nD=A\n");
    assert!(p.at_most_left(3));
    assert!(p.at_most_left(4));
    assert!(!p.at_most_left(2));
    assert!(!p.at_most_left(0));
    p.advance();
    assert!(p.at_most_left(2));
    assert!(!p.at_most_left(1));
    p.advance();
    p.advance();
    assert!(p.at_most_left(0));
}

#[test]
fn seek_finds_the_span_of_the_next_instruction() {
    let v: Vec<char> = "  // c\n\n  D=A // x\n@1".chars().collect();
    let span = hack_assembler::parser::seek(&v, 0);
    assert_eq!((span.start, span.stop, span.next), (10, 13, 19));
    let span = hack_assembler::parser::seek(&v, 19);
    assert_eq!((span.start, span.stop, span.next), (19, 21, 21));
    let span = hack_assembler::parser::seek(&v, 21);
    assert_eq!((span.start, span.stop, span.next), (21, 21, 21));
}

//! The mnemonic encoder: the three lookup tables that turn the destination,
//! computation and jump fields of a compute instruction into bit fields.
//!
//! Each function is total. A field that its table does not hold yields
//! [`ERROR_MARK`] in place of bits; the caller decides what to make of it.

use crate::text::{opt_view, text_eq};
use vstd::prelude::*;
use vstd::string::*;

verus! {

/// What an encoder returns for a field that its table does not hold.
pub const ERROR_MARK: &'static str = "error";

/// The three destination bits of a destination field: `000` for an absent
/// field, else the table entry, one bit each for `A`, `D` and `M`, the
/// registers in any order.
pub open spec fn dest_bits(field: Option<Seq<char>>) -> Seq<char> {
    match field {
        None => "000"@,
        Some(s) => {
            if s == "M"@ {
                "001"@
            } else if s == "D"@ {
                "010"@
            } else if s == "DM"@ {
                "011"@
            } else if s == "MD"@ {
                "011"@
            } else if s == "A"@ {
                "100"@
            } else if s == "AM"@ {
                "101"@
            } else if s == "MA"@ {
                "101"@
            } else if s == "AD"@ {
                "110"@
            } else if s == "DA"@ {
                "110"@
            } else if s == "ADM"@ {
                "111"@
            } else if s == "AMD"@ {
                "111"@
            } else if s == "DMA"@ {
                "111"@
            } else if s == "DAM"@ {
                "111"@
            } else if s == "MDA"@ {
                "111"@
            } else if s == "MAD"@ {
                "111"@
            } else {
                ERROR_MARK@
            }
        },
    }
}

/// The seven computation bits of a computation field: the table entry of one
/// of the 28 mnemonics. An absent field has no encoding.
pub open spec fn comp_bits(field: Option<Seq<char>>) -> Seq<char> {
    match field {
        None => ERROR_MARK@,
        Some(s) => {
            if s == "0"@ {
                "0101010"@
            } else if s == "1"@ {
                "0111111"@
            } else if s == "-1"@ {
                "0111010"@
            } else if s == "D"@ {
                "0001100"@
            } else if s == "A"@ {
                "0110000"@
            } else if s == "M"@ {
                "1110000"@
            } else if s == "!D"@ {
                "0001101"@
            } else if s == "!A"@ {
                "0110001"@
            } else if s == "!M"@ {
                "1110001"@
            } else if s == "-D"@ {
                "0001111"@
            } else if s == "-A"@ {
                "0110011"@
            } else if s == "-M"@ {
                "1110011"@
            } else if s == "D+1"@ {
                "0011111"@
            } else if s == "A+1"@ {
                "0110111"@
            } else if s == "M+1"@ {
                "1110111"@
            } else if s == "D-1"@ {
                "0001110"@
            } else if s == "A-1"@ {
                "0110010"@
            } else if s == "M-1"@ {
                "1110010"@
            } else if s == "D+A"@ {
                "0000010"@
            } else if s == "D+M"@ {
                "1000010"@
            } else if s == "D-A"@ {
                "0010011"@
            } else if s == "D-M"@ {
                "1010011"@
            } else if s == "A-D"@ {
                "0000111"@
            } else if s == "M-D"@ {
                "1000111"@
            } else if s == "D&A"@ {
                "0000000"@
            } else if s == "D&M"@ {
                "1000000"@
            } else if s == "D|A"@ {
                "0010101"@
            } else if s == "D|M"@ {
                "1010101"@
            } else {
                ERROR_MARK@
            }
        },
    }
}

/// The three jump bits of a jump field: `000` for an absent field, else the
/// table entry of one of the seven jump mnemonics.
pub open spec fn jump_bits(field: Option<Seq<char>>) -> Seq<char> {
    match field {
        None => "000"@,
        Some(s) => {
            if s == "JGT"@ {
                "001"@
            } else if s == "JEQ"@ {
                "010"@
            } else if s == "JGE"@ {
                "011"@
            } else if s == "JLT"@ {
                "100"@
            } else if s == "JNE"@ {
                "101"@
            } else if s == "JLE"@ {
                "110"@
            } else if s == "JMP"@ {
                "111"@
            } else {
                ERROR_MARK@
            }
        },
    }
}

/// Encodes a destination field.
pub fn dest(input: Option<String>) -> (bits: String)
    ensures
        bits@ == dest_bits(opt_view(input)),
{
    match input {
        None => String::from_str("000"),
        Some(s) => {
            if text_eq(s.as_str(), "M") {
                String::from_str("001")
            } else if text_eq(s.as_str(), "D") {
                String::from_str("010")
            } else if text_eq(s.as_str(), "DM") {
                String::from_str("011")
            } else if text_eq(s.as_str(), "MD") {
                String::from_str("011")
            } else if text_eq(s.as_str(), "A") {
                String::from_str("100")
            } else if text_eq(s.as_str(), "AM") {
                String::from_str("101")
            } else if text_eq(s.as_str(), "MA") {
                String::from_str("101")
            } else if text_eq(s.as_str(), "AD") {
                String::from_str("110")
            } else if text_eq(s.as_str(), "DA") {
                String::from_str("110")
            } else if text_eq(s.as_str(), "ADM") {
                String::from_str("111")
            } else if text_eq(s.as_str(), "AMD") {
                String::from_str("111")
            } else if text_eq(s.as_str(), "DMA") {
                String::from_str("111")
            } else if text_eq(s.as_str(), "DAM") {
                String::from_str("111")
            } else if text_eq(s.as_str(), "MDA") {
                String::from_str("111")
            } else if text_eq(s.as_str(), "MAD") {
                String::from_str("111")
            } else {
                String::from_str(ERROR_MARK)
            }
        },
    }
}

/// Encodes a computation field.
pub fn comp(input: Option<String>) -> (bits: String)
    ensures
        bits@ == comp_bits(opt_view(input)),
{
    match input {
        None => String::from_str(ERROR_MARK),
        Some(s) => {
            if text_eq(s.as_str(), "0") {
                String::from_str("0101010")
            } else if text_eq(s.as_str(), "1") {
                String::from_str("0111111")
            } else if text_eq(s.as_str(), "-1") {
                String::from_str("0111010")
            } else if text_eq(s.as_str(), "D") {
                String::from_str("0001100")
            } else if text_eq(s.as_str(), "A") {
                String::from_str("0110000")
            } else if text_eq(s.as_str(), "M") {
                String::from_str("1110000")
            } else if text_eq(s.as_str(), "!D") {
                String::from_str("0001101")
            } else if text_eq(s.as_str(), "!A") {
                String::from_str("0110001")
            } else if text_eq(s.as_str(), "!M") {
                String::from_str("1110001")
            } else if text_eq(s.as_str(), "-D") {
                String::from_str("0001111")
            } else if text_eq(s.as_str(), "-A") {
                String::from_str("0110011")
            } else if text_eq(s.as_str(), "-M") {
                String::from_str("1110011")
            } else if text_eq(s.as_str(), "D+1") {
                String::from_str("0011111")
            } else if text_eq(s.as_str(), "A+1") {
                String::from_str("0110111")
            } else if text_eq(s.as_str(), "M+1") {
                String::from_str("1110111")
            } else if text_eq(s.as_str(), "D-1") {
                String::from_str("0001110")
            } else if text_eq(s.as_str(), "A-1") {
                String::from_str("0110010")
            } else if text_eq(s.as_str(), "M-1") {
                String::from_str("1110010")
            } else if text_eq(s.as_str(), "D+A") {
                String::from_str("0000010")
            } else if text_eq(s.as_str(), "D+M") {
                String::from_str("1000010")
            } else if text_eq(s.as_str(), "D-A") {
                String::from_str("0010011")
            } else if text_eq(s.as_str(), "D-M") {
                String::from_str("1010011")
            } else if text_eq(s.as_str(), "A-D") {
                String::from_str("0000111")
            } else if text_eq(s.as_str(), "M-D") {
                String::from_str("1000111")
            } else if text_eq(s.as_str(), "D&A") {
                String::from_str("0000000")
            } else if text_eq(s.as_str(), "D&M") {
                String::from_str("1000000")
            } else if text_eq(s.as_str(), "D|A") {
                String::from_str("0010101")
            } else if text_eq(s.as_str(), "D|M") {
                String::from_str("1010101")
            } else {
                String::from_str(ERROR_MARK)
            }
        },
    }
}

/// Encodes a jump field.
pub fn jump(input: Option<String>) -> (bits: String)
    ensures
        bits@ == jump_bits(opt_view(input)),
{
    match input {
        None => String::from_str("000"),
        Some(s) => {
            if text_eq(s.as_str(), "JGT") {
                String::from_str("001")
            } else if text_eq(s.as_str(), "JEQ") {
                String::from_str("010")
            } else if text_eq(s.as_str(), "JGE") {
                String::from_str("011")
            } else if text_eq(s.as_str(), "JLT") {
                String::from_str("100")
            } else if text_eq(s.as_str(), "JNE") {
                String::from_str("101")
            } else if text_eq(s.as_str(), "JLE") {
                String::from_str("110")
            } else if text_eq(s.as_str(), "JMP") {
                String::from_str("111")
            } else {
                String::from_str(ERROR_MARK)
            }
        },
    }
}

/// The digit that stands for a flag: `'1'` when it is set, `'0'` when not.
pub open spec fn flag(on: bool) -> char {
    if on {
        '1'
    } else {
        '0'
    }
}

/// Whether `s` is a destination field that the table holds.
pub open spec fn is_dest(s: Seq<char>) -> bool {
    dest_bits(Some(s)) != ERROR_MARK@
}

/// The destination bits of a field that the table holds say which registers
/// the field names, and nothing else: the first bit is set exactly when `A`
/// occurs in it, the second when `D` does, the third when `M` does.
pub proof fn dest_bits_by_register(s: Seq<char>)
    requires
        is_dest(s),
    ensures
        dest_bits(Some(s)) == seq![
            flag(s.contains('A')),
            flag(s.contains('D')),
            flag(s.contains('M')),
        ],
{
    reveal_strlit("error");
    reveal_strlit("001");
    reveal_strlit("010");
    reveal_strlit("011");
    reveal_strlit("100");
    reveal_strlit("101");
    reveal_strlit("110");
    reveal_strlit("111");
    let by_register = seq![flag(s.contains('A')), flag(s.contains('D')), flag(s.contains('M'))];
    if s == "M"@ {
        reveal_strlit("M");
        assert(s[0] == 'M');
    } else if s == "D"@ {
        reveal_strlit("D");
        assert(s[0] == 'D');
    } else if s == "DM"@ {
        reveal_strlit("DM");
        assert(s[0] == 'D');
        assert(s[1] == 'M');
    } else if s == "MD"@ {
        reveal_strlit("MD");
        assert(s[0] == 'M');
        assert(s[1] == 'D');
    } else if s == "A"@ {
        reveal_strlit("A");
        assert(s[0] == 'A');
    } else if s == "AM"@ {
        reveal_strlit("AM");
        assert(s[0] == 'A');
        assert(s[1] == 'M');
    } else if s == "MA"@ {
        reveal_strlit("MA");
        assert(s[0] == 'M');
        assert(s[1] == 'A');
    } else if s == "AD"@ {
        reveal_strlit("AD");
        assert(s[0] == 'A');
        assert(s[1] == 'D');
    } else if s == "DA"@ {
        reveal_strlit("DA");
        assert(s[0] == 'D');
        assert(s[1] == 'A');
    } else if s == "ADM"@ {
        reveal_strlit("ADM");
        assert(s[0] == 'A');
        assert(s[1] == 'D');
        assert(s[2] == 'M');
    } else if s == "AMD"@ {
        reveal_strlit("AMD");
        assert(s[0] == 'A');
        assert(s[1] == 'M');
        assert(s[2] == 'D');
    } else if s == "DMA"@ {
        reveal_strlit("DMA");
        assert(s[0] == 'D');
        assert(s[1] == 'M');
        assert(s[2] == 'A');
    } else if s == "DAM"@ {
        reveal_strlit("DAM");
        assert(s[0] == 'D');
        assert(s[1] == 'A');
        assert(s[2] == 'M');
    } else if s == "MDA"@ {
        reveal_strlit("MDA");
        assert(s[0] == 'M');
        assert(s[1] == 'D');
        assert(s[2] == 'A');
    } else if s == "MAD"@ {
        reveal_strlit("MAD");
        assert(s[0] == 'M');
        assert(s[1] == 'A');
        assert(s[2] == 'D');
    }
    assert(dest_bits(Some(s)) =~= by_register);
}

/// The order in which a destination field names its registers does not
/// matter: two fields that the table holds and that name the same registers
/// have the same bits.
pub proof fn dest_order_independent(s: Seq<char>, t: Seq<char>)
    requires
        is_dest(s),
        is_dest(t),
        forall|c: char| s.contains(c) == t.contains(c),
    ensures
        dest_bits(Some(s)) == dest_bits(Some(t)),
{
    dest_bits_by_register(s);
    dest_bits_by_register(t);
}

} // verus!

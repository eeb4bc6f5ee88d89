//! The line scanner: it walks the source text line by line, skips what is
//! blank or comment, classifies each remaining line and splits it into the
//! fields of its kind.
//!
//! All positions are character positions in the source text. The scanner is
//! specified by index functions on that text: [`index_of`] finds a line's
//! end, [`comment_at`] the start of its comment, [`ink_start`] and
//! [`ink_stop`] trim the white space, and [`scan`] skips to the next line
//! that still holds something.

use crate::text::{chars_of, text_of};
use vstd::prelude::*;

verus! {

/// The three kinds of instruction.
#[derive(Debug, PartialEq, Eq, Clone, Copy)]
pub enum InstructionType {
    /// `@value`: loads a number or the address of a symbol.
    AINSTRUCTION,
    /// `dest=comp;jump`: computes, stores and jumps.
    CINSTRUCTION,
    /// `(LABEL)`: names the address of the next instruction.
    LINSTRUCTION,
}

/// Whether `c` is white space: a character with Unicode's `White_Space`
/// property.
pub open spec fn is_space(c: char) -> bool {
    let u = c as u32;
    ||| 0x09 <= u <= 0x0D
    ||| u == 0x20
    ||| u == 0x85
    ||| u == 0xA0
    ||| u == 0x1680
    ||| 0x2000 <= u <= 0x200A
    ||| u == 0x2028
    ||| u == 0x2029
    ||| u == 0x202F
    ||| u == 0x205F
    ||| u == 0x3000
}

/// The first position at or after `from` where `s` holds `c`, or the length of
/// `s` if there is none.
pub open spec fn index_of(s: Seq<char>, c: char, from: int) -> int
    decreases s.len() - from,
{
    if from < 0 || from >= s.len() {
        s.len() as int
    } else if s[from] == c {
        from
    } else {
        index_of(s, c, from + 1)
    }
}

/// Where the line that starts at `from` ends: the position of its newline, or
/// the end of the text.
pub open spec fn line_stop(s: Seq<char>, from: int) -> int {
    index_of(s, '\n', from)
}

/// Where the line after the one at `from` starts: past the newline, or at the
/// end of the text.
pub open spec fn next_line(s: Seq<char>, from: int) -> int {
    if line_stop(s, from) < s.len() {
        line_stop(s, from) + 1
    } else {
        s.len() as int
    }
}

/// Where the comment starts in `s[from..to]`: the first position that holds
/// `/` with another `/` after it, both before `to`; or `to` if there is none.
pub open spec fn comment_at(s: Seq<char>, from: int, to: int) -> int
    decreases to - from,
{
    if from < 0 || to > s.len() || from + 1 >= to {
        to
    } else if s[from] == '/' && s[from + 1] == '/' {
        from
    } else {
        comment_at(s, from + 1, to)
    }
}

/// The first position in `s[from..to]` that holds no white space, or `to`.
pub open spec fn ink_start(s: Seq<char>, from: int, to: int) -> int
    decreases to - from,
{
    if from < 0 || to > s.len() || from >= to {
        to
    } else if !is_space(s[from]) {
        from
    } else {
        ink_start(s, from + 1, to)
    }
}

/// The position after the last character of `s[from..to]` that is no white
/// space, or `from`.
pub open spec fn ink_stop(s: Seq<char>, from: int, to: int) -> int
    decreases to - from,
{
    if from < 0 || to > s.len() || from >= to {
        from
    } else if !is_space(s[to - 1]) {
        to
    } else {
        ink_stop(s, from, to - 1)
    }
}

/// Where the instruction on the line at `from` starts: after the white space
/// that leads the line.
pub open spec fn instruction_start(s: Seq<char>, from: int) -> int {
    ink_start(s, from, comment_at(s, from, line_stop(s, from)))
}

/// Where the instruction on the line at `from` stops: before the comment and
/// the white space in front of it.
pub open spec fn instruction_stop(s: Seq<char>, from: int) -> int {
    ink_stop(s, instruction_start(s, from), comment_at(s, from, line_stop(s, from)))
}

/// What the line at `from` holds once its comment is cut off and the white
/// space round the rest is trimmed. A carriage return before the newline is
/// white space and goes with it.
pub open spec fn instruction_at(s: Seq<char>, from: int) -> Seq<char> {
    s.subrange(instruction_start(s, from), instruction_stop(s, from))
}

/// The next instruction at or after the line that starts at `from`, with the
/// position where the line after it starts; `None` where only blank and
/// comment lines are left, or nothing.
pub open spec fn scan(s: Seq<char>, from: int) -> Option<(Seq<char>, int)>
    decreases s.len() - from,
    via scan_decreases
{
    if from < 0 || from >= s.len() {
        None
    } else if instruction_at(s, from).len() > 0 {
        Some((instruction_at(s, from), next_line(s, from)))
    } else {
        scan(s, next_line(s, from))
    }
}

#[via_fn]
proof fn scan_decreases(s: Seq<char>, from: int) {
    if 0 <= from < s.len() {
        index_of_bounds(s, '\n', from);
    }
}

/// The instructions from the line at `from` to the end of the text, in order.
pub open spec fn instructions(s: Seq<char>, from: int) -> Seq<Seq<char>>
    decreases s.len() - from,
    via instructions_decreases
{
    if from < 0 || from >= s.len() {
        Seq::empty()
    } else if instruction_at(s, from).len() > 0 {
        seq![instruction_at(s, from)] + instructions(s, next_line(s, from))
    } else {
        instructions(s, next_line(s, from))
    }
}

#[via_fn]
proof fn instructions_decreases(s: Seq<char>, from: int) {
    if 0 <= from < s.len() {
        index_of_bounds(s, '\n', from);
    }
}

/// `index_of` stays between its start and the end of the text, and finds `c`
/// where it stops short of the end.
pub proof fn index_of_bounds(s: Seq<char>, c: char, from: int)
    requires
        0 <= from <= s.len(),
    ensures
        from <= index_of(s, c, from) <= s.len(),
        index_of(s, c, from) < s.len() ==> s[index_of(s, c, from)] == c,
        forall|i: int| from <= i < index_of(s, c, from) ==> s[i] != c,
    decreases s.len() - from,
{
    if from < s.len() && s[from] != c {
        index_of_bounds(s, c, from + 1);
    }
}

/// The instructions from a line on are the next instruction that the scanner
/// finds, then those from the line after it; none where it finds none.
pub proof fn instructions_unfold(s: Seq<char>, from: int)
    requires
        0 <= from <= s.len(),
    ensures
        match scan(s, from) {
            Some((instr, next)) => {
                &&& from < next <= s.len()
                &&& instr.len() > 0
                &&& instructions(s, from) == seq![instr] + instructions(s, next)
            },
            None => instructions(s, from) == Seq::<Seq<char>>::empty(),
        },
    decreases s.len() - from,
{
    if from < s.len() {
        index_of_bounds(s, '\n', from);
        if instruction_at(s, from).len() == 0 {
            instructions_unfold(s, next_line(s, from));
        }
    }
}

/// Where the cursor stands once `k` instructions have been read from the
/// line at `from`: at the end of the text where it holds fewer.
pub open spec fn position_after(s: Seq<char>, from: int, k: nat) -> int
    decreases k,
{
    if k == 0 {
        from
    } else {
        match scan(s, from) {
            Some((instr, next)) => position_after(s, next, (k - 1) as nat),
            None => s.len() as int,
        }
    }
}

/// Reading goes through the instructions in order: once `k` of them have
/// been read, the next that the scanner finds is instruction `k` of the text,
/// and those after it are left.
pub proof fn kth_instruction(s: Seq<char>, from: int, k: nat)
    requires
        0 <= from <= s.len(),
        k < instructions(s, from).len(),
    ensures
        0 <= position_after(s, from, k) <= s.len(),
        instructions(s, position_after(s, from, k)) == instructions(s, from).skip(k as int),
        match scan(s, position_after(s, from, k)) {
            Some((instr, next)) => {
                &&& instr == instructions(s, from)[k as int]
                &&& next == position_after(s, from, k + 1)
            },
            None => false,
        },
    decreases k,
{
    reveal_with_fuel(position_after, 2);
    instructions_unfold(s, from);
    if k == 0 {
        assert(instructions(s, from).skip(0) =~= instructions(s, from));
    } else {
        match scan(s, from) {
            Some((first, next)) => {
                let rest = instructions(s, next);
                kth_instruction(s, next, (k - 1) as nat);
                assert((seq![first] + rest).skip(k as int) =~= rest.skip(k - 1));
            },
            None => {},
        }
    }
}

/// `comment_at` stays within its range, stops at a comment marker where it
/// stops short of the end, and passes none on its way.
pub proof fn comment_at_bounds(s: Seq<char>, from: int, to: int)
    requires
        0 <= from <= to <= s.len(),
    ensures
        from <= comment_at(s, from, to) <= to,
        comment_at(s, from, to) < to ==> {
            &&& comment_at(s, from, to) + 1 < to
            &&& s[comment_at(s, from, to)] == '/'
            &&& s[comment_at(s, from, to) + 1] == '/'
        },
        forall|i: int|
            from <= i < comment_at(s, from, to) && i + 1 < to ==> !(s[i] == '/' && #[trigger] s[i
                + 1] == '/'),
    decreases to - from,
{
    if from + 1 < to && !(s[from] == '/' && s[from + 1] == '/') {
        comment_at_bounds(s, from + 1, to);
    }
}

/// `ink_start` stays within its range, stops at a character that is no white
/// space where it stops short of the end, and passes only white space.
pub proof fn ink_start_bounds(s: Seq<char>, from: int, to: int)
    requires
        0 <= from <= to <= s.len(),
    ensures
        from <= ink_start(s, from, to) <= to,
        ink_start(s, from, to) < to ==> !is_space(s[ink_start(s, from, to)]),
        forall|i: int| from <= i < ink_start(s, from, to) ==> is_space(#[trigger] s[i]),
    decreases to - from,
{
    if from < to && is_space(s[from]) {
        ink_start_bounds(s, from + 1, to);
    }
}

/// `ink_stop` stays within its range, stops after a character that is no
/// white space where it stops short of the start, and passes only white
/// space.
pub proof fn ink_stop_bounds(s: Seq<char>, from: int, to: int)
    requires
        0 <= from <= to <= s.len(),
    ensures
        from <= ink_stop(s, from, to) <= to,
        ink_stop(s, from, to) > from ==> !is_space(s[ink_stop(s, from, to) - 1]),
        forall|i: int| ink_stop(s, from, to) <= i < to ==> is_space(#[trigger] s[i]),
    decreases to - from,
{
    if from < to && is_space(s[to - 1]) {
        ink_stop_bounds(s, from, to - 1);
    }
}

/// What the scanner takes from a line is part of that line, holds no newline
/// and no comment marker, and neither starts nor ends with white space; what
/// it leaves out before it is white space, and what it leaves out after it
/// is white space or comment.
pub proof fn instruction_is_trimmed(s: Seq<char>, from: int)
    requires
        0 <= from <= s.len(),
    ensures
        from <= instruction_start(s, from) <= instruction_stop(s, from) <= line_stop(s, from)
            <= s.len(),
        forall|i: int|
            0 <= i < instruction_at(s, from).len() ==> (#[trigger] instruction_at(s, from)[i])
                != '\n',
        forall|i: int|
            0 <= i && i + 1 < instruction_at(s, from).len() ==> !(instruction_at(s, from)[i] == '/'
                && #[trigger] instruction_at(s, from)[i + 1] == '/'),
        instruction_at(s, from).len() > 0 ==> !is_space(instruction_at(s, from).first())
            && !is_space(instruction_at(s, from).last()),
        forall|i: int| from <= i < instruction_start(s, from) ==> is_space(#[trigger] s[i]),
        forall|i: int|
            instruction_stop(s, from) <= i < comment_at(s, from, line_stop(s, from)) ==> is_space(
                #[trigger] s[i],
            ),
{
    let stop = line_stop(s, from);
    index_of_bounds(s, '\n', from);
    let cut = comment_at(s, from, stop);
    comment_at_bounds(s, from, stop);
    let lo = ink_start(s, from, cut);
    ink_start_bounds(s, from, cut);
    let hi = ink_stop(s, lo, cut);
    ink_stop_bounds(s, lo, cut);
    let t = instruction_at(s, from);
    assert forall|i: int| 0 <= i && i + 1 < t.len() implies !(t[i] == '/' && #[trigger] t[i + 1]
        == '/') by {
        assert(t[i] == s[lo + i]);
        assert(t[i + 1] == s[lo + i + 1]);
    }
}

/// The kind of an instruction, by its first character: `@` makes an address
/// instruction, `(` a label, anything else a compute instruction.
pub open spec fn kind_of(instr: Seq<char>) -> InstructionType {
    if instr.len() > 0 && instr[0] == '@' {
        InstructionType::AINSTRUCTION
    } else if instr.len() > 0 && instr[0] == '(' {
        InstructionType::LINSTRUCTION
    } else {
        InstructionType::CINSTRUCTION
    }
}

/// Whether an instruction yields a word of output: every kind but a label.
pub open spec fn is_carrier(instr: Seq<char>) -> bool {
    kind_of(instr) != InstructionType::LINSTRUCTION
}

/// The text of the symbol in an address instruction or a label. In an
/// address instruction it is what follows the leading `@`. In a label it is
/// what stands between the leading `(` and the first `)` after it, or the end
/// of the instruction where no `)` closes it. A compute instruction has none.
pub open spec fn symbol_text(instr: Seq<char>) -> Seq<char> {
    match kind_of(instr) {
        InstructionType::AINSTRUCTION => instr.subrange(1, instr.len() as int),
        InstructionType::LINSTRUCTION => instr.subrange(1, index_of(instr, ')', 1)),
        InstructionType::CINSTRUCTION => Seq::empty(),
    }
}

/// The symbol of an address instruction or a label; a compute instruction
/// has none.
pub open spec fn symbol_of(instr: Seq<char>) -> Option<Seq<char>> {
    if kind_of(instr) == InstructionType::CINSTRUCTION {
        None
    } else {
        Some(symbol_text(instr))
    }
}

/// Where the computation field of a compute instruction starts: after the
/// first `=`, or at the start if there is none.
pub open spec fn comp_start(instr: Seq<char>) -> int {
    if index_of(instr, '=', 0) < instr.len() {
        index_of(instr, '=', 0) + 1
    } else {
        0
    }
}

/// Where the computation field stops: at the first `;` after its start, or at
/// the end.
pub open spec fn comp_stop(instr: Seq<char>) -> int {
    index_of(instr, ';', comp_start(instr))
}

/// The destination field: what stands before the first `=`. An instruction
/// without `=` has none, and so has one that is no compute instruction.
pub open spec fn dest_of(instr: Seq<char>) -> Option<Seq<char>> {
    if kind_of(instr) == InstructionType::CINSTRUCTION && index_of(instr, '=', 0) < instr.len() {
        Some(instr.subrange(0, index_of(instr, '=', 0)))
    } else {
        None
    }
}

/// The computation field: what stands after the first `=`, or from the start
/// if there is none, up to the first `;` from there. Only a compute
/// instruction has one.
pub open spec fn comp_of(instr: Seq<char>) -> Option<Seq<char>> {
    if kind_of(instr) == InstructionType::CINSTRUCTION {
        Some(instr.subrange(comp_start(instr), comp_stop(instr)))
    } else {
        None
    }
}

/// The jump field: what stands after the `;` that ends the computation field,
/// up to the next `;` or the end. An instruction without that `;` has none,
/// and so has one that is no compute instruction.
pub open spec fn jump_of(instr: Seq<char>) -> Option<Seq<char>> {
    if kind_of(instr) == InstructionType::CINSTRUCTION && comp_stop(instr) < instr.len() {
        Some(instr.subrange(comp_stop(instr) + 1, index_of(instr, ';', comp_stop(instr) + 1)))
    } else {
        None
    }
}

/// Tells white space from the rest.
pub fn is_whitespace(c: char) -> (space: bool)
    ensures
        space == is_space(c),
{
    let u: u32 = c as u32;
    (0x09 <= u && u <= 0x0D) || u == 0x20 || u == 0x85 || u == 0xA0 || u == 0x1680 || (0x2000 <= u
        && u <= 0x200A) || u == 0x2028 || u == 0x2029 || u == 0x202F || u == 0x205F || u == 0x3000
}

/// Finds the first `c` in `v` at or after `from`.
pub fn find_char(v: &Vec<char>, c: char, from: usize) -> (at: usize)
    requires
        from <= v.len(),
    ensures
        at == index_of(v@, c, from as int),
        from <= at <= v.len(),
{
    let mut i: usize = from;
    while i < v.len() && v[i] != c
        invariant
            from <= i <= v.len(),
            index_of(v@, c, i as int) == index_of(v@, c, from as int),
        decreases v.len() - i,
    {
        i += 1;
    }
    i
}

/// Finds where the comment starts in `v[from..to]`.
fn find_comment(v: &Vec<char>, from: usize, to: usize) -> (at: usize)
    requires
        from <= to <= v.len(),
    ensures
        at == comment_at(v@, from as int, to as int),
        from <= at <= to,
{
    let mut i: usize = from;
    while to - i > 1
        invariant
            from <= i <= to <= v.len(),
            comment_at(v@, i as int, to as int) == comment_at(v@, from as int, to as int),
        decreases to - i,
    {
        if v[i] == '/' && v[i + 1] == '/' {
            return i;
        }
        i += 1;
    }
    to
}

/// Finds the first character of `v[from..to]` that is no white space.
fn skip_space(v: &Vec<char>, from: usize, to: usize) -> (at: usize)
    requires
        from <= to <= v.len(),
    ensures
        at == ink_start(v@, from as int, to as int),
        from <= at <= to,
{
    let mut i: usize = from;
    while i < to && is_whitespace(v[i])
        invariant
            from <= i <= to <= v.len(),
            ink_start(v@, i as int, to as int) == ink_start(v@, from as int, to as int),
        decreases to - i,
    {
        i += 1;
    }
    i
}

/// Finds the end of `v[from..to]` without the white space that trails it.
fn drop_space(v: &Vec<char>, from: usize, to: usize) -> (at: usize)
    requires
        from <= to <= v.len(),
    ensures
        at == ink_stop(v@, from as int, to as int),
        from <= at <= to,
{
    let mut i: usize = to;
    while from < i && is_whitespace(v[i - 1])
        invariant
            from <= i <= to <= v.len(),
            ink_stop(v@, from as int, i as int) == ink_stop(v@, from as int, to as int),
        decreases i - from,
    {
        i -= 1;
    }
    i
}

/// The kind of the instruction whose characters are `v`.
fn classify(v: &Vec<char>) -> (kind: InstructionType)
    ensures
        kind == kind_of(v@),
{
    if v.len() > 0 && v[0] == '@' {
        InstructionType::AINSTRUCTION
    } else if v.len() > 0 && v[0] == '(' {
        InstructionType::LINSTRUCTION
    } else {
        InstructionType::CINSTRUCTION
    }
}

/// Where the scanner found an instruction: its characters are
/// `start..stop`, and the line after it starts at `next`. Where it found
/// none, `start` equals `stop`.
pub struct Span {
    pub start: usize,
    pub stop: usize,
    pub next: usize,
}

/// Finds the next instruction at or after the line that starts at `from`.
pub fn seek(source: &Vec<char>, from: usize) -> (span: Span)
    requires
        from <= source.len(),
    ensures
        span.start <= span.stop <= source.len(),
        span.next <= source.len(),
        match scan(source@, from as int) {
            Some((instr, next)) => {
                &&& span.start < span.stop
                &&& instr == source@.subrange(span.start as int, span.stop as int)
                &&& span.next == next
            },
            None => span.start == span.stop && span.next == source.len(),
        },
{
    let mut at: usize = from;
    while at < source.len()
        invariant
            from <= at <= source.len(),
            scan(source@, at as int) == scan(source@, from as int),
        decreases source.len() - at,
    {
        let stop = find_char(source, '\n', at);
        let next = if stop < source.len() {
            stop + 1
        } else {
            stop
        };
        let cut = find_comment(source, at, stop);
        let lo = skip_space(source, at, cut);
        let hi = drop_space(source, lo, cut);
        proof {
            let line = instruction_at(source@, at as int);
            assert(line == source@.subrange(lo as int, hi as int));
            if lo < hi {
                assert(scan(source@, at as int) == Some((line, next as int)));
            } else {
                assert(scan(source@, at as int) == scan(source@, next as int));
            }
        }
        if lo < hi {
            return Span { start: lo, stop: hi, next };
        }
        at = next;
    }
    Span { start: at, stop: at, next: at }
}

/// A cursor over a source text that yields its instructions one by one.
#[derive(Clone)]
pub struct Parser {
    /// How many address and compute instructions have been read so far.
    pub current_line: u16,
    /// The characters of the source text.
    pub source: Vec<char>,
    /// The position in `source` where the next unread line starts.
    pub cursor: usize,
    /// The instruction the cursor last stopped at, trimmed and without its
    /// comment.
    pub current_instruction: Option<String>,
}

impl Parser {
    /// The source text.
    pub open spec fn text(&self) -> Seq<char> {
        self.source@
    }

    /// Where the next unread line starts.
    pub open spec fn position(&self) -> int {
        self.cursor as int
    }

    /// The cursor lies within the text.
    pub open spec fn wf(&self) -> bool {
        0 <= self.position() <= self.text().len()
    }

    /// The current instruction's characters, if there is one.
    pub open spec fn current(&self) -> Option<Seq<char>> {
        match self.current_instruction {
            Some(s) => Some(s@),
            None => None,
        }
    }

    /// A parser at the start of `input`, with no instruction read yet.
    pub fn new(input: &str) -> (parser: Parser)
        ensures
            parser.wf(),
            parser.text() == input@,
            parser.position() == 0,
            parser.current_line == 0,
            parser.current_instruction is None,
    {
        Parser { current_line: 0, source: chars_of(input), cursor: 0, current_instruction: None }
    }

    /// Whether any line of the source is still unread, blank or not.
    pub fn has_more_lines(&self) -> (more: bool)
        ensures
            more == (self.position() < self.text().len()),
    {
        self.cursor < self.source.len()
    }

    /// Whether at most `limit` instructions are still unread.
    pub fn at_most_left(&self, limit: usize) -> (few: bool)
        requires
            self.wf(),
        ensures
            few == (instructions(self.text(), self.position()).len() <= limit),
    {
        let mut count: usize = 0;
        let mut at: usize = self.cursor;
        while at < self.source.len()
            invariant
                self.wf(),
                self.cursor <= at <= self.source.len(),
                count <= limit,
                count + instructions(self.text(), at as int).len() == instructions(
                    self.text(),
                    self.position(),
                ).len(),
            decreases self.source.len() - at,
        {
            proof {
                instructions_unfold(self.text(), at as int);
            }
            let span = seek(&self.source, at);
            if span.start < span.stop {
                if count == limit {
                    return false;
                }
                count += 1;
            }
            at = span.next;
        }
        true
    }

    /// Moves to the next instruction: reads lines until one holds something
    /// besides white space and comment, makes that the current instruction,
    /// and counts it unless it is a label. Where lines are left but none of
    /// them holds an instruction, the whole text is read and there is no
    /// current instruction. Where no line is left at all, nothing changes.
    /// The count must have room for the instruction: it is a sixteen-bit
    /// number.
    pub fn advance(&mut self)
        requires
            old(self).wf(),
            match scan(old(self).text(), old(self).position()) {
                Some((instr, next)) => is_carrier(instr) ==> old(self).current_line < u16::MAX,
                None => true,
            },
        ensures
            final(self).wf(),
            final(self).text() == old(self).text(),
            old(self).position() >= old(self).text().len() ==> *final(self) == *old(self),
            old(self).position() < old(self).text().len() ==> match scan(
                old(self).text(),
                old(self).position(),
            ) {
                Some((instr, next)) => {
                    &&& final(self).current() == Some(instr)
                    &&& final(self).position() == next
                    &&& final(self).current_line == old(self).current_line + if is_carrier(instr) {
                        1int
                    } else {
                        0int
                    }
                },
                None => {
                    &&& final(self).current_instruction is None
                    &&& final(self).position() == old(self).text().len()
                    &&& final(self).current_line == old(self).current_line
                },
            },
    {
        if !self.has_more_lines() {
            return ;
        }
        let span = seek(&self.source, self.cursor);
        self.cursor = span.next;
        if span.start < span.stop {
            if self.source[span.start] != '(' {
                self.current_line += 1;
            }
            self.current_instruction = Some(text_of(&self.source, span.start, span.stop));
        } else {
            self.current_instruction = None;
        }
    }

    /// The kind of the current instruction.
    pub fn instruction_type(&self) -> (kind: InstructionType)
        requires
            self.current_instruction is Some,
        ensures
            kind == kind_of(self.current()->0),
    {
        match &self.current_instruction {
            Some(s) => classify(&chars_of(s.as_str())),
            None => InstructionType::CINSTRUCTION,
        }
    }

    /// The symbol of the current address instruction or label.
    pub fn symbol(&self) -> (symbol: Option<String>)
        requires
            self.current_instruction is Some,
        ensures
            crate::text::opt_view(symbol) == symbol_of(self.current()->0),
    {
        match &self.current_instruction {
            Some(s) => {
                let v = chars_of(s.as_str());
                match classify(&v) {
                    InstructionType::CINSTRUCTION => None,
                    InstructionType::AINSTRUCTION => Some(text_of(&v, 1, v.len())),
                    InstructionType::LINSTRUCTION => {
                        let stop = find_char(&v, ')', 1);
                        Some(text_of(&v, 1, stop))
                    },
                }
            },
            None => None,
        }
    }

    /// The destination field of the current compute instruction.
    pub fn dest(&self) -> (field: Option<String>)
        requires
            self.current_instruction is Some,
        ensures
            crate::text::opt_view(field) == dest_of(self.current()->0),
    {
        match &self.current_instruction {
            Some(s) => {
                let v = chars_of(s.as_str());
                match classify(&v) {
                    InstructionType::CINSTRUCTION => {
                        let eq = find_char(&v, '=', 0);
                        if eq < v.len() {
                            Some(text_of(&v, 0, eq))
                        } else {
                            None
                        }
                    },
                    _ => None,
                }
            },
            None => None,
        }
    }

    /// The computation field of the current compute instruction.
    pub fn comp(&self) -> (field: Option<String>)
        requires
            self.current_instruction is Some,
        ensures
            crate::text::opt_view(field) == comp_of(self.current()->0),
    {
        match &self.current_instruction {
            Some(s) => {
                let v = chars_of(s.as_str());
                match classify(&v) {
                    InstructionType::CINSTRUCTION => {
                        let eq = find_char(&v, '=', 0);
                        let start = if eq < v.len() {
                            eq + 1
                        } else {
                            0
                        };
                        let stop = find_char(&v, ';', start);
                        Some(text_of(&v, start, stop))
                    },
                    _ => None,
                }
            },
            None => None,
        }
    }

    /// The jump field of the current compute instruction.
    pub fn jump(&self) -> (field: Option<String>)
        requires
            self.current_instruction is Some,
        ensures
            crate::text::opt_view(field) == jump_of(self.current()->0),
    {
        match &self.current_instruction {
            Some(s) => {
                let v = chars_of(s.as_str());
                match classify(&v) {
                    InstructionType::CINSTRUCTION => {
                        let eq = find_char(&v, '=', 0);
                        let start = if eq < v.len() {
                            eq + 1
                        } else {
                            0
                        };
                        let stop = find_char(&v, ';', start);
                        if stop < v.len() {
                            let end = find_char(&v, ';', stop + 1);
                            Some(text_of(&v, stop + 1, end))
                        } else {
                            None
                        }
                    },
                    _ => None,
                }
            },
            None => None,
        }
    }
}

} // verus!

//! The command parser: `[range] operator operand`, whitespace-transparent,
//! with longest-match operator tokens.
use crate::number::{literal_fits, BitsIndex, BitsIndexRange, Number, NumberType};
use crate::operators::Operator;
use crate::text::{chars_of, is_white_space, string_of, utf8_len, white_space};
use vstd::prelude::*;
use vstd::string::StringExecFns;

verus! {

/// Named parts of a register, reserved for non-integer kinds.
#[derive(Debug, Clone, Copy, PartialEq, Eq, Structural)]
pub enum NamedAccess {
    Exponent,
    Fraction,
    Carry,
    Unnamed,
}

/// Where the left operand of a command is read from and written to.
#[derive(Debug, Clone, Copy)]
pub enum LeftOperandSource {
    RangeSource(BitsIndexRange),
    NamedAccessSource(NamedAccess),
}

/// Where the right operand of a command comes from.
#[derive(Debug, Clone, Copy)]
pub enum RightOperandSource {
    RangeSource(BitsIndexRange),
    NamedAccessSource(NamedAccess),
    DirectSource(Number),
    Empty,
}

impl RightOperandSource {
    /// An immediate operand is a well-formed register.
    pub open spec fn wf(&self) -> bool {
        match self {
            RightOperandSource::DirectSource(n) => n.wf(),
            _ => true,
        }
    }
}

/// The first position from `i` on that is the end or holds no whitespace.
pub open spec fn skip_ws(s: Seq<char>, i: int) -> int
    decreases s.len() - i,
{
    if i < 0 || i >= s.len() || !white_space(s[i]) {
        i
    } else {
        skip_ws(s, i + 1)
    }
}

/// Where moving on from `i` over `n` characters lands; with `skip`, the
/// whitespace passed over is not counted.
pub open spec fn advance(s: Seq<char>, i: int, n: nat, skip: bool) -> int
    decreases s.len() - i,
{
    if i < 0 || i >= s.len() || n == 0 {
        i
    } else if i + 1 < s.len() && !(skip && white_space(s[i + 1])) {
        advance(s, i + 1, (n - 1) as nat, skip)
    } else {
        advance(s, i + 1, n, skip)
    }
}

/// Whether `w` occurs in `s` at `i`.
pub open spec fn occurs_at(s: Seq<char>, i: int, w: Seq<char>) -> bool {
    0 <= i && i + w.len() <= s.len() && s.subrange(i, i + w.len()) == w
}

/// A decimal digit.
pub open spec fn is_decimal(c: char) -> bool {
    '0' <= c <= '9'
}

/// `x` capped at `usize::MAX`.
pub open spec fn saturate(x: int) -> int {
    if x > usize::MAX {
        usize::MAX as int
    } else {
        x
    }
}

/// The value of the run of decimal digits from `i`, whitespace between them
/// ignored, appended to `acc`; capped at `usize::MAX`.
pub open spec fn index_value(s: Seq<char>, i: int, acc: int) -> int
    decreases s.len() - i via index_value_decreases
{
    if 0 <= i < s.len() && is_decimal(s[i]) {
        index_value(s, skip_ws(s, i + 1), saturate(acc * 10 + (s[i] as int - '0' as int)))
    } else {
        acc
    }
}

/// Where the run of decimal digits from `i` ends.
pub open spec fn index_end(s: Seq<char>, i: int) -> int
    decreases s.len() - i via index_end_decreases
{
    if 0 <= i < s.len() && is_decimal(s[i]) {
        index_end(s, skip_ws(s, i + 1))
    } else {
        i
    }
}

#[via_fn]
proof fn index_value_decreases(s: Seq<char>, i: int, acc: int) {
    if 0 <= i < s.len() && is_decimal(s[i]) {
        lemma_skip_ws_bounds(s, i + 1);
    }
}

#[via_fn]
proof fn index_end_decreases(s: Seq<char>, i: int) {
    if 0 <= i < s.len() && is_decimal(s[i]) {
        lemma_skip_ws_bounds(s, i + 1);
    }
}

proof fn lemma_skip_ws_bounds(s: Seq<char>, i: int)
    requires
        0 <= i <= s.len(),
    ensures
        i <= skip_ws(s, i) <= s.len(),
        skip_ws(s, i) < s.len() ==> !white_space(s[skip_ws(s, i)]),
    decreases s.len() - i,
{
    if i < s.len() && white_space(s[i]) {
        lemma_skip_ws_bounds(s, i + 1);
    }
}

proof fn lemma_advance_bounds(s: Seq<char>, i: int, n: nat, skip: bool)
    requires
        0 <= i <= s.len(),
    ensures
        i <= advance(s, i, n, skip) <= s.len(),
    decreases s.len() - i,
{
    if i < s.len() && n > 0 {
        if i + 1 < s.len() && !(skip && white_space(s[i + 1])) {
            lemma_advance_bounds(s, i + 1, (n - 1) as nat, skip);
        } else {
            lemma_advance_bounds(s, i + 1, n, skip);
        }
    }
}

/// A cursor over the characters of a command.
pub struct ParsingIterator {
    source: Vec<char>,
    offset: usize,
}

impl ParsingIterator {
    /// The characters of the command.
    pub closed spec fn src(&self) -> Seq<char> {
        self.source@
    }

    /// The cursor's position.
    pub closed spec fn pos(&self) -> int {
        self.offset as int
    }

    /// The cursor lies within the command, or just past its end.
    pub open spec fn wf(&self) -> bool {
        0 <= self.pos() <= self.src().len()
    }

    /// The character under the cursor.
    pub open spec fn at_cursor(&self) -> Option<char> {
        if self.pos() < self.src().len() {
            Some(self.src()[self.pos()])
        } else {
            Option::<char>::None
        }
    }

    /// A cursor on the first character of `source_string` that is not
    /// whitespace.
    pub fn from(source_string: &str) -> (r: Result<Self, String>)
        ensures
            r matches Ok(it) && it.wf() && it.src() == source_string@ && it.pos() == skip_ws(
                source_string@,
                0,
            ),
    {
        let source = chars_of(source_string);
        let mut offset: usize = 0;
        proof {
            lemma_skip_ws_bounds(source@, 0);
        }
        while offset < source.len() && is_white_space(source[offset])
            invariant
                offset <= source.len(),
                skip_ws(source@, offset as int) == skip_ws(source@, 0),
            decreases source.len() - offset,
        {
            offset = offset + 1;
        }
        Ok(Self { source, offset })
    }

    /// The cursor's position.
    pub fn offset(&self) -> (r: usize)
        ensures
            r as int == self.pos(),
    {
        self.offset
    }

    /// The character under the cursor, if any.
    pub fn current(&self) -> (r: Option<char>)
        requires
            self.wf(),
        ensures
            r == self.at_cursor(),
    {
        if self.offset < self.source.len() {
            Some(self.source[self.offset])
        } else {
            None
        }
    }

    /// Whether `sequence` occurs at the cursor.
    pub fn match_from_current(&self, sequence: &str) -> (r: bool)
        requires
            self.wf(),
        ensures
            r == occurs_at(self.src(), self.pos(), sequence@),
    {
        let wanted = chars_of(sequence);
        if wanted.len() > self.source.len() - self.offset {
            return false;
        }
        let mut i: usize = 0;
        while i < wanted.len()
            invariant
                self.offset + wanted.len() <= self.source.len(),
                i <= wanted.len(),
                wanted@ == sequence@,
                forall|j: int| 0 <= j < i ==> self.source@[self.offset + j] == wanted@[j],
            decreases wanted.len() - i,
        {
            if self.source[self.offset + i] != wanted[i] {
                assert(self.source@.subrange(self.offset as int, self.offset + wanted.len())[i as int]
                    != wanted@[i as int]);
                return false;
            }
            i = i + 1;
        }
        proof {
            assert(self.source@.subrange(self.offset as int, self.offset + wanted.len()) =~= wanted@);
        }
        true
    }

    /// Moves past the current character and any whitespace after it, and
    /// returns the character then under the cursor.
    pub fn next(&mut self) -> (r: Option<char>)
        requires
            old(self).wf(),
        ensures
            final(self).wf(),
            final(self).src() == old(self).src(),
            final(self).pos() == skip_ws(
                old(self).src(),
                if old(self).pos() < old(self).src().len() {
                    old(self).pos() + 1
                } else {
                    old(self).pos()
                },
            ),
            r == final(self).at_cursor(),
    {
        if self.offset < self.source.len() {
            self.offset = self.offset + 1;
        }
        let ghost start = self.offset as int;
        proof {
            lemma_skip_ws_bounds(self.source@, start);
        }
        while self.offset < self.source.len() && is_white_space(self.source[self.offset])
            invariant
                self.source@ == old(self).source@,
                self.offset <= self.source.len(),
                skip_ws(self.source@, self.offset as int) == skip_ws(self.source@, start),
            decreases self.source.len() - self.offset,
        {
            self.offset = self.offset + 1;
        }
        self.current()
    }

    /// Moves on over `n` characters; with `skip_whitespaces`, whitespace
    /// passed over is not counted.
    pub fn rewind(self, n: usize, skip_whitespaces: bool) -> (r: Self)
        requires
            self.wf(),
        ensures
            r.wf(),
            r.src() == self.src(),
            r.pos() == advance(self.src(), self.pos(), n as nat, skip_whitespaces),
    {
        let mut it = self;
        let mut skip_counter: usize = 0;
        proof {
            lemma_advance_bounds(it.source@, it.offset as int, n as nat, skip_whitespaces);
        }
        while it.offset < it.source.len() && skip_counter < n
            invariant
                it.source@ == self.source@,
                self.offset <= it.offset <= it.source.len(),
                skip_counter <= n,
                advance(it.source@, it.offset as int, (n - skip_counter) as nat, skip_whitespaces)
                    == advance(self.source@, self.offset as int, n as nat, skip_whitespaces),
            decreases it.source.len() - it.offset,
        {
            it.offset = it.offset + 1;
            if it.offset < it.source.len() && !(skip_whitespaces && is_white_space(
                it.source[it.offset],
            )) {
                skip_counter = skip_counter + 1;
            }
        }
        it
    }

    /// Moves on over `n` characters that are not whitespace.
    pub fn rewind_n(self, n: usize) -> (r: Self)
        requires
            self.wf(),
        ensures
            r.wf(),
            r.src() == self.src(),
            r.pos() == advance(self.src(), self.pos(), n as nat, true),
    {
        self.rewind(n, true)
    }

    /// Moves on over `n` characters, whitespace included.
    pub fn rewind_n_include_whitespaces(self, n: usize) -> (r: Self)
        requires
            self.wf(),
        ensures
            r.wf(),
            r.src() == self.src(),
            r.pos() == advance(self.src(), self.pos(), n as nat, false),
    {
        self.rewind(n, false)
    }

    /// The characters from the cursor on.
    pub fn rest(&self) -> (r: Vec<char>)
        requires
            self.wf(),
        ensures
            r@ == self.src().subrange(self.pos(), self.src().len() as int),
    {
        let mut r: Vec<char> = Vec::new();
        let mut i = self.offset;
        while i < self.source.len()
            invariant
                self.offset <= i <= self.source.len(),
                r@ == self.source@.subrange(self.offset as int, i as int),
            decreases self.source.len() - i,
        {
            r.push(self.source[i]);
            i = i + 1;
        }
        r
    }
}

/// Reads a decimal index at the cursor, whitespace between its digits
/// ignored; `None`, with the cursor unmoved, when no digit is there.
pub fn syntax_index(it: ParsingIterator) -> (r: (ParsingIterator, Option<usize>))
    requires
        it.wf(),
    ensures
        r.0.wf(),
        r.0.src() == it.src(),
        r.0.pos() == index_end(it.src(), it.pos()),
        (r.1 is Some) <==> (it.pos() < it.src().len() && is_decimal(it.src()[it.pos()])),
        r.1 matches Some(v) ==> v as int == index_value(it.src(), it.pos(), 0),
{
    let mut it = it;
    let mut acc: usize = 0;
    match it.current() {
        Some(c) => {
            if !('0' <= c && c <= '9') {
                return (it, None);
            }
        },
        None => {
            return (it, None);
        },
    }
    let ghost s = it.src();
    let ghost start = it.pos();
    loop
        invariant
            it.wf(),
            it.src() == s,
            index_value(s, start, 0) == index_value(s, it.pos(), acc as int),
            index_end(s, start) == index_end(s, it.pos()),
        ensures
            it.wf(),
            it.src() == s,
            index_value(s, start, 0) == acc as int,
            index_end(s, start) == it.pos(),
        decreases s.len() - it.pos(),
    {
        match it.current() {
            Some(c) => {
                if '0' <= c && c <= '9' {
                    let d = (c as u32 - '0' as u32) as usize;
                    acc = match acc.checked_mul(10) {
                        Some(m) => match m.checked_add(d) {
                            Some(v) => v,
                            None => usize::MAX,
                        },
                        None => usize::MAX,
                    };
                    proof {
                        lemma_skip_ws_bounds(s, it.pos() + 1);
                    }
                    it.next();
                } else {
                    break;
                }
            },
            None => {
                break;
            },
        }
    }
    (it, Some(acc))
}

/// The end of a range an optional index stands for: the index, or the end
/// the index defaults to.
pub open spec fn index_or(s: Seq<char>, i: int, default: BitsIndex) -> BitsIndex {
    if 0 <= i < s.len() && is_decimal(s[i]) {
        BitsIndex::IndexedBit(index_value(s, i, 0) as usize)
    } else {
        default
    }
}

/// The range written at `i` (after `[`), and where it ends: `i`, `i:`,
/// `:j`, `i:j`, or nothing for the whole register; a lone index is a range of
/// one bit.
pub open spec fn range_at(s: Seq<char>, i: int) -> (BitsIndexRange, int) {
    let high = index_or(s, i, BitsIndex::HighestBit);
    let after = index_end(s, i);
    if 0 <= after < s.len() && s[after] == ':' {
        let j = advance(s, after, 1, true);
        (BitsIndexRange(high, index_or(s, j, BitsIndex::LowestBit)), index_end(s, j))
    } else if high is IndexedBit {
        (BitsIndexRange(high, high), after)
    } else {
        (BitsIndexRange(high, BitsIndex::LowestBit), after)
    }
}

fn syntax_range(it: ParsingIterator) -> (r: (ParsingIterator, BitsIndexRange))
    requires
        it.wf(),
    ensures
        r.0.wf(),
        r.0.src() == it.src(),
        (r.1, r.0.pos()) == range_at(it.src(), it.pos()),
{
    let ghost s = it.src();
    let ghost i = it.pos();
    let (it_after_index, range_left_index) = match syntax_index(it) {
        (it, Some(i)) => (it, BitsIndex::IndexedBit(i)),
        (it, None) => (it, BitsIndex::HighestBit),
    };
    if let Some(c) = it_after_index.current() {
        if c == ':' {
            let (it2, right) = match syntax_index(it_after_index.rewind_n(1)) {
                (it, Some(i)) => (it, BitsIndex::IndexedBit(i)),
                (it, None) => (it, BitsIndex::LowestBit),
            };
            return (it2, BitsIndexRange(range_left_index, right));
        }
    }
    match range_left_index {
        BitsIndex::IndexedBit(_) => (it_after_index, BitsIndexRange(range_left_index, range_left_index)),
        _ => (it_after_index, BitsIndexRange(range_left_index, BitsIndex::LowestBit)),
    }
}

/// What an accessor at `i` reads as: `Ok(None)` with the cursor unmoved when
/// no `[` is there, the range and the position after `]`, or an error when
/// the `]` is missing.
pub open spec fn accessor_at(s: Seq<char>, i: int) -> Result<(Option<BitsIndexRange>, int), ()> {
    if 0 <= i < s.len() && s[i] == '[' {
        let (range, after) = range_at(s, advance(s, i, 1, true));
        if 0 <= after < s.len() && s[after] == ']' {
            Ok((Some(range), advance(s, after, 1, true)))
        } else {
            Err(())
        }
    } else {
        Ok((Option::<BitsIndexRange>::None, i))
    }
}

pub fn syntax_accessor(it: ParsingIterator) -> (r: Result<(ParsingIterator, Option<BitsIndexRange>), String>)
    requires
        it.wf(),
    ensures
        accessor_at(it.src(), it.pos()) is Err <==> r is Err,
        r matches Ok((it2, range)) ==> it2.wf() && it2.src() == it.src() && accessor_at(
            it.src(),
            it.pos(),
        ) == Ok::<(Option<BitsIndexRange>, int), ()>((range, it2.pos())),
{
    match it.current() {
        Some(c) => {
            if c == '[' {
                let (current_it, range) = syntax_range(it.rewind_n(1));
                if let Some(c) = current_it.current() {
                    if c == ']' {
                        Ok((current_it.rewind_n(1), Some(range)))
                    } else {
                        Err("Accessor [] is not closed with ']'".to_owned())
                    }
                } else {
                    Err("Command is not complete".to_owned())
                }
            } else {
                Ok((it, None))
            }
        },
        None => Ok((it, None)),
    }
}

/// The operator token at `i` and its length, trying longer tokens before
/// their prefixes. An arithmetic or bitwise operator may be written with a
/// trailing `=` (`+=` adds, as `+` does).
pub open spec fn operator_at(s: Seq<char>, i: int) -> Option<(Operator, nat)> {
    if occurs_at(s, i, "unsigned"@) {
        Some((Operator::Unsigned, 8))
    } else if occurs_at(s, i, "signed"@) {
        Some((Operator::Signed, 6))
    } else if occurs_at(s, i, "help"@) {
        Some((Operator::ShowHelp, 4))
    } else if occurs_at(s, i, "undo"@) {
        Some((Operator::Undo, 4))
    } else if occurs_at(s, i, "redo"@) {
        Some((Operator::Redo, 4))
    } else if occurs_at(s, i, "root"@) {
        Some((Operator::Root, 4))
    } else if occurs_at(s, i, "rnd"@) {
        Some((Operator::Random, 3))
    } else if occurs_at(s, i, "shf"@) {
        Some((Operator::Shuffle, 3))
    } else if occurs_at(s, i, "rev"@) {
        Some((Operator::Reverse, 3))
    } else if occurs_at(s, i, "cnt"@) {
        Some((Operator::Count, 3))
    } else if occurs_at(s, i, "int"@) {
        Some((Operator::IntBitsWidth, 3))
    } else if occurs_at(s, i, "pow"@) {
        Some((Operator::Pow, 3))
    } else if occurs_at(s, i, "~>>"@) {
        Some((Operator::UnsignedCyclicShiftRight, 3))
    } else if occurs_at(s, i, "<<~"@) {
        Some((Operator::UnsignedCyclicShiftLeft, 3))
    } else if occurs_at(s, i, ">>>"@) {
        Some((Operator::UnsignedShiftRight, 3))
    } else if occurs_at(s, i, "<>"@) {
        Some((Operator::Swap, 2))
    } else if occurs_at(s, i, ">>"@) {
        Some((Operator::SignedShiftRight, 2))
    } else if occurs_at(s, i, "<<"@) {
        Some((Operator::SignedShiftLeft, 2))
    } else if occurs_at(s, i, "=="@) {
        Some((Operator::Equals, 2))
    } else if occurs_at(s, i, "+="@) {
        Some((Operator::Sum, 2))
    } else if occurs_at(s, i, "-="@) {
        Some((Operator::Sub, 2))
    } else if occurs_at(s, i, "*="@) {
        Some((Operator::Mul, 2))
    } else if occurs_at(s, i, "/="@) {
        Some((Operator::Div, 2))
    } else if occurs_at(s, i, "%="@) {
        Some((Operator::Mod, 2))
    } else if occurs_at(s, i, "^="@) {
        Some((Operator::Xor, 2))
    } else if occurs_at(s, i, "&="@) {
        Some((Operator::And, 2))
    } else if occurs_at(s, i, "|="@) {
        Some((Operator::Or, 2))
    } else if occurs_at(s, i, "?"@) {
        Some((Operator::ShowHelp, 1))
    } else if occurs_at(s, i, "="@) {
        Some((Operator::Assign, 1))
    } else if occurs_at(s, i, "+"@) {
        Some((Operator::Sum, 1))
    } else if occurs_at(s, i, "-"@) {
        Some((Operator::Sub, 1))
    } else if occurs_at(s, i, "*"@) {
        Some((Operator::Mul, 1))
    } else if occurs_at(s, i, "/"@) {
        Some((Operator::Div, 1))
    } else if occurs_at(s, i, "%"@) {
        Some((Operator::Mod, 1))
    } else if occurs_at(s, i, ">"@) {
        Some((Operator::Greater, 1))
    } else if occurs_at(s, i, "<"@) {
        Some((Operator::Less, 1))
    } else if occurs_at(s, i, "^"@) {
        Some((Operator::Xor, 1))
    } else if occurs_at(s, i, "&"@) {
        Some((Operator::And, 1))
    } else if occurs_at(s, i, "|"@) {
        Some((Operator::Or, 1))
    } else if occurs_at(s, i, "~"@) {
        Some((Operator::Not, 1))
    } else if occurs_at(s, i, "!"@) {
        Some((Operator::Negate, 1))
    } else {
        Option::<(Operator, nat)>::None
    }
}

/// Reads the operator token at the cursor; `None`, with the cursor unmoved,
/// when there is none.
fn syntax_operator(it: ParsingIterator) -> (r: (ParsingIterator, Option<Operator>))
    requires
        it.wf(),
    ensures
        r.0.wf(),
        r.0.src() == it.src(),
        match operator_at(it.src(), it.pos()) {
            Some((op, n)) => r.1 == Some(op) && r.0.pos() == advance(it.src(), it.pos(), n, true),
            None => r.1 is None && r.0.pos() == it.pos(),
        },
{
    if it.match_from_current("unsigned") {
        return (it.rewind_n(8), Some(Operator::Unsigned));
    }
    if it.match_from_current("signed") {
        return (it.rewind_n(6), Some(Operator::Signed));
    }
    if it.match_from_current("help") {
        return (it.rewind_n(4), Some(Operator::ShowHelp));
    }
    if it.match_from_current("undo") {
        return (it.rewind_n(4), Some(Operator::Undo));
    }
    if it.match_from_current("redo") {
        return (it.rewind_n(4), Some(Operator::Redo));
    }
    if it.match_from_current("root") {
        return (it.rewind_n(4), Some(Operator::Root));
    }
    if it.match_from_current("rnd") {
        return (it.rewind_n(3), Some(Operator::Random));
    }
    if it.match_from_current("shf") {
        return (it.rewind_n(3), Some(Operator::Shuffle));
    }
    if it.match_from_current("rev") {
        return (it.rewind_n(3), Some(Operator::Reverse));
    }
    if it.match_from_current("cnt") {
        return (it.rewind_n(3), Some(Operator::Count));
    }
    if it.match_from_current("int") {
        return (it.rewind_n(3), Some(Operator::IntBitsWidth));
    }
    if it.match_from_current("pow") {
        return (it.rewind_n(3), Some(Operator::Pow));
    }
    if it.match_from_current("~>>") {
        return (it.rewind_n(3), Some(Operator::UnsignedCyclicShiftRight));
    }
    if it.match_from_current("<<~") {
        return (it.rewind_n(3), Some(Operator::UnsignedCyclicShiftLeft));
    }
    if it.match_from_current(">>>") {
        return (it.rewind_n(3), Some(Operator::UnsignedShiftRight));
    }
    if it.match_from_current("<>") {
        return (it.rewind_n(2), Some(Operator::Swap));
    }
    if it.match_from_current(">>") {
        return (it.rewind_n(2), Some(Operator::SignedShiftRight));
    }
    if it.match_from_current("<<") {
        return (it.rewind_n(2), Some(Operator::SignedShiftLeft));
    }
    if it.match_from_current("==") {
        return (it.rewind_n(2), Some(Operator::Equals));
    }
    if it.match_from_current("+=") {
        return (it.rewind_n(2), Some(Operator::Sum));
    }
    if it.match_from_current("-=") {
        return (it.rewind_n(2), Some(Operator::Sub));
    }
    if it.match_from_current("*=") {
        return (it.rewind_n(2), Some(Operator::Mul));
    }
    if it.match_from_current("/=") {
        return (it.rewind_n(2), Some(Operator::Div));
    }
    if it.match_from_current("%=") {
        return (it.rewind_n(2), Some(Operator::Mod));
    }
    if it.match_from_current("^=") {
        return (it.rewind_n(2), Some(Operator::Xor));
    }
    if it.match_from_current("&=") {
        return (it.rewind_n(2), Some(Operator::And));
    }
    if it.match_from_current("|=") {
        return (it.rewind_n(2), Some(Operator::Or));
    }
    if it.match_from_current("?") {
        return (it.rewind_n(1), Some(Operator::ShowHelp));
    }
    if it.match_from_current("=") {
        return (it.rewind_n(1), Some(Operator::Assign));
    }
    if it.match_from_current("+") {
        return (it.rewind_n(1), Some(Operator::Sum));
    }
    if it.match_from_current("-") {
        return (it.rewind_n(1), Some(Operator::Sub));
    }
    if it.match_from_current("*") {
        return (it.rewind_n(1), Some(Operator::Mul));
    }
    if it.match_from_current("/") {
        return (it.rewind_n(1), Some(Operator::Div));
    }
    if it.match_from_current("%") {
        return (it.rewind_n(1), Some(Operator::Mod));
    }
    if it.match_from_current(">") {
        return (it.rewind_n(1), Some(Operator::Greater));
    }
    if it.match_from_current("<") {
        return (it.rewind_n(1), Some(Operator::Less));
    }
    if it.match_from_current("^") {
        return (it.rewind_n(1), Some(Operator::Xor));
    }
    if it.match_from_current("&") {
        return (it.rewind_n(1), Some(Operator::And));
    }
    if it.match_from_current("|") {
        return (it.rewind_n(1), Some(Operator::Or));
    }
    if it.match_from_current("~") {
        return (it.rewind_n(1), Some(Operator::Not));
    }
    if it.match_from_current("!") {
        return (it.rewind_n(1), Some(Operator::Negate));
    }
    (it, None)
}

/// The character of a literal `'c'` at `i`, and the position after it.
pub open spec fn letter_at(s: Seq<char>, i: int) -> Option<(char, int)> {
    if 0 <= i < s.len() && s[i] == '\'' {
        let j = advance(s, i, 1, false);
        let k = advance(s, j, 1, true);
        if j < s.len() && 0 <= k < s.len() && s[k] == '\'' {
            Some((s[j], advance(s, k, 1, true)))
        } else {
            Option::<(char, int)>::None
        }
    } else {
        Option::<(char, int)>::None
    }
}

/// Reads a character literal `'c'`: its code, as wide as its UTF-8 encoding.
pub fn syntax_letter(it: ParsingIterator) -> (r: Result<(ParsingIterator, RightOperandSource), String>)
    requires
        it.wf(),
    ensures
        letter_at(it.src(), it.pos()) is Some <==> r is Ok,
        r matches Ok((it2, src)) ==> {
            let (c, end) = letter_at(it.src(), it.pos())->0;
            &&& it2.wf()
            &&& it2.src() == it.src()
            &&& it2.pos() == end
            &&& src matches RightOperandSource::DirectSource(n) && n.wf() && n.magnitude()
                == c as u32 && n.width() == 8 * utf8_len(c) && !n.is_signed_spec()
        },
{
    match it.current() {
        Some(c) => {
            if c == '\'' {
                let current_it = it.rewind_n_include_whitespaces(1);
                proof {
                    lemma_advance_bounds(it.src(), it.pos(), 1, false);
                }
                if let Some(c) = current_it.current() {
                    let number = match Number::from_char(c) {
                        Ok(n) => n,
                        Err(m) => {
                            return Err(m);
                        },
                    };
                    let current_it = current_it.rewind_n(1);
                    if let Some(c) = current_it.current() {
                        if c == '\'' {
                            Ok((current_it.rewind_n(1), RightOperandSource::DirectSource(number)))
                        } else {
                            Err("Letter is not closed with '\\'', only one letter allowed".to_owned())
                        }
                    } else {
                        Err("Command is not complete".to_owned())
                    }
                } else {
                    Err("Letter expected but no characters found".to_owned())
                }
            } else {
                Err("Given input is not a letter literal".to_owned())
            }
        },
        None => Err("No letter present in command as right operand".to_owned()),
    }
}

/// A digit a literal may hold: a decimal digit or a letter `a`-`f`.
pub open spec fn is_hex_class(c: char) -> bool {
    ('0' <= c <= '9') || ('a' <= c <= 'f') || ('A' <= c <= 'F')
}

/// The run of literal digits from `i`, whitespace between them ignored.
pub open spec fn digit_run(s: Seq<char>, i: int) -> Seq<char>
    decreases s.len() - i via digit_run_decreases
{
    if 0 <= i < s.len() && is_hex_class(s[i]) {
        seq![s[i]] + digit_run(s, skip_ws(s, i + 1))
    } else {
        Seq::<char>::empty()
    }
}

/// Where the run of literal digits from `i` ends.
pub open spec fn digit_run_end(s: Seq<char>, i: int) -> int
    decreases s.len() - i via digit_run_end_decreases
{
    if 0 <= i < s.len() && is_hex_class(s[i]) {
        digit_run_end(s, skip_ws(s, i + 1))
    } else {
        i
    }
}

#[via_fn]
proof fn digit_run_decreases(s: Seq<char>, i: int) {
    if 0 <= i < s.len() && is_hex_class(s[i]) {
        lemma_skip_ws_bounds(s, i + 1);
    }
}

#[via_fn]
proof fn digit_run_end_decreases(s: Seq<char>, i: int) {
    if 0 <= i < s.len() && is_hex_class(s[i]) {
        lemma_skip_ws_bounds(s, i + 1);
    }
}

/// The literal a number at `i` is read from: its digit run, after a minus
/// sign when it is negative.
pub open spec fn literal_at(s: Seq<char>, i: int, is_negative: bool) -> Seq<char> {
    if is_negative {
        seq!['-'] + digit_run(s, i)
    } else {
        digit_run(s, i)
    }
}

/// Reads the run of literal digits at the cursor as a number in `radix`.
fn syntax_number(it: ParsingIterator, radix: u32, is_negative: bool) -> (r: Result<
    (ParsingIterator, RightOperandSource),
    String,
>)
    requires
        it.wf(),
    ensures
        r is Ok <==> literal_fits(literal_at(it.src(), it.pos(), is_negative), radix as nat),
        r matches Ok((it2, src)) ==> {
            &&& it2.wf()
            &&& it2.src() == it.src()
            &&& it2.pos() == digit_run_end(it.src(), it.pos())
            &&& src matches RightOperandSource::DirectSource(n) && n.reads_literal(
                literal_at(it.src(), it.pos(), is_negative),
                radix as nat,
            )
        },
{
    let mut it = it;
    let mut literal: Vec<char> = Vec::new();
    if is_negative {
        literal.push('-');
    }
    let ghost s = it.src();
    let ghost start = it.pos();
    let ghost head = literal@;
    loop
        invariant
            it.wf(),
            it.src() == s,
            head + digit_run(s, start) == literal@ + digit_run(s, it.pos()),
            digit_run_end(s, start) == digit_run_end(s, it.pos()),
        ensures
            it.wf(),
            it.src() == s,
            head + digit_run(s, start) == literal@,
            digit_run_end(s, start) == it.pos(),
        decreases s.len() - it.pos(),
    {
        match it.current() {
            Some(c) => {
                if ('0' <= c && c <= '9') || ('a' <= c && c <= 'f') || ('A' <= c && c <= 'F') {
                    proof {
                        lemma_skip_ws_bounds(s, it.pos() + 1);
                        assert(literal@.push(c) + digit_run(s, skip_ws(s, it.pos() + 1))
                            =~= literal@ + digit_run(s, it.pos()));
                    }
                    literal.push(c);
                    it.next();
                } else {
                    proof {
                        assert(literal@ + digit_run(s, it.pos()) =~= literal@);
                    }
                    break;
                }
            },
            None => {
                proof {
                    assert(literal@ + digit_run(s, it.pos()) =~= literal@);
                }
                break;
            },
        }
    }
    proof {
        assert(literal@ =~= literal_at(s, start, is_negative));
    }
    let text = string_of(&literal);
    match Number::from_str(text.as_str(), radix) {
        Ok(number) => Ok((it, RightOperandSource::DirectSource(number))),
        Err(message) => Err(message),
    }
}

/// `src` is the number a literal's digit run at `i` reads as in `radix`,
/// and the run ends at `end`.
pub open spec fn number_reads(
    s: Seq<char>,
    i: int,
    radix: nat,
    is_negative: bool,
    src: RightOperandSource,
    end: int,
) -> bool {
    &&& src matches RightOperandSource::DirectSource(n) && n.reads_literal(
        literal_at(s, i, is_negative),
        radix,
    )
    &&& end == digit_run_end(s, i)
}

/// `n` is the zero register a lone `0` stands for.
pub open spec fn is_zero_literal(n: Number) -> bool {
    n.wf() && n.magnitude() == 0 && n.width() == 8 && !n.is_signed_spec() && n.kind()
        == NumberType::Integer
}

/// `src` and `end` are what reading a number after its leading `0` at `j`
/// gives: a radix letter or `(radix)` and digits, or zero at the end.
pub open spec fn radix_reads(
    s: Seq<char>,
    j: int,
    is_negative: bool,
    src: RightOperandSource,
    end: int,
) -> bool {
    if 0 <= j < s.len() {
        let c = s[j];
        let next = advance(s, j, 1, true);
        if c == 'b' || c == 'B' {
            number_reads(s, next, 2, is_negative, src, end)
        } else if c == 'o' || c == 'O' {
            number_reads(s, next, 8, is_negative, src, end)
        } else if c == 'd' || c == 'D' {
            number_reads(s, next, 10, is_negative, src, end)
        } else if c == 'h' || c == 'H' || c == 'x' || c == 'X' {
            number_reads(s, next, 16, is_negative, src, end)
        } else if c == '(' {
            let close = index_end(s, next);
            let radix = index_value(s, next, 0);
            &&& 0 <= next < s.len() && is_decimal(s[next])
            &&& 0 <= close < s.len() && s[close] == ')'
            &&& radix <= 37
            &&& number_reads(s, advance(s, close, 1, true), radix as nat, is_negative, src, end)
        } else {
            false
        }
    } else {
        src matches RightOperandSource::DirectSource(n) && is_zero_literal(n) && end == j
    }
}

/// `src` and `end` are what reading a number after a minus sign at `j` gives.
pub open spec fn negative_reads(s: Seq<char>, j: int, src: RightOperandSource, end: int) -> bool {
    &&& 0 <= j < s.len()
    &&& if '1' <= s[j] <= '9' {
        number_reads(s, j, 10, true, src, end)
    } else {
        s[j] == '0' && radix_reads(s, advance(s, j, 1, true), true, src, end)
    }
}

/// `src` and `end` are what reading the right operand at `i` gives: nothing
/// at the end, a range, a number, or a character literal.
pub open spec fn rvalue_reads(s: Seq<char>, i: int, src: RightOperandSource, end: int) -> bool {
    if i >= s.len() {
        src is Empty && end == i
    } else if s[i] == '[' {
        src matches RightOperandSource::RangeSource(r) && accessor_at(s, i) == Ok::<
            (Option<BitsIndexRange>, int),
            (),
        >((Some(r), end))
    } else if '1' <= s[i] <= '9' {
        number_reads(s, i, 10, false, src, end)
    } else if s[i] == '0' {
        radix_reads(s, advance(s, i, 1, true), false, src, end)
    } else if s[i] == '-' {
        negative_reads(s, advance(s, i, 1, true), src, end)
    } else if s[i] == '\'' {
        match (letter_at(s, i), src) {
            (Some((c, e)), RightOperandSource::DirectSource(n)) => e == end && n.wf() && n.magnitude()
                == c as u32 && n.width() == 8 * utf8_len(c) && !n.is_signed_spec(),
            _ => false,
        }
    } else {
        false
    }
}

/// Where a literal's digit run at `i` ends, when it reads as a number in
/// `radix`.
pub open spec fn number_end(s: Seq<char>, i: int, radix: nat, is_negative: bool) -> Option<int> {
    if literal_fits(literal_at(s, i, is_negative), radix) {
        Some(digit_run_end(s, i))
    } else {
        Option::<int>::None
    }
}

/// Where a number after its leading `0` at `j` ends, when it can be read.
pub open spec fn radix_end(s: Seq<char>, j: int, is_negative: bool) -> Option<int> {
    if 0 <= j < s.len() {
        let c = s[j];
        let next = advance(s, j, 1, true);
        if c == 'b' || c == 'B' {
            number_end(s, next, 2, is_negative)
        } else if c == 'o' || c == 'O' {
            number_end(s, next, 8, is_negative)
        } else if c == 'd' || c == 'D' {
            number_end(s, next, 10, is_negative)
        } else if c == 'h' || c == 'H' || c == 'x' || c == 'X' {
            number_end(s, next, 16, is_negative)
        } else if c == '(' {
            let close = index_end(s, next);
            let radix = index_value(s, next, 0);
            if 0 <= next < s.len() && is_decimal(s[next]) && 0 <= close < s.len() && s[close]
                == ')' && radix <= 37 {
                number_end(s, advance(s, close, 1, true), radix as nat, is_negative)
            } else {
                Option::<int>::None
            }
        } else {
            Option::<int>::None
        }
    } else {
        Some(j)
    }
}

/// Where a number after a minus sign at `j` ends, when it can be read.
pub open spec fn negative_end(s: Seq<char>, j: int) -> Option<int> {
    if 0 <= j < s.len() && '1' <= s[j] <= '9' {
        number_end(s, j, 10, true)
    } else if 0 <= j < s.len() && s[j] == '0' {
        radix_end(s, advance(s, j, 1, true), true)
    } else {
        Option::<int>::None
    }
}

/// Where the right operand at `i` ends, when it can be read.
pub open spec fn rvalue_end(s: Seq<char>, i: int) -> Option<int> {
    if i >= s.len() {
        Some(i)
    } else if s[i] == '[' {
        match accessor_at(s, i) {
            Ok((Some(_), e)) => Some(e),
            _ => Option::<int>::None,
        }
    } else if '1' <= s[i] <= '9' {
        number_end(s, i, 10, false)
    } else if s[i] == '0' {
        radix_end(s, advance(s, i, 1, true), false)
    } else if s[i] == '-' {
        negative_end(s, advance(s, i, 1, true))
    } else if s[i] == '\'' {
        match letter_at(s, i) {
            Some((_, e)) => Some(e),
            None => Option::<int>::None,
        }
    } else {
        Option::<int>::None
    }
}

/// Reads a number after a leading `0`: a radix letter (`b`, `o`, `d`, `h`
/// or `x`) or an arbitrary radix `(n)` up to 37, then its digits; a `0` alone
/// is zero.
fn syntax_radix_number(it: ParsingIterator, is_negative: bool) -> (r: Result<
    (ParsingIterator, RightOperandSource),
    String,
>)
    requires
        it.wf(),
    ensures
        r is Ok <==> radix_end(it.src(), it.pos(), is_negative) is Some,
        r matches Ok((it2, src)) ==> it2.wf() && it2.src() == it.src() && src.wf() && radix_reads(
            it.src(),
            it.pos(),
            is_negative,
            src,
            it2.pos(),
        ) && radix_end(it.src(), it.pos(), is_negative) == Some(it2.pos()),
{
    match it.current() {
        Some(c) => {
            if c == 'b' || c == 'B' {
                syntax_number(it.rewind_n(1), 2, is_negative)
            } else if c == 'o' || c == 'O' {
                syntax_number(it.rewind_n(1), 8, is_negative)
            } else if c == 'd' || c == 'D' {
                syntax_number(it.rewind_n(1), 10, is_negative)
            } else if c == 'h' || c == 'H' || c == 'x' || c == 'X' {
                syntax_number(it.rewind_n(1), 16, is_negative)
            } else if c == '(' {
                if let (it_after_arbitrary_radix, Some(radix)) = syntax_index(it.rewind_n(1)) {
                    match it_after_arbitrary_radix.current() {
                        Some(')') => {
                            if radix > 37 {
                                return Err(
                                    "Arbitrary radix is too big, it must be small enough to write numbers in it with '0'..'9' + 'a'..'z'".to_owned(),
                                );
                            }
                            syntax_number(
                                it_after_arbitrary_radix.rewind_n(1),
                                radix as u32,
                                is_negative,
                            )
                        },
                        _ => Err("Arbitrary radix must be closed with ')'".to_owned()),
                    }
                } else {
                    Err("Arbitrary radix must not be empty".to_owned())
                }
            } else {
                Err("Bad radix letter".to_owned())
            }
        },
        None => {
            let zero = Number::new(NumberType::Integer, false, 0);
            match zero {
                Ok(n) => Ok((it, RightOperandSource::DirectSource(n))),
                Err(m) => Err(m),
            }
        },
    }
}

/// Reads a number after a minus sign.
fn syntax_negative_number(it: ParsingIterator) -> (r: Result<
    (ParsingIterator, RightOperandSource),
    String,
>)
    requires
        it.wf(),
    ensures
        r is Ok <==> negative_end(it.src(), it.pos()) is Some,
        r matches Ok((it2, src)) ==> it2.wf() && it2.src() == it.src() && src.wf() && negative_reads(
            it.src(),
            it.pos(),
            src,
            it2.pos(),
        ) && negative_end(it.src(), it.pos()) == Some(it2.pos()),
{
    match it.current() {
        Some(c) => {
            if '1' <= c && c <= '9' {
                syntax_number(it, 10, true)
            } else if c == '0' {
                syntax_radix_number(it.rewind_n(1), true)
            } else {
                Err("Bad number syntax".to_owned())
            }
        },
        None => Err("Bad negative number syntax".to_owned()),
    }
}

/// Reads the right operand: a range, a number, a character literal, or
/// nothing at the end of the command.
fn syntax_rvalue(it: ParsingIterator) -> (r: Result<(ParsingIterator, RightOperandSource), String>)
    requires
        it.wf(),
    ensures
        it.at_cursor() is None ==> (r matches Ok((it2, RightOperandSource::Empty)) && it2.pos() == it.pos()),
        r matches Ok((it2, src)) ==> it2.wf() && it2.src() == it.src() && src.wf(),
        it.at_cursor() == Some('[') ==> (r is Ok <==> accessor_at(it.src(), it.pos()) is Ok),
        r matches Ok((it2, src)) ==> rvalue_reads(it.src(), it.pos(), src, it2.pos()),
        r is Ok <==> rvalue_end(it.src(), it.pos()) is Some,
        r matches Ok((it2, _)) ==> rvalue_end(it.src(), it.pos()) == Some(it2.pos()),
{
    match it.current() {
        Some(c) => {
            if c == '[' {
                match syntax_accessor(it) {
                    Ok((it, Some(range))) => Ok((it, RightOperandSource::RangeSource(range))),
                    Ok((_, None)) => Err("Range access in right value must be correct".to_owned()),
                    Err(message) => Err(message),
                }
            } else if '1' <= c && c <= '9' {
                syntax_number(it, 10, false)
            } else if c == '0' {
                syntax_radix_number(it.rewind_n(1), false)
            } else if c == '-' {
                syntax_negative_number(it.rewind_n(1))
            } else if c == '\'' {
                syntax_letter(it)
            } else {
                let mut message = "number or range had been expected, but this was found: ".to_owned();
                let rest = string_of(&it.rest());
                message.append(rest.as_str());
                Err(message)
            }
        },
        None => Ok((it, RightOperandSource::Empty)),
    }
}

/// The left operand and operator a command starts with, and where its right
/// operand begins; `None` when its accessor is not closed.
pub open spec fn command_head(s: Seq<char>) -> Option<(LeftOperandSource, Operator, int)> {
    let p0 = skip_ws(s, 0);
    match accessor_at(s, p0) {
        Ok((range, p1)) => {
            let left = LeftOperandSource::RangeSource(
                match range {
                    Some(r) => r,
                    None => BitsIndexRange(BitsIndex::HighestBit, BitsIndex::LowestBit),
                },
            );
            match operator_at(s, p1) {
                Some((op, n)) => Some((left, op, advance(s, p1, n, true))),
                None => Some((left, Operator::Assign, p1)),
            }
        },
        Err(_) => Option::<(LeftOperandSource, Operator, int)>::None,
    }
}

/// Whether `s` is a well-formed command.
pub open spec fn parses(s: Seq<char>) -> bool {
    command_head(s) matches Some((_, _, p)) && rvalue_end(s, p) == Some(s.len() as int)
}

/// `left`, `op` and `right` are what command `s` reads as: its head, and a
/// right operand that takes the rest of the text.
pub open spec fn reads_command(
    s: Seq<char>,
    left: LeftOperandSource,
    op: Operator,
    right: RightOperandSource,
) -> bool {
    &&& command_head(s) matches Some((l, o, p)) && l == left && o == op && rvalue_reads(
        s,
        p,
        right,
        s.len() as int,
    )
    &&& right.wf()
}

/// Parses a command into its left operand, operator and right operand. The
/// left operand defaults to the whole register and the operator to `=`;
/// anything left after the right operand is an error.
pub fn parse(cmd: &str) -> (r: Result<(LeftOperandSource, Operator, RightOperandSource), String>)
    ensures
        r is Ok <==> parses(cmd@),
        r matches Ok((left, op, right)) ==> reads_command(cmd@, left, op, right),
        (command_head(cmd@) matches Some((_, _, p)) && p == cmd@.len()) ==> (r matches Ok(
            (_, _, RightOperandSource::Empty),
        )),
{
    let it = match ParsingIterator::from(cmd) {
        Ok(it) => it,
        Err(msg) => {
            return Err(msg);
        },
    };
    let (it_after_first_operand, left_operand_source) = match syntax_accessor(it) {
        Ok((it, Some(range))) => (it, LeftOperandSource::RangeSource(range)),
        Ok((it, None)) => (it, LeftOperandSource::RangeSource(BitsIndexRange::full())),
        Err(message) => {
            return Err(message);
        },
    };
    let (it_after_operator, operator_handler) = match syntax_operator(it_after_first_operand) {
        (it, Some(h)) => (it, h),
        (it, None) => (it, Operator::Assign),
    };
    let (it_after_second_operand, right_operand_source) = match syntax_rvalue(it_after_operator) {
        Ok((it, rop)) => (it, rop),
        Err(message) => {
            return Err(message);
        },
    };
    if it_after_second_operand.current().is_some() {
        let mut message = "Could not parse all symbols in command, left: ".to_owned();
        let rest = string_of(&it_after_second_operand.rest());
        message.append(rest.as_str());
        return Err(message);
    }
    Ok((left_operand_source, operator_handler, right_operand_source))
}

} // verus!

//! The assembler: one instruction per line, blank lines and `#`/`;`
//! comment lines skipped, mnemonics matched without regard to letter case,
//! `PUSH` taking one signed decimal operand. Failures name the 1-based
//! line.
//!
//! Assembly surface, one instruction per line:
//!   PUSH <i64> / POP / DUP / SWAP / ADD / SUB / MUL / DIV / MOD
//!   EQ / LT / GT / NOT / JUMP / JUMPIF / HALT / STORE / LOAD / LOG

use vstd::prelude::*;
use vstd::string::StrSliceExecFns;
use vstd::string::StringExecFns;

use crate::errors::{VmError, VmResult};
use crate::text::{u64_dec_of, u64_to_string};
use crate::vm::{i64_le_of, i64_to_le_bytes, opcode_byte, OpCode};

verus! {

/// The separators between tokens: the whitespace characters, as std's
/// whitespace splitting has them. The line break itself never occurs
/// inside a line.
pub open spec fn is_space(c: char) -> bool {
    c == ' ' || c == '\t' || c == '\r' || c == '\x0b' || c == '\x0c' || c == '\u{85}' || c
        == '\u{a0}' || c == '\u{1680}' || ('\u{2000}' <= c <= '\u{200a}') || c == '\u{2028}' || c
        == '\u{2029}' || c == '\u{202f}' || c == '\u{205f}' || c == '\u{3000}'
}

/// The index of the next line break at or after `i`, or the end.
pub open spec fn line_end_at(s: Seq<char>, i: int) -> int
    decreases s.len() - i,
{
    if i < 0 || i >= s.len() {
        s.len() as int
    } else if s[i] == '\n' {
        i
    } else {
        line_end_at(s, i + 1)
    }
}

proof fn lemma_line_end_at_bounds(s: Seq<char>, i: int)
    requires
        0 <= i <= s.len(),
    ensures
        i <= line_end_at(s, i) <= s.len(),
    decreases s.len() - i,
{
    if i < s.len() && s[i] != '\n' {
        lemma_line_end_at_bounds(s, i + 1);
    }
}

/// The first index in `[i, end)` holding a non-space character, or `end`.
pub open spec fn skip_spaces_at(s: Seq<char>, i: int, end: int) -> int
    decreases end - i,
{
    if i < 0 || i >= end || i >= s.len() {
        end
    } else if is_space(s[i]) {
        skip_spaces_at(s, i + 1, end)
    } else {
        i
    }
}

/// The first index in `[i, end)` holding a space, or `end`.
pub open spec fn token_end_at(s: Seq<char>, i: int, end: int) -> int
    decreases end - i,
{
    if i < 0 || i >= end || i >= s.len() {
        end
    } else if is_space(s[i]) {
        i
    } else {
        token_end_at(s, i + 1, end)
    }
}

/// ASCII upper-casing of one character.
pub open spec fn upper(c: char) -> char {
    if c == 'a' {
        'A'
    } else if c == 'b' {
        'B'
    } else if c == 'c' {
        'C'
    } else if c == 'd' {
        'D'
    } else if c == 'e' {
        'E'
    } else if c == 'f' {
        'F'
    } else if c == 'g' {
        'G'
    } else if c == 'h' {
        'H'
    } else if c == 'i' {
        'I'
    } else if c == 'j' {
        'J'
    } else if c == 'k' {
        'K'
    } else if c == 'l' {
        'L'
    } else if c == 'm' {
        'M'
    } else if c == 'n' {
        'N'
    } else if c == 'o' {
        'O'
    } else if c == 'p' {
        'P'
    } else if c == 'q' {
        'Q'
    } else if c == 'r' {
        'R'
    } else if c == 's' {
        'S'
    } else if c == 't' {
        'T'
    } else if c == 'u' {
        'U'
    } else if c == 'v' {
        'V'
    } else if c == 'w' {
        'W'
    } else if c == 'x' {
        'X'
    } else if c == 'y' {
        'Y'
    } else if c == 'z' {
        'Z'
    } else {
        c
    }
}

/// ASCII upper-casing of a character sequence.
pub open spec fn upper_seq(s: Seq<char>) -> Seq<char> {
    Seq::new(s.len(), |i: int| upper(s[i]))
}

/// The opcode named by an upper-cased mnemonic, if any.
pub open spec fn mnemonic_of(u: Seq<char>) -> Option<OpCode> {
    if u == seq!['P', 'U', 'S', 'H'] {
        Some(OpCode::Push)
    } else if u == seq!['P', 'O', 'P'] {
        Some(OpCode::Pop)
    } else if u == seq!['D', 'U', 'P'] {
        Some(OpCode::Dup)
    } else if u == seq!['S', 'W', 'A', 'P'] {
        Some(OpCode::Swap)
    } else if u == seq!['A', 'D', 'D'] {
        Some(OpCode::Add)
    } else if u == seq!['S', 'U', 'B'] {
        Some(OpCode::Sub)
    } else if u == seq!['M', 'U', 'L'] {
        Some(OpCode::Mul)
    } else if u == seq!['D', 'I', 'V'] {
        Some(OpCode::Div)
    } else if u == seq!['M', 'O', 'D'] {
        Some(OpCode::Mod)
    } else if u == seq!['E', 'Q'] {
        Some(OpCode::Eq)
    } else if u == seq!['L', 'T'] {
        Some(OpCode::Lt)
    } else if u == seq!['G', 'T'] {
        Some(OpCode::Gt)
    } else if u == seq!['N', 'O', 'T'] {
        Some(OpCode::Not)
    } else if u == seq!['J', 'U', 'M', 'P'] {
        Some(OpCode::Jump)
    } else if u == seq!['J', 'U', 'M', 'P', 'I', 'F'] {
        Some(OpCode::JumpIf)
    } else if u == seq!['H', 'A', 'L', 'T'] {
        Some(OpCode::Halt)
    } else if u == seq!['S', 'T', 'O', 'R', 'E'] {
        Some(OpCode::Store)
    } else if u == seq!['L', 'O', 'A', 'D'] {
        Some(OpCode::Load)
    } else if u == seq!['L', 'O', 'G'] {
        Some(OpCode::Log)
    } else {
        None
    }
}

/// The value of a decimal digit character, or a negative marker.
pub open spec fn digit_val(c: char) -> int {
    if c == '0' {
        0
    } else if c == '1' {
        1
    } else if c == '2' {
        2
    } else if c == '3' {
        3
    } else if c == '4' {
        4
    } else if c == '5' {
        5
    } else if c == '6' {
        6
    } else if c == '7' {
        7
    } else if c == '8' {
        8
    } else if c == '9' {
        9
    } else {
        -1
    }
}

/// A nonempty run of decimal digits.
pub open spec fn all_digits(s: Seq<char>) -> bool {
    s.len() > 0 && forall|i: int| 0 <= i < s.len() ==> digit_val(#[trigger] s[i]) >= 0
}

/// The value of a digit run, most significant first.
pub open spec fn dec_value(s: Seq<char>) -> int
    decreases s.len(),
{
    if s.len() == 0 {
        0
    } else {
        dec_value(s.drop_last()) * 10 + digit_val(s.last())
    }
}

proof fn lemma_dec_value_nonneg(s: Seq<char>)
    requires
        forall|i: int| 0 <= i < s.len() ==> digit_val(#[trigger] s[i]) >= 0,
    ensures
        dec_value(s) >= 0,
    decreases s.len(),
{
    if s.len() > 0 {
        lemma_dec_value_nonneg(s.drop_last());
    }
}

proof fn lemma_dec_value_prefix(s: Seq<char>, k: int)
    requires
        forall|i: int| 0 <= i < s.len() ==> digit_val(#[trigger] s[i]) >= 0,
        0 <= k <= s.len(),
    ensures
        dec_value(s) >= dec_value(s.take(k)),
    decreases s.len() - k,
{
    if k < s.len() {
        lemma_dec_value_prefix(s, k + 1);
        assert(s.take(k + 1).drop_last() =~= s.take(k));
        assert(s.take(k + 1).last() == s[k]);
        lemma_dec_value_nonneg(s.take(k));
    } else {
        assert(s.take(k) =~= s);
    }
}

/// The signed decimal integer named by a token, as std parses it: an
/// optional sign, then digits, within the 64-bit range.
pub open spec fn parse_i64_spec(s: Seq<char>) -> Option<i64> {
    let neg = s.len() > 0 && s[0] == '-';
    let digits = if s.len() > 0 && (s[0] == '-' || s[0] == '+') {
        s.drop_first()
    } else {
        s
    };
    if !all_digits(digits) {
        None
    } else {
        let v = dec_value(digits);
        if neg {
            if v <= 0x8000_0000_0000_0000 {
                Some((-v) as i64)
            } else {
                None
            }
        } else {
            if v <= 0x7FFF_FFFF_FFFF_FFFF {
                Some(v as i64)
            } else {
                None
            }
        }
    }
}

/// How a line can fail to assemble.
#[derive(Debug, Clone, Copy, PartialEq, Eq, Structural)]
pub enum CompileIssue {
    MissingOperand,
    BadNumber,
    UnknownInstruction,
}

/// The bytes one line contributes, or how it fails. A blank line or a
/// comment line contributes nothing; `PUSH` contributes its opcode and an
/// eight-byte little-endian immediate; any other mnemonic its opcode.
pub open spec fn line_output(s: Seq<char>, i: int, end: int) -> Result<Seq<u8>, CompileIssue> {
    let t0 = skip_spaces_at(s, i, end);
    if t0 >= end {
        Ok(Seq::empty())
    } else if s[t0] == '#' || s[t0] == ';' {
        Ok(Seq::empty())
    } else {
        let t0e = token_end_at(s, t0, end);
        match mnemonic_of(upper_seq(s.subrange(t0, t0e))) {
            None => Err(CompileIssue::UnknownInstruction),
            Some(op) => {
                if op == OpCode::Push {
                    let a0 = skip_spaces_at(s, t0e, end);
                    if a0 >= end {
                        Err(CompileIssue::MissingOperand)
                    } else {
                        let a0e = token_end_at(s, a0, end);
                        match parse_i64_spec(s.subrange(a0, a0e)) {
                            None => Err(CompileIssue::BadNumber),
                            Some(v) => Ok(seq![opcode_byte(OpCode::Push)] + i64_le_of(v)),
                        }
                    }
                } else {
                    Ok(seq![opcode_byte(op)])
                }
            },
        }
    }
}

/// Assembles the source from position `i`, a line at a time. An error
/// carries the start index of the offending line.
pub open spec fn compile_from(s: Seq<char>, i: int) -> Result<Seq<u8>, (int, CompileIssue)>
    decreases s.len() - i,
    via compile_from_dec
{
    if i < 0 || i >= s.len() {
        Ok(Seq::empty())
    } else {
        let end = line_end_at(s, i);
        match line_output(s, i, end) {
            Err(k) => Err((i, k)),
            Ok(bytes) => {
                if end >= s.len() {
                    Ok(bytes)
                } else {
                    match compile_from(s, end + 1) {
                        Err(e) => Err(e),
                        Ok(rest) => Ok(bytes + rest),
                    }
                }
            },
        }
    }
}

#[via_fn]
proof fn compile_from_dec(s: Seq<char>, i: int) {
    if 0 <= i < s.len() {
        lemma_line_end_at_bounds(s, i);
    }
}

/// The whole source assembled from its start.
pub open spec fn compile_spec(s: Seq<char>) -> Result<Seq<u8>, (int, CompileIssue)> {
    compile_from(s, 0)
}

/// The count of line breaks in a sequence.
pub open spec fn newline_count(s: Seq<char>) -> nat
    decreases s.len(),
{
    if s.len() == 0 {
        0
    } else {
        newline_count(s.drop_last()) + if s.last() == '\n' {
            1nat
        } else {
            0nat
        }
    }
}

proof fn lemma_newline_count_le(s: Seq<char>)
    ensures
        newline_count(s) <= s.len(),
    decreases s.len(),
{
    if s.len() > 0 {
        lemma_newline_count_le(s.drop_last());
    }
}

/// The message a failing line produces, naming its 1-based number.
pub open spec fn issue_msg(line: nat, k: CompileIssue) -> Seq<char> {
    "Line "@ + u64_dec_of(line) + (match k {
        CompileIssue::MissingOperand => ": PUSH requires a value"@,
        CompileIssue::BadNumber => ": invalid number"@,
        CompileIssue::UnknownInstruction => ": unknown instruction"@,
    })
}

/// The continuation claim the assembling loop maintains: what the whole
/// source assembles to is the bytes emitted so far followed by what the
/// rest assembles to.
pub open spec fn compile_cont(s: Seq<char>, i: int, acc: Seq<u8>) -> bool {
    match compile_from(s, i) {
        Ok(rest) => compile_from(s, 0) == Ok::<Seq<u8>, (int, CompileIssue)>(acc + rest),
        Err(e) => compile_from(s, 0) == Err::<Seq<u8>, (int, CompileIssue)>(e),
    }
}

fn is_space_char(c: char) -> (r: bool)
    ensures
        r == is_space(c),
{
    c == ' ' || c == '\t' || c == '\r' || c == '\x0b' || c == '\x0c' || c == '\u{85}' || c
        == '\u{a0}' || c == '\u{1680}' || ('\u{2000}' <= c && c <= '\u{200a}') || c == '\u{2028}'
        || c == '\u{2029}' || c == '\u{202f}' || c == '\u{205f}' || c == '\u{3000}'
}

fn upper_char(c: char) -> (r: char)
    ensures
        r == upper(c),
{
    if c == 'a' {
        'A'
    } else if c == 'b' {
        'B'
    } else if c == 'c' {
        'C'
    } else if c == 'd' {
        'D'
    } else if c == 'e' {
        'E'
    } else if c == 'f' {
        'F'
    } else if c == 'g' {
        'G'
    } else if c == 'h' {
        'H'
    } else if c == 'i' {
        'I'
    } else if c == 'j' {
        'J'
    } else if c == 'k' {
        'K'
    } else if c == 'l' {
        'L'
    } else if c == 'm' {
        'M'
    } else if c == 'n' {
        'N'
    } else if c == 'o' {
        'O'
    } else if c == 'p' {
        'P'
    } else if c == 'q' {
        'Q'
    } else if c == 'r' {
        'R'
    } else if c == 's' {
        'S'
    } else if c == 't' {
        'T'
    } else if c == 'u' {
        'U'
    } else if c == 'v' {
        'V'
    } else if c == 'w' {
        'W'
    } else if c == 'x' {
        'X'
    } else if c == 'y' {
        'Y'
    } else if c == 'z' {
        'Z'
    } else {
        c
    }
}

#[verifier::loop_isolation(false)]
fn line_end_exec(s: &str, i: usize) -> (r: usize)
    requires
        i <= s@.len(),
    ensures
        r == line_end_at(s@, i as int),
        i <= r <= s@.len(),
{
    let n = s.unicode_len();
    let mut j = i;
    while j < n
        invariant
            i <= j <= n,
            line_end_at(s@, i as int) == line_end_at(s@, j as int),
        decreases n - j,
    {
        if s.get_char(j) == '\n' {
            return j;
        }
        j += 1;
    }
    j
}

#[verifier::loop_isolation(false)]
fn skip_spaces_exec(s: &str, i: usize, end: usize) -> (r: usize)
    requires
        i <= end <= s@.len(),
    ensures
        r == skip_spaces_at(s@, i as int, end as int),
        i <= r <= end,
{
    let mut j = i;
    while j < end
        invariant
            i <= j <= end,
            skip_spaces_at(s@, i as int, end as int) == skip_spaces_at(s@, j as int, end as int),
        decreases end - j,
    {
        if !is_space_char(s.get_char(j)) {
            return j;
        }
        j += 1;
    }
    j
}

#[verifier::loop_isolation(false)]
fn token_end_exec(s: &str, i: usize, end: usize) -> (r: usize)
    requires
        i <= end <= s@.len(),
    ensures
        r == token_end_at(s@, i as int, end as int),
        i <= r <= end,
{
    let mut j = i;
    while j < end
        invariant
            i <= j <= end,
            token_end_at(s@, i as int, end as int) == token_end_at(s@, j as int, end as int),
        decreases end - j,
    {
        if is_space_char(s.get_char(j)) {
            return j;
        }
        j += 1;
    }
    j
}

/// Collects a token's characters, upper-cased.
#[verifier::loop_isolation(false)]
fn token_upper(s: &str, a: usize, b: usize) -> (v: Vec<char>)
    requires
        a <= b <= s@.len(),
    ensures
        v@ == upper_seq(s@.subrange(a as int, b as int)),
{
    let mut v: Vec<char> = Vec::new();
    let mut j = a;
    while j < b
        invariant
            a <= j <= b,
            v@ =~= upper_seq(s@.subrange(a as int, j as int)),
        decreases b - j,
    {
        let c = upper_char(s.get_char(j));
        v.push(c);
        proof {
            assert(v@ =~= upper_seq(s@.subrange(a as int, j + 1)));
        }
        j += 1;
    }
    v
}

fn chars_eq2(v: &Vec<char>, a: char, b: char) -> (r: bool)
    ensures
        r == (v@ == seq![a, b]),
{
    let r = v.len() == 2 && v[0] == a && v[1] == b;
    proof {
        if r {
            assert(v@ =~= seq![a, b]);
        }
    }
    r
}

fn chars_eq3(v: &Vec<char>, a: char, b: char, c: char) -> (r: bool)
    ensures
        r == (v@ == seq![a, b, c]),
{
    let r = v.len() == 3 && v[0] == a && v[1] == b && v[2] == c;
    proof {
        if r {
            assert(v@ =~= seq![a, b, c]);
        }
    }
    r
}

fn chars_eq4(v: &Vec<char>, a: char, b: char, c: char, d: char) -> (r: bool)
    ensures
        r == (v@ == seq![a, b, c, d]),
{
    let r = v.len() == 4 && v[0] == a && v[1] == b && v[2] == c && v[3] == d;
    proof {
        if r {
            assert(v@ =~= seq![a, b, c, d]);
        }
    }
    r
}

fn chars_eq5(v: &Vec<char>, a: char, b: char, c: char, d: char, e: char) -> (r: bool)
    ensures
        r == (v@ == seq![a, b, c, d, e]),
{
    let r = v.len() == 5 && v[0] == a && v[1] == b && v[2] == c && v[3] == d && v[4] == e;
    proof {
        if r {
            assert(v@ =~= seq![a, b, c, d, e]);
        }
    }
    r
}

fn chars_eq6(v: &Vec<char>, a: char, b: char, c: char, d: char, e: char, f: char) -> (r: bool)
    ensures
        r == (v@ == seq![a, b, c, d, e, f]),
{
    let r = v.len() == 6 && v[0] == a && v[1] == b && v[2] == c && v[3] == d && v[4] == e && v[5]
        == f;
    proof {
        if r {
            assert(v@ =~= seq![a, b, c, d, e, f]);
        }
    }
    r
}

/// Finds the opcode an upper-cased token names, if any.
fn mnemonic_exec(v: &Vec<char>) -> (r: Option<OpCode>)
    ensures
        r == mnemonic_of(v@),
{
    if chars_eq4(v, 'P', 'U', 'S', 'H') {
        Some(OpCode::Push)
    } else if chars_eq3(v, 'P', 'O', 'P') {
        Some(OpCode::Pop)
    } else if chars_eq3(v, 'D', 'U', 'P') {
        Some(OpCode::Dup)
    } else if chars_eq4(v, 'S', 'W', 'A', 'P') {
        Some(OpCode::Swap)
    } else if chars_eq3(v, 'A', 'D', 'D') {
        Some(OpCode::Add)
    } else if chars_eq3(v, 'S', 'U', 'B') {
        Some(OpCode::Sub)
    } else if chars_eq3(v, 'M', 'U', 'L') {
        Some(OpCode::Mul)
    } else if chars_eq3(v, 'D', 'I', 'V') {
        Some(OpCode::Div)
    } else if chars_eq3(v, 'M', 'O', 'D') {
        Some(OpCode::Mod)
    } else if chars_eq2(v, 'E', 'Q') {
        Some(OpCode::Eq)
    } else if chars_eq2(v, 'L', 'T') {
        Some(OpCode::Lt)
    } else if chars_eq2(v, 'G', 'T') {
        Some(OpCode::Gt)
    } else if chars_eq3(v, 'N', 'O', 'T') {
        Some(OpCode::Not)
    } else if chars_eq4(v, 'J', 'U', 'M', 'P') {
        Some(OpCode::Jump)
    } else if chars_eq6(v, 'J', 'U', 'M', 'P', 'I', 'F') {
        Some(OpCode::JumpIf)
    } else if chars_eq4(v, 'H', 'A', 'L', 'T') {
        Some(OpCode::Halt)
    } else if chars_eq5(v, 'S', 'T', 'O', 'R', 'E') {
        Some(OpCode::Store)
    } else if chars_eq4(v, 'L', 'O', 'A', 'D') {
        Some(OpCode::Load)
    } else if chars_eq3(v, 'L', 'O', 'G') {
        Some(OpCode::Log)
    } else {
        None
    }
}

fn digit_of(c: char) -> (r: i8)
    ensures
        r as int == digit_val(c),
{
    if c == '0' {
        0
    } else if c == '1' {
        1
    } else if c == '2' {
        2
    } else if c == '3' {
        3
    } else if c == '4' {
        4
    } else if c == '5' {
        5
    } else if c == '6' {
        6
    } else if c == '7' {
        7
    } else if c == '8' {
        8
    } else if c == '9' {
        9
    } else {
        -1
    }
}

/// Parses the token in `[a, b)` as a signed decimal 64-bit integer.
#[verifier::loop_isolation(false)]
fn parse_i64_range(s: &str, a: usize, b: usize) -> (r: Option<i64>)
    requires
        a <= b <= s@.len(),
    ensures
        r == parse_i64_spec(s@.subrange(a as int, b as int)),
{
    let ghost tok = s@.subrange(a as int, b as int);
    let mut j = a;
    let mut neg = false;
    if a < b {
        let c0 = s.get_char(a);
        if c0 == '-' {
            neg = true;
            j = a + 1;
        } else if c0 == '+' {
            j = a + 1;
        }
    }
    let ghost digits = tok.subrange(j - a, tok.len() as int);
    proof {
        if tok.len() > 0 && (tok[0] == '-' || tok[0] == '+') {
            assert(digits =~= tok.drop_first());
        } else {
            assert(digits =~= tok);
        }
    }
    if j == b {
        proof {
            assert(!all_digits(digits));
        }
        return None;
    }
    let bound: u64 = if neg {
        0x8000_0000_0000_0000
    } else {
        0x7FFF_FFFF_FFFF_FFFF
    };
    let ghost dstart = j;
    let mut acc: u64 = 0;
    while j < b
        invariant
            dstart <= j <= b,
            acc <= bound,
            acc as int == dec_value(digits.take(j - dstart)),
            forall|k: int| 0 <= k < j - dstart ==> digit_val(#[trigger] digits[k]) >= 0,
        decreases b - j,
    {
        let d = digit_of(s.get_char(j));
        if d < 0 {
            proof {
                assert(digits[j - dstart] == s@[j as int]);
                assert(!all_digits(digits));
            }
            return None;
        }
        let du = d as u64;
        if acc > (bound - du) / 10 {
            proof {
                let k = j - dstart;
                assert(digits.take(k + 1).drop_last() =~= digits.take(k));
                assert(digits.take(k + 1).last() == digits[k]);
                assert(dec_value(digits.take(k + 1)) == acc * 10 + du);
                assert(acc * 10 + du > bound) by (nonlinear_arith)
                    requires
                        acc > (bound - du) / 10,
                        du <= 9,
                        bound >= du,
                ;
                if all_digits(digits) {
                    lemma_dec_value_prefix(digits, k + 1);
                    assert(!(dec_value(digits) <= bound));
                }
            }
            return None;
        }
        proof {
            let k = j - dstart;
            assert(digits.take(k + 1).drop_last() =~= digits.take(k));
            assert(digits.take(k + 1).last() == digits[k]);
            assert(acc * 10 + du <= bound) by (nonlinear_arith)
                requires
                    acc <= (bound - du) / 10,
                    du <= 9,
                    bound >= du,
            ;
        }
        acc = acc * 10 + du;
        j += 1;
    }
    proof {
        assert(digits.take(b - dstart) =~= digits);
        assert(all_digits(digits));
    }
    if neg {
        if acc == 0x8000_0000_0000_0000u64 {
            Some(i64::MIN)
        } else {
            Some(-(acc as i64))
        }
    } else {
        Some(acc as i64)
    }
}

/// Counts the line breaks before a position; the 1-based line number of
/// that position is one more.
#[verifier::loop_isolation(false)]
fn count_newlines(s: &str, upto: usize) -> (r: u64)
    requires
        upto <= s@.len(),
    ensures
        r as nat == newline_count(s@.take(upto as int)),
        r <= upto,
{
    let mut count: u64 = 0;
    let mut j: usize = 0;
    while j < upto
        invariant
            j <= upto,
            count <= j,
            count as nat == newline_count(s@.take(j as int)),
        decreases upto - j,
    {
        proof {
            assert(s@.take(j + 1).drop_last() =~= s@.take(j as int));
            assert(s@.take(j + 1).last() == s@[j as int]);
        }
        if s.get_char(j) == '\n' {
            count += 1;
        }
        j += 1;
    }
    count
}

/// Builds the failure message for a line.
fn issue_message(line: u64, k: CompileIssue) -> (s: String)
    ensures
        s@ == issue_msg(line as nat, k),
{
    let mut s = String::from_str("Line ");
    let num = u64_to_string(line);
    s.append(num.as_str());
    match k {
        CompileIssue::MissingOperand => s.append(": PUSH requires a value"),
        CompileIssue::BadNumber => s.append(": invalid number"),
        CompileIssue::UnknownInstruction => s.append(": unknown instruction"),
    }
    s
}

/// Assembles a source text into bytecode, or reports the first failing
/// line by its 1-based number.
#[verifier::loop_isolation(false)]
#[verifier::rlimit(60)]
pub fn compile(source: &str) -> (r: VmResult<Vec<u8>>)
    ensures
        match r {
            Ok(bytes) => compile_spec(source@) matches Ok(b) && b == bytes@,
            Err(e) => compile_spec(source@) matches Err(le) && (e matches VmError::CompileError(
                msg,
            ) && msg@ == issue_msg((newline_count(source@.take(le.0)) + 1) as nat, le.1)),
        },
{
    let n = source.unicode_len();
    let mut bytecode: Vec<u8> = Vec::new();
    let mut i: usize = 0;
    proof {
        if compile_from(source@, 0) is Ok {
            let rest = compile_from(source@, 0)->Ok_0;
            assert(Seq::<u8>::empty() + rest =~= rest);
        }
        assert(compile_cont(source@, 0, Seq::<u8>::empty()));
    }
    while i < n
        invariant
            i <= n,
            compile_cont(source@, i as int, bytecode@),
        decreases n - i,
    {
        let ghost line_start = i as int;
        let end = line_end_exec(source, i);
        let t0 = skip_spaces_exec(source, i, end);
        let mut line_bytes: Vec<u8> = Vec::new();
        let mut issue: Option<CompileIssue> = None;
        if t0 < end {
            let c0 = source.get_char(t0);
            if c0 != '#' && c0 != ';' {
                let t0e = token_end_exec(source, t0, end);
                let tok = token_upper(source, t0, t0e);
                match mnemonic_exec(&tok) {
                    None => {
                        issue = Some(CompileIssue::UnknownInstruction);
                    },
                    Some(op) => {
                        if matches!(op, OpCode::Push) {
                            let a0 = skip_spaces_exec(source, t0e, end);
                            if a0 >= end {
                                issue = Some(CompileIssue::MissingOperand);
                            } else {
                                let a0e = token_end_exec(source, a0, end);
                                match parse_i64_range(source, a0, a0e) {
                                    None => {
                                        issue = Some(CompileIssue::BadNumber);
                                    },
                                    Some(v) => {
                                        line_bytes.push(OpCode::Push.to_byte());
                                        let enc = i64_to_le_bytes(v);
                                        line_bytes.extend_from_slice(enc.as_slice());
                                        proof {
                                            assert(line_bytes@ =~= seq![
                                                opcode_byte(OpCode::Push),
                                            ] + i64_le_of(v));
                                        }
                                    },
                                }
                            }
                        } else {
                            line_bytes.push(op.to_byte());
                            proof {
                                assert(line_bytes@ =~= seq![opcode_byte(op)]);
                            }
                        }
                    },
                }
            }
        }
        match issue {
            Some(k) => {
                proof {
                    assert(line_output(source@, line_start, end as int) == Err::<
                        Seq<u8>,
                        CompileIssue,
                    >(k));
                    assert(compile_from(source@, line_start) == Err::<
                        Seq<u8>,
                        (int, CompileIssue),
                    >((line_start, k)));
                }
                let line = count_newlines(source, i) + 1;
                let msg = issue_message(line, k);
                return Err(VmError::CompileError(msg));
            },
            None => {
                proof {
                    assert(line_output(source@, line_start, end as int) == Ok::<
                        Seq<u8>,
                        CompileIssue,
                    >(line_bytes@));
                }
            },
        }
        let ghost acc_old = bytecode@;
        let ghost line_seq = line_bytes@;
        bytecode.append(&mut line_bytes);
        proof {
            if end < n {
                assert(compile_from(source@, line_start) == (match compile_from(
                    source@,
                    end + 1,
                ) {
                    Err(e) => Err::<Seq<u8>, (int, CompileIssue)>(e),
                    Ok(rest) => Ok::<Seq<u8>, (int, CompileIssue)>(line_seq + rest),
                }));
                if compile_from(source@, end + 1) is Ok {
                    let rest = compile_from(source@, end + 1)->Ok_0;
                    assert(acc_old + (line_seq + rest) =~= (acc_old + line_seq) + rest);
                }
                assert(compile_cont(source@, end + 1, bytecode@));
            } else {
                assert(compile_from(source@, line_start) == Ok::<Seq<u8>, (int, CompileIssue)>(
                    line_seq,
                ));
                assert(compile_from(source@, n as int) == Ok::<Seq<u8>, (int, CompileIssue)>(
                    Seq::<u8>::empty(),
                ));
                assert(acc_old + line_seq + Seq::<u8>::empty() =~= acc_old + line_seq);
                assert(compile_cont(source@, n as int, bytecode@));
            }
        }
        if end < n {
            i = end + 1;
        } else {
            i = n;
        }
    }
    proof {
        assert(compile_from(source@, n as int) == Ok::<Seq<u8>, (int, CompileIssue)>(
            Seq::<u8>::empty(),
        ));
        assert(bytecode@ + Seq::<u8>::empty() =~= bytecode@);
    }
    Ok(bytecode)
}

} // verus!

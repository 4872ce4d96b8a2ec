//! Lexical primitives: byte classes, literal tags, word breaks and numbers.
//!
//! A position is a byte offset into the whole input. Each specification
//! function says how many bytes a token takes at a position, and each scanner
//! returns the offset just past the token.

use vstd::prelude::*;
use vstd::slice::slice_subrange;

verus! {

/// Number of bytes from `pos` to the end of `s`; zero past the end.
pub open spec fn rest(s: Seq<u8>, pos: int) -> nat {
    if pos <= s.len() {
        (s.len() - pos) as nat
    } else {
        0
    }
}

/// The bytes that a name or a dotted path is made of: ASCII letters, digits,
/// underscore and dot.
pub open spec fn spec_is_word(b: u8) -> bool {
    'a' <= b <= 'z' || 'A' <= b <= 'Z' || '0' <= b <= '9' || b == '_' || b == '.'
}

/// Whether `b` may stand in a name or a dotted path.
pub fn is_word(b: u8) -> (r: bool)
    ensures
        r == spec_is_word(b),
{
    (b >= 0x61 && b <= 0x7a) || (b >= 0x41 && b <= 0x5a) || (b >= 0x30 && b <= 0x39) || b == 0x5f
        || b == 0x2e
}

/// The sets of bytes that the grammar takes in runs.
#[derive(Debug, Clone, Copy, PartialEq, Eq)]
pub enum ByteClass {
    /// Bytes of a name, see [`spec_is_word`].
    Word,
    /// `0` to `9`.
    Digit,
    /// `0` to `9`, `a` to `f`, `A` to `F`.
    HexDigit,
    /// Space, tab, carriage return and line feed.
    Space,
    /// Every byte but `]`: the bytes of an attribute's value.
    Value,
    /// `;` alone.
    Semicolon,
    /// Every byte but `"`: the bytes of an import's path.
    Path,
}

/// Whether byte `b` belongs to class `c`.
pub open spec fn in_class(c: ByteClass, b: u8) -> bool {
    match c {
        ByteClass::Word => spec_is_word(b),
        ByteClass::Digit => '0' <= b <= '9',
        ByteClass::HexDigit => '0' <= b <= '9' || 'a' <= b <= 'f' || 'A' <= b <= 'F',
        ByteClass::Space => b == ' ' || b == '\t' || b == '\r' || b == '\n',
        ByteClass::Value => b != ']',
        ByteClass::Semicolon => b == ';',
        ByteClass::Path => b != '"',
    }
}

/// Whether byte `b` belongs to class `c`.
pub fn has_class(c: ByteClass, b: u8) -> (r: bool)
    ensures
        r == in_class(c, b),
{
    match c {
        ByteClass::Word => is_word(b),
        ByteClass::Digit => b >= 0x30 && b <= 0x39,
        ByteClass::HexDigit => (b >= 0x30 && b <= 0x39) || (b >= 0x61 && b <= 0x66) || (b >= 0x41
            && b <= 0x46),
        ByteClass::Space => b == 0x20 || b == 0x09 || b == 0x0d || b == 0x0a,
        ByteClass::Value => b != 0x5d,
        ByteClass::Semicolon => b == 0x3b,
        ByteClass::Path => b != 0x22,
    }
}

/// Length of the longest run of bytes of class `c` that starts at `pos`.
pub open spec fn run_len(s: Seq<u8>, pos: int, c: ByteClass) -> nat
    decreases rest(s, pos),
{
    if 0 <= pos < s.len() && in_class(c, s[pos]) {
        1 + run_len(s, pos + 1, c)
    } else {
        0
    }
}

/// A run stays inside the input, holds bytes of its class only, and ends at
/// the end of the input or in front of a byte of another class.
pub proof fn lemma_run(s: Seq<u8>, pos: int, c: ByteClass)
    requires
        0 <= pos <= s.len(),
    ensures
        pos + run_len(s, pos, c) <= s.len(),
        forall|i: int| pos <= i < pos + run_len(s, pos, c) ==> in_class(c, #[trigger] s[i]),
        pos + run_len(s, pos, c) < s.len() ==> !in_class(c, s[pos + run_len(s, pos, c)]),
    decreases rest(s, pos),
{
    if pos < s.len() && in_class(c, s[pos]) {
        lemma_run(s, pos + 1, c);
    }
}

/// A run is the same whether it is scanned in the input from `from + k` or in
/// the input's tail after `from` from `k`.
pub proof fn lemma_run_tail(s: Seq<u8>, from: int, k: int, c: ByteClass)
    requires
        0 <= from <= s.len(),
        0 <= k,
    ensures
        run_len(s.subrange(from, s.len() as int), k, c) == run_len(s, from + k, c),
    decreases rest(s, from + k),
{
    let tail = s.subrange(from, s.len() as int);
    if from + k < s.len() {
        assert(tail[k] == s[from + k]);
        if in_class(c, s[from + k]) {
            lemma_run_tail(s, from, k + 1, c);
        }
    }
}

/// `nom::digit` on a byte slice. It takes the longest run of ASCII digits at
/// the front of `tail` and returns it; on an empty run (no digit in front, or
/// no input) it gives an error or asks for more input, returned as `None`.
#[verifier::external_body]
fn nom_digit<'a>(tail: &'a [u8]) -> (r: Option<&'a [u8]>)
    ensures
        match r {
            Some(run) => run@.len() > 0 && run@.len() == run_len(tail@, 0, ByteClass::Digit) && run@
                == tail@.take(run@.len() as int),
            None => run_len(tail@, 0, ByteClass::Digit) == 0,
        },
{
    match nom::digit(tail) {
        nom::IResult::Done(_, run) => Some(run),
        nom::IResult::Error(_) => None,
        nom::IResult::Incomplete(_) => None,
    }
}

/// `nom::hex_digit` on a byte slice. It takes the longest run of ASCII
/// hexadecimal digits (`0-9`, `a-f`, `A-F`) at the front of `tail` and returns
/// it; on an empty run it gives an error or asks for more input, returned as
/// `None`.
#[verifier::external_body]
fn nom_hex_digit<'a>(tail: &'a [u8]) -> (r: Option<&'a [u8]>)
    ensures
        match r {
            Some(run) => run@.len() > 0 && run@.len() == run_len(tail@, 0, ByteClass::HexDigit) && run@
                == tail@.take(run@.len() as int),
            None => run_len(tail@, 0, ByteClass::HexDigit) == 0,
        },
{
    match nom::hex_digit(tail) {
        nom::IResult::Done(_, run) => Some(run),
        nom::IResult::Error(_) => None,
        nom::IResult::Incomplete(_) => None,
    }
}

/// `nom::multispace` on a byte slice. It takes the longest run of spaces,
/// tabs, carriage returns and line feeds at the front of `tail` and returns
/// it; on an empty run it gives an error or asks for more input, returned as
/// `None`.
#[verifier::external_body]
fn nom_multispace<'a>(tail: &'a [u8]) -> (r: Option<&'a [u8]>)
    ensures
        match r {
            Some(run) => run@.len() > 0 && run@.len() == run_len(tail@, 0, ByteClass::Space) && run@
                == tail@.take(run@.len() as int),
            None => run_len(tail@, 0, ByteClass::Space) == 0,
        },
{
    match nom::multispace(tail) {
        nom::IResult::Done(_, run) => Some(run),
        nom::IResult::Error(_) => None,
        nom::IResult::Incomplete(_) => None,
    }
}

/// Scans the longest run of bytes of class `c` from `pos` and returns the
/// offset just past it (`pos` itself when the run is empty). Digits,
/// hexadecimal digits and white space are taken by the scanners of `nom`.
pub fn scan(input: &[u8], pos: usize, c: ByteClass) -> (end: usize)
    requires
        pos <= input.len(),
    ensures
        end == pos + run_len(input@, pos as int, c),
        end <= input.len(),
{
    proof {
        lemma_run(input@, pos as int, c);
        lemma_run_tail(input@, pos as int, 0, c);
    }
    match c {
        ByteClass::Digit => {
            match nom_digit(slice_subrange(input, pos, input.len())) {
                Some(run) => pos + run.len(),
                None => pos,
            }
        },
        ByteClass::HexDigit => {
            match nom_hex_digit(slice_subrange(input, pos, input.len())) {
                Some(run) => pos + run.len(),
                None => pos,
            }
        },
        ByteClass::Space => {
            match nom_multispace(slice_subrange(input, pos, input.len())) {
                Some(run) => pos + run.len(),
                None => pos,
            }
        },
        _ => {
            let mut i: usize = pos;
            while i < input.len() && has_class(c, input[i])
                invariant
                    pos <= i <= input.len(),
                    run_len(input@, pos as int, c) == (i - pos) + run_len(input@, i as int, c),
                decreases input.len() - i,
            {
                i += 1;
            }
            i
        },
    }
}

/// Whether the byte at `pos` is the character `c`.
pub open spec fn spec_char_at(s: Seq<u8>, pos: int, c: char) -> bool {
    0 <= pos < s.len() && s[pos] == c
}

/// Whether the byte at `pos` is the character `c`.
pub fn char_at(input: &[u8], pos: usize, c: char) -> (r: bool)
    ensures
        r == spec_char_at(input@, pos as int, c),
{
    pos < input.len() && input[pos] as char == c
}

/// Whether the characters of `t`, one byte each, stand at `pos`.
pub open spec fn spec_tag(s: Seq<u8>, pos: int, t: Seq<char>) -> bool {
    &&& 0 <= pos
    &&& pos + t.len() <= s.len()
    &&& forall|i: int| 0 <= i < t.len() ==> #[trigger] s[pos + i] == t[i]
}

/// Matches the literal `lit` at `pos` and returns the offset just past it.
pub fn tag(input: &[u8], pos: usize, lit: &str) -> (r: Option<usize>)
    requires
        pos <= input.len(),
    ensures
        match r {
            Some(end) => spec_tag(input@, pos as int, lit@) && end == pos + lit@.len(),
            None => !spec_tag(input@, pos as int, lit@),
        },
{
    let n: usize = lit.unicode_len();
    if n > input.len() - pos {
        return None;
    }
    let mut i: usize = 0;
    while i < n
        invariant
            i <= n,
            n == lit@.len(),
            pos + n <= input.len(),
            forall|j: int| 0 <= j < i ==> #[trigger] input@[pos + j] == lit@[j],
        decreases n - i,
    {
        if input[pos + i] as char != lit.get_char(i) {
            return None;
        }
        i += 1;
    }
    Some(pos + n)
}

/// Distance from `pos` to the first place at or after it where `t` stands;
/// `None` when `t` stands nowhere from `pos` on.
pub open spec fn spec_find(s: Seq<u8>, pos: int, t: Seq<char>) -> Option<nat>
    decreases rest(s, pos),
{
    if pos < 0 || pos + t.len() > s.len() {
        None
    } else if spec_tag(s, pos, t) {
        Some(0)
    } else {
        match spec_find(s, pos + 1, t) {
            Some(k) => Some(k + 1),
            None => None,
        }
    }
}

/// What [`spec_find`] returns is the first occurrence: the literal stands at
/// the distance found and at no smaller one, and `None` means that it stands
/// nowhere from `pos` on.
pub proof fn lemma_find_is_first(s: Seq<u8>, pos: int, t: Seq<char>)
    requires
        0 <= pos,
    ensures
        match spec_find(s, pos, t) {
            Some(k) => spec_tag(s, pos + k, t) && forall|j: int|
                pos <= j < pos + k ==> !spec_tag(s, j, t),
            None => forall|j: int| pos <= j ==> !spec_tag(s, j, t),
        },
    decreases rest(s, pos),
{
    if pos + t.len() <= s.len() && !spec_tag(s, pos, t) {
        lemma_find_is_first(s, pos + 1, t);
    }
}

/// If `t` stands nowhere in `from..upto`, searching from `from` finds what
/// searching from `upto` finds.
pub proof fn lemma_find_skip(s: Seq<u8>, from: int, upto: int, t: Seq<char>)
    requires
        0 <= from <= upto,
        upto == from || upto + t.len() <= s.len() + 1,
        forall|j: int| from <= j < upto ==> !spec_tag(s, j, t),
    ensures
        spec_find(s, from, t) == match spec_find(s, upto, t) {
            Some(k) => Some((k + upto - from) as nat),
            None => None,
        },
    decreases upto - from,
{
    if from < upto {
        lemma_find_skip(s, from + 1, upto, t);
    }
}

/// Searches for the literal `lit` from `pos` on and returns the offset of its
/// first occurrence.
pub fn find(input: &[u8], pos: usize, lit: &str) -> (r: Option<usize>)
    requires
        pos <= input.len(),
    ensures
        match r {
            Some(at) => spec_find(input@, pos as int, lit@) == Some((at - pos) as nat) && pos <= at
                && at + lit@.len() <= input.len(),
            None => spec_find(input@, pos as int, lit@) is None,
        },
{
    let n: usize = lit.unicode_len();
    if n > input.len() - pos {
        return None;
    }
    let last: usize = input.len() - n;
    let mut i: usize = pos;
    while i <= last
        invariant
            pos <= i <= last + 1,
            last + n == input.len(),
            n == lit@.len(),
            forall|j: int| pos <= j < i ==> !spec_tag(input@, j, lit@),
        decreases last + 1 - i,
    {
        if tag(input, i, lit).is_some() {
            proof {
                lemma_find_skip(input@, pos as int, i as int, lit@);
            }
            return Some(i);
        }
        i += 1;
    }
    proof {
        lemma_find_skip(input@, pos as int, last + 1, lit@);
    }
    None
}

/// Distance from `pos` to just past the first place at or after it where
/// `t` stands; `None` when `t` stands nowhere from `pos` on.
pub open spec fn spec_past(s: Seq<u8>, pos: int, t: Seq<char>) -> Option<nat> {
    match spec_find(s, pos, t) {
        Some(k) => Some(k + t.len()),
        None => None,
    }
}

/// Searches for the literal `lit` from `pos` on and returns the offset just
/// past its first occurrence.
pub fn past(input: &[u8], pos: usize, lit: &str) -> (r: Option<usize>)
    requires
        pos <= input.len(),
    ensures
        match r {
            Some(end) => spec_past(input@, pos as int, lit@) == Some((end - pos) as nat) && pos
                + lit@.len() <= end <= input.len(),
            None => spec_past(input@, pos as int, lit@) is None,
        },
{
    match find(input, pos, lit) {
        Some(at) => {
            proof {
                lemma_find_is_first(input@, pos as int, lit@);
            }
            tag(input, at, lit)
        },
        None => None,
    }
}

/// Length of the `//` comment at `pos`, up to and including the line feed
/// that ends it. A `//` that no line feed follows is no comment.
pub open spec fn line_comment_len(s: Seq<u8>, pos: int) -> Option<nat> {
    if spec_char_at(s, pos, '/') && spec_char_at(s, pos + 1, '/') {
        match spec_find(s, pos + 2, "\n"@) {
            Some(k) => Some(2 + k + "\n"@.len()),
            None => None,
        }
    } else {
        None
    }
}

/// Length of the `/* */` comment at `pos`. The first `*/` ends it: comments do
/// not nest. A `/*` that no `*/` follows is no comment.
pub open spec fn block_comment_len(s: Seq<u8>, pos: int) -> Option<nat> {
    if spec_char_at(s, pos, '/') && spec_char_at(s, pos + 1, '*') {
        match spec_find(s, pos + 2, "*/"@) {
            Some(k) => Some(2 + k + "*/"@.len()),
            None => None,
        }
    } else {
        None
    }
}

/// Length of the word break at `pos`: a run of white space, else a line
/// comment, else a block comment. `None` when none of them stands there.
pub open spec fn br_len(s: Seq<u8>, pos: int) -> Option<nat> {
    if run_len(s, pos, ByteClass::Space) > 0 {
        Some(run_len(s, pos, ByteClass::Space))
    } else if line_comment_len(s, pos) is Some {
        line_comment_len(s, pos)
    } else {
        block_comment_len(s, pos)
    }
}

/// Length of all the word breaks that follow one another from `pos`.
#[verifier::opaque]
pub open spec fn breaks_len(s: Seq<u8>, pos: int) -> nat
    decreases rest(s, pos),
{
    match br_len(s, pos) {
        Some(n) => n + breaks_len(s, pos + n),
        None => 0,
    }
}

/// Offset just past the word breaks at `pos`.
pub open spec fn skip_breaks(s: Seq<u8>, pos: int) -> int {
    pos + breaks_len(s, pos)
}

/// Matches a comment at `pos` that `/` and `second` begin and the first
/// `close` after them ends.
fn comment(input: &[u8], pos: usize, second: char, close: &str) -> (r: Option<usize>)
    requires
        pos <= input.len(),
    ensures
        match r {
            Some(end) => spec_char_at(input@, pos as int, '/') && spec_char_at(
                input@,
                pos + 1,
                second,
            ) && spec_find(input@, pos + 2, close@) == Some((end - pos - 2 - close@.len()) as nat)
                && pos + 2 + close@.len() <= end <= input.len(),
            None => !spec_char_at(input@, pos as int, '/') || !spec_char_at(
                input@,
                pos + 1,
                second,
            ) || spec_find(input@, pos + 2, close@) is None,
        },
{
    if !char_at(input, pos, '/') || !char_at(input, pos + 1, second) {
        return None;
    }
    match find(input, pos + 2, close) {
        None => None,
        Some(at) => {
            proof {
                lemma_find_is_first(input@, pos + 2, close@);
            }
            tag(input, at, close)
        },
    }
}

/// Matches one word break at `pos` and returns the offset just past it.
pub fn br(input: &[u8], pos: usize) -> (r: Option<usize>)
    requires
        pos <= input.len(),
    ensures
        match r {
            Some(end) => br_len(input@, pos as int) == Some((end - pos) as nat) && pos <= end
                <= input.len(),
            None => br_len(input@, pos as int) is None,
        },
{
    let spaces: usize = scan(input, pos, ByteClass::Space);
    if spaces > pos {
        return Some(spaces);
    }
    match comment(input, pos, '/', "\n") {
        Some(end) => Some(end),
        None => comment(input, pos, '*', "*/"),
    }
}

/// Skips every word break at `pos` and returns the offset of what follows.
pub fn breaks(input: &[u8], pos: usize) -> (end: usize)
    requires
        pos <= input.len(),
    ensures
        end == skip_breaks(input@, pos as int),
        pos <= end <= input.len(),
{
    let mut p: usize = pos;
    loop
        invariant_except_break
            breaks_len(input@, pos as int) == (p - pos) + breaks_len(input@, p as int),
        invariant
            pos <= p <= input.len(),
        ensures
            breaks_len(input@, pos as int) == p - pos,
            pos <= p <= input.len(),
        decreases input.len() - p,
    {
        proof {
            reveal_with_fuel(breaks_len, 1);
        }
        match br(input, p) {
            Some(end) => {
                p = end;
            },
            None => {
                break ;
            },
        }
    }
    p
}

/// Offset past the word breaks at `pos`, of which there must be at least one.
pub open spec fn skip_breaks1(s: Seq<u8>, pos: int) -> Option<int> {
    if breaks_len(s, pos) > 0 {
        Some(pos + breaks_len(s, pos))
    } else {
        None
    }
}

/// Skips the word breaks at `pos`, of which there must be at least one.
pub fn breaks1(input: &[u8], pos: usize) -> (r: Option<usize>)
    requires
        pos <= input.len(),
    ensures
        match r {
            Some(end) => skip_breaks1(input@, pos as int) == Some(end as int) && pos < end
                <= input.len(),
            None => skip_breaks1(input@, pos as int) is None,
        },
{
    let end: usize = breaks(input, pos);
    if end > pos {
        Some(end)
    } else {
        None
    }
}

/// Value of an ASCII hexadecimal digit; zero for any other byte.
pub open spec fn digit_value(b: u8) -> nat {
    if '0' <= b <= '9' {
        (b - '0') as nat
    } else if 'a' <= b <= 'f' {
        (b - 'a' + 10) as nat
    } else if 'A' <= b <= 'F' {
        (b - 'A' + 10) as nat
    } else {
        0
    }
}

/// The number that `digits` writes in base `radix`, first digit foremost.
pub open spec fn number_value(digits: Seq<u8>, radix: nat) -> nat
    decreases digits.len(),
{
    if digits.len() == 0 {
        0
    } else {
        number_value(digits.drop_last(), radix) * radix + digit_value(digits.last())
    }
}

/// More digits never write a smaller number.
pub proof fn lemma_number_grows(digits: Seq<u8>, k: int, radix: nat)
    requires
        0 <= k <= digits.len(),
        radix >= 1,
    ensures
        number_value(digits.subrange(0, k), radix) <= number_value(digits, radix),
    decreases digits.len() - k,
{
    if k == digits.len() {
        assert(digits.subrange(0, k) =~= digits);
    } else {
        let longer = digits.subrange(0, k + 1);
        assert(longer.drop_last() =~= digits.subrange(0, k));
        let high = number_value(digits.subrange(0, k), radix);
        assert(high <= high * radix) by (nonlinear_arith)
            requires
                radix >= 1,
        ;
        lemma_number_grows(digits, k + 1, radix);
    }
}

/// The bytes of `s` from `from` up to `to`.
pub open spec fn bytes_at(s: Seq<u8>, from: int, to: int) -> Seq<u8> {
    s.subrange(from, to)
}

/// Reads the bytes `from..to` as the digits of a number in base `radix`, and
/// returns the number where it fits a signed 32-bit integer.
pub fn number(input: &[u8], from: usize, to: usize, radix: u32) -> (r: Option<i32>)
    requires
        from <= to <= input.len(),
        radix >= 1,
    ensures
        match r {
            Some(v) => v == number_value(bytes_at(input@, from as int, to as int), radix as nat),
            None => number_value(bytes_at(input@, from as int, to as int), radix as nat)
                > i32::MAX,
        },
{
    let ghost digits = bytes_at(input@, from as int, to as int);
    let mut acc: u32 = 0;
    let mut i: usize = from;
    assert(digits.subrange(0, 0).len() == 0);
    while i < to
        invariant
            from <= i <= to <= input.len(),
            radix >= 1,
            digits == bytes_at(input@, from as int, to as int),
            acc == number_value(digits.subrange(0, i - from), radix as nat),
            acc <= i32::MAX,
        decreases to - i,
    {
        let b: u8 = input[i];
        let d: u32 = if b >= 0x30 && b <= 0x39 {
            (b - 0x30) as u32
        } else if b >= 0x61 && b <= 0x66 {
            (b - 0x61 + 10) as u32
        } else if b >= 0x41 && b <= 0x46 {
            (b - 0x41 + 10) as u32
        } else {
            0
        };
        proof {
            let longer = digits.subrange(0, i + 1 - from);
            assert(longer.drop_last() =~= digits.subrange(0, i - from));
            assert(longer.last() == b);
            assert(d == digit_value(b));
            assert(number_value(longer, radix as nat) == acc * radix + d);
            lemma_number_grows(digits, i + 1 - from, radix as nat);
            assert(acc * radix <= 0x7fff_ffff * 0xffff_ffff) by (nonlinear_arith)
                requires
                    acc <= 0x7fff_ffff,
                    radix <= 0xffff_ffff,
            ;
        }
        let next: u64 = acc as u64 * radix as u64 + d as u64;
        if next > 0x7fff_ffff {
            return None;
        }
        acc = next as u32;
        i += 1;
    }
    assert(digits.subrange(0, to - from) =~= digits);
    Some(acc as i32)
}

/// Once the word breaks at `pos` are skipped, no word break follows.
pub proof fn lemma_breaks_are_maximal(s: Seq<u8>, pos: int)
    ensures
        br_len(s, skip_breaks(s, pos)) is None,
    decreases rest(s, pos),
{
    reveal_with_fuel(breaks_len, 1);
    match br_len(s, pos) {
        Some(n) => {
            lemma_breaks_are_maximal(s, pos + n);
        },
        None => {},
    }
}

/// A decimal literal at `pos`: a run of at least one digit whose value fits a
/// signed 32-bit integer. Gives the value and the length of the run.
#[verifier::opaque]
pub open spec fn spec_integer(s: Seq<u8>, pos: int) -> Option<(i32, nat)> {
    let n = run_len(s, pos, ByteClass::Digit);
    let value = number_value(bytes_at(s, pos, pos + n), 10);
    if n > 0 && value <= i32::MAX {
        Some((value as i32, n))
    } else {
        None
    }
}

/// A hexadecimal literal at `pos`: `0x` and a run of at least one hexadecimal
/// digit whose value fits a signed 32-bit integer. Gives the value and the
/// length of the literal.
#[verifier::opaque]
pub open spec fn spec_hex_integer(s: Seq<u8>, pos: int) -> Option<(i32, nat)> {
    let from = pos + "0x"@.len();
    let n = run_len(s, from, ByteClass::HexDigit);
    let value = number_value(bytes_at(s, from, from + n), 16);
    if spec_tag(s, pos, "0x"@) && n > 0 && value <= i32::MAX {
        Some((value as i32, "0x"@.len() + n))
    } else {
        None
    }
}

/// How an executable parser's result `got`, a value and the offset past it,
/// says what the grammar gives at `pos`: the value's model and the number of
/// bytes taken.
pub open spec fn agrees<T: DeepView>(
    got: Option<(T, usize)>,
    input: Seq<u8>,
    pos: usize,
    want: Option<(T::V, nat)>,
) -> bool {
    match got {
        Some((value, end)) => want == Some((value.deep_view(), (end - pos) as nat)) && pos <= end
            <= input.len(),
        None => want is None,
    }
}

/// Parses a decimal literal at `pos`.
pub fn integer(input: &[u8], pos: usize) -> (r: Option<(i32, usize)>)
    requires
        pos <= input.len(),
    ensures
        agrees(r, input@, pos, spec_integer(input@, pos as int)),
{
    proof {
        reveal(spec_integer);
    }
    let end: usize = scan(input, pos, ByteClass::Digit);
    if end == pos {
        return None;
    }
    match number(input, pos, end, 10) {
        Some(v) => Some((v, end)),
        None => None,
    }
}

/// Parses a hexadecimal literal at `pos`.
pub fn hex_integer(input: &[u8], pos: usize) -> (r: Option<(i32, usize)>)
    requires
        pos <= input.len(),
    ensures
        agrees(r, input@, pos, spec_hex_integer(input@, pos as int)),
{
    proof {
        reveal(spec_hex_integer);
    }
    let from: usize = match tag(input, pos, "0x") {
        Some(from) => from,
        None => {
            return None;
        },
    };
    let end: usize = scan(input, from, ByteClass::HexDigit);
    if end == from {
        return None;
    }
    match number(input, from, end, 16) {
        Some(v) => Some((v, end)),
        None => None,
    }
}

} // verus!

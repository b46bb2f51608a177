//! The text that a GRBL-style controller takes: numbers, tokens and the
//! line-by-line scan of a program.
use vstd::prelude::*;
use crate::text::{decimal, is_digit, is_letter, lower, upper, white_space};

verus! {

/// Whether `s` from index `from` on is `word`, in upper or lower case.
pub open spec fn spells(s: Seq<char>, from: int, word: Seq<char>) -> bool {
    &&& s.len() - from == word.len()
    &&& forall|i: int| 0 <= i < word.len() ==> lower(#[trigger] s[from + i]) == word[i]
}

/// The index behind the run of digits that begins at index `i`.
pub open spec fn digits_end(s: Seq<char>, i: int) -> int
    decreases s.len() - i,
{
    if 0 <= i < s.len() && is_digit(s[i]) {
        digits_end(s, i + 1)
    } else {
        i
    }
}

/// Whether an exponent stands from index `i` to the end: the letter `e`, a
/// sign or none, and at least one digit.
pub open spec fn exponent_ok(s: Seq<char>, i: int) -> bool {
    let j = if i + 1 < s.len() && (s[i + 1] == '+' || s[i + 1] == '-') {
        i + 2
    } else {
        i + 1
    };
    (s[i] == 'e' || s[i] == 'E') && digits_end(s, j) > j && digits_end(s, j) == s.len()
}

/// Whether a decimal number stands from index `from` to the end: digits
/// with at most one point among them, at least one digit in all, and an
/// exponent or none.
pub open spec fn decimal_ok(s: Seq<char>, from: int) -> bool {
    let i1 = digits_end(s, from);
    let has_dot = i1 < s.len() && s[i1] == '.';
    let i2 = if has_dot {
        digits_end(s, i1 + 1)
    } else {
        i1
    };
    let digits = (i1 - from) + (if has_dot {
        i2 - (i1 + 1)
    } else {
        0
    });
    digits > 0 && (i2 == s.len() || exponent_ok(s, i2))
}

/// The index behind the sign with which `s` begins, if it begins with one.
pub open spec fn after_sign(s: Seq<char>) -> int {
    if s.len() > 0 && (s[0] == '+' || s[0] == '-') {
        1
    } else {
        0
    }
}

/// Whether `s` is the text of a number: a sign or none, and then `inf`,
/// `infinity` or `nan` in any case, or a decimal number.
pub open spec fn is_number(s: Seq<char>) -> bool {
    let from = after_sign(s);
    ||| spells(s, from, seq!['i', 'n', 'f'])
    ||| spells(s, from, seq!['i', 'n', 'f', 'i', 'n', 'i', 't', 'y'])
    ||| spells(s, from, seq!['n', 'a', 'n'])
    ||| decimal_ok(s, from)
}

/// Whether `rest` is the number of a G code that the controller takes.
pub open spec fn g_number_ok(rest: Seq<char>) -> bool {
    ||| rest == seq!['0']
    ||| rest == seq!['1']
    ||| rest == seq!['4']
    ||| rest == seq!['2', '1']
    ||| rest == seq!['9', '0']
    ||| rest == seq!['9', '4']
}

/// Whether `rest` is the number of an M code that the controller takes.
pub open spec fn m_number_ok(rest: Seq<char>) -> bool {
    ||| rest == seq!['2']
    ||| rest == seq!['3']
    ||| rest == seq!['5']
}

/// Whether `letter` is an address whose value is a number.
pub open spec fn takes_number(letter: char) -> bool {
    letter == 'X' || letter == 'Y' || letter == 'Z' || letter == 'F' || letter == 'S' || letter
        == 'P'
}

/// What is wrong with a token, if anything, on a line that has had the
/// addresses `seen`.
pub open spec fn token_fault(token: Seq<char>, seen: Seq<char>) -> Option<Seq<char>> {
    if token.len() == 0 {
        None
    } else {
        let letter = upper(token[0]);
        let rest = token.subrange(1, token.len() as int);
        if !is_letter(token[0]) {
            Some("invalid token '"@ + token + "'"@)
        } else if letter != 'G' && seen.contains(letter) {
            Some("repeated letter '"@ + seq![letter] + "'"@)
        } else if letter == 'G' {
            if g_number_ok(rest) {
                None
            } else {
                Some("unsupported G-code "@ + rest)
            }
        } else if letter == 'M' {
            if m_number_ok(rest) {
                None
            } else {
                Some("unsupported M-code "@ + rest)
            }
        } else if takes_number(letter) {
            if is_number(rest) {
                None
            } else {
                Some("expected numeric value after "@ + seq![letter])
            }
        } else {
            Some("unsupported address "@ + seq![letter])
        }
    }
}

/// The addresses seen on a line after a token without fault.
pub open spec fn seen_after(token: Seq<char>, seen: Seq<char>) -> Seq<char> {
    if token.len() > 0 && upper(token[0]) != 'G' {
        seen.push(upper(token[0]))
    } else {
        seen
    }
}

/// A fault with the number of its line in front.
pub open spec fn line_message(line: nat, fault: Seq<char>) -> Seq<char> {
    "line "@ + decimal(line) + ": "@ + fault
}

/// Where the scan of a program stands.
pub struct Scan {
    /// The number of the line, counted from one.
    pub line: nat,
    /// Whether a comment is open.
    pub in_comment: bool,
    /// The characters of the token that is being read.
    pub token: Seq<char>,
    /// The addresses other than G that the line has had.
    pub seen: Seq<char>,
    /// The message of the first fault.
    pub fault: Option<Seq<char>>,
    /// Whether the word that ends a program has been read.
    pub ended: bool,
}

/// Whether a token is the word that ends a program: the letter M, in upper
/// or lower case, and the number 2.
pub open spec fn is_end(token: Seq<char>) -> bool {
    token.len() == 2 && upper(token[0]) == 'M' && token[1] == '2'
}

/// The start of line `line`, with the end of the program read before or
/// not.
pub open spec fn line_start(line: nat, ended: bool) -> Scan {
    Scan { line, in_comment: false, token: Seq::empty(), seen: Seq::empty(), fault: None, ended }
}

/// The scan after the token that was being read has ended: the token has a
/// fault, or its address counts as seen and, if the token is the word M2,
/// the end of the program as read.
pub open spec fn flush(st: Scan) -> Scan {
    if st.fault is Some {
        st
    } else {
        match token_fault(st.token, st.seen) {
            Some(fault) => Scan { fault: Some(line_message(st.line, fault)), ..st },
            None => Scan {
                token: Seq::empty(),
                seen: seen_after(st.token, st.seen),
                ended: st.ended || is_end(st.token),
                ..st
            },
        }
    }
}

/// The scan after one more character. A line feed ends the token and the
/// line, and with the line an open comment. Inside a comment only the
/// closing parenthesis counts. Outside, an opening parenthesis opens a
/// comment, white space ends the token, and any other character belongs to
/// the token.
pub open spec fn step(st: Scan, c: char) -> Scan {
    if st.fault is Some {
        st
    } else if c == '\n' {
        if flush(st).fault is Some {
            flush(st)
        } else {
            line_start(st.line + 1, flush(st).ended)
        }
    } else if st.in_comment {
        Scan { in_comment: c != ')', ..st }
    } else if c == '(' {
        Scan { in_comment: true, ..st }
    } else if white_space(c) {
        flush(st)
    } else {
        Scan { token: st.token.push(c), ..st }
    }
}

/// The scan after the characters of `s`.
pub open spec fn run(st: Scan, s: Seq<char>) -> Scan
    decreases s.len(),
{
    if s.len() == 0 {
        st
    } else {
        step(run(st, s.drop_last()), s.last())
    }
}

/// The scan of a whole program.
pub open spec fn scan_all(text: Seq<char>) -> Scan {
    flush(run(line_start(1, false), text))
}

/// Whether `text` holds nothing but white space.
pub open spec fn all_white(text: Seq<char>) -> bool {
    forall|i: int| 0 <= i < text.len() ==> white_space(#[trigger] text[i])
}

/// What is wrong with a program, if anything: it is empty, it has a token
/// with a fault (the first one counts), or none of its tokens is the word
/// M2 that ends a program. What stands in a comment is no token.
pub open spec fn validation_fault(text: Seq<char>) -> Option<Seq<char>> {
    if all_white(text) {
        Some("program is empty"@)
    } else if scan_all(text).fault is Some {
        scan_all(text).fault
    } else if !scan_all(text).ended {
        Some("program missing M2 end"@)
    } else {
        None
    }
}

/// Scanning one sequence after another is scanning both in turn.
pub proof fn lemma_run_concat(st: Scan, a: Seq<char>, b: Seq<char>)
    ensures
        run(st, a + b) == run(run(st, a), b),
    decreases b.len(),
{
    if b.len() == 0 {
        assert(a + b =~= a);
    } else {
        assert((a + b).drop_last() =~= a + b.drop_last());
        assert((a + b).last() == b.last());
        lemma_run_concat(st, a, b.drop_last());
    }
}

/// Scanning one more character is one more step.
pub proof fn lemma_run_push(st: Scan, s: Seq<char>, c: char)
    ensures
        run(st, s.push(c)) == step(run(st, s), c),
        run(st, seq![c]) == step(st, c),
{
    assert(s.push(c).drop_last() =~= s);
    assert(seq![c].drop_last() =~= Seq::<char>::empty());
    assert(seq![c].last() == c);
    assert(run(st, Seq::<char>::empty()) == st);
    assert(run(st, seq![c]) == step(run(st, seq![c].drop_last()), seq![c].last()));
}

/// After a fault the scan stands still.
pub proof fn lemma_fault_sticks(st: Scan, s: Seq<char>)
    requires
        st.fault is Some,
    ensures
        run(st, s) == st,
        flush(st) == st,
    decreases s.len(),
{
    if s.len() > 0 {
        lemma_fault_sticks(st, s.drop_last());
    }
}

} // verus!

//! The post for GRBL-style controllers and the validator of its programs.
use vstd::prelude::*;
use crate::error::{CamError, CamErrorView, CamResult};
use crate::gcode::{
    block_added, dwell_block, header_block, m_word, motion_effect, plain_block, program_text,
    spindle_effect, BlockView, MotionMode, Writer, WriterView,
};
use crate::geometry::Point3;
use crate::ops::types::Tool;
use crate::post::acceptance::{
    accepted, end_block, lemma_accepted_push, lemma_fixed_blocks_accepted,
    lemma_motion_block_accepted, lemma_posted_program_validates, name_block, name_passes,
};
use crate::simulate::below;
use crate::toolpath::{last_position_of, ToolMotion, Toolpath};
use crate::units::{abs_int, POSITION_EPS};
use crate::post::grammar::{
    all_white, decimal_ok, digits_end, exponent_ok, flush, g_number_ok, is_end, is_number,
    lemma_fault_sticks, lemma_run_concat, lemma_run_push, line_message, line_start, m_number_ok,
    run, scan_all, seen_after, spells, step, token_fault, validation_fault, Scan,
};
use crate::text::{
    chars_of, is_ascii_letter, is_letter, is_whitespace, lower, push_chars, push_decimal, to_lower,
    to_upper, upper, white_space,
};

verus! {

fn digits_end_of(s: &Vec<char>, from: usize) -> (j: usize)
    requires
        from <= s.len(),
    ensures
        j == digits_end(s@, from as int),
        from <= j <= s.len(),
{
    let mut j = from;
    while j < s.len() && '0' <= s[j] && s[j] <= '9'
        invariant
            from <= j <= s.len(),
            digits_end(s@, from as int) == digits_end(s@, j as int),
        decreases s.len() - j,
    {
        j = j + 1;
    }
    j
}

fn spells_word(s: &Vec<char>, from: usize, word: &Vec<char>) -> (b: bool)
    requires
        from <= s.len(),
    ensures
        b == spells(s@, from as int, word@),
{
    if s.len() - from != word.len() {
        return false;
    }
    let mut i: usize = 0;
    while i < word.len()
        invariant
            from <= s.len(),
            s.len() - from == word.len(),
            i <= word.len(),
            forall|k: int| 0 <= k < i ==> lower(#[trigger] s@[from + k]) == word@[k],
        decreases word.len() - i,
    {
        if to_lower(s[from + i]) != word[i] {
            return false;
        }
        i = i + 1;
    }
    true
}

fn exponent_holds(s: &Vec<char>, i: usize) -> (b: bool)
    requires
        i < s.len(),
    ensures
        b == exponent_ok(s@, i as int),
{
    if s[i] != 'e' && s[i] != 'E' {
        return false;
    }
    let j = if i + 1 < s.len() && (s[i + 1] == '+' || s[i + 1] == '-') {
        i + 2
    } else {
        i + 1
    };
    let end = digits_end_of(s, j);
    end > j && end == s.len()
}

fn decimal_holds(s: &Vec<char>, from: usize) -> (b: bool)
    requires
        from <= s.len(),
    ensures
        b == decimal_ok(s@, from as int),
{
    let i1 = digits_end_of(s, from);
    let has_dot = i1 < s.len() && s[i1] == '.';
    let i2 = if has_dot {
        digits_end_of(s, i1 + 1)
    } else {
        i1
    };
    let digits = (i1 - from) + (if has_dot {
        i2 - (i1 + 1)
    } else {
        0
    });
    if digits == 0 {
        return false;
    }
    if i2 == s.len() {
        return true;
    }
    exponent_holds(s, i2)
}

/// Whether `s` is the text of a number.
pub fn parses_as_number(s: &Vec<char>) -> (b: bool)
    ensures
        b == is_number(s@),
{
    let from: usize = if s.len() > 0 && (s[0] == '+' || s[0] == '-') {
        1
    } else {
        0
    };
    let inf = vec!['i', 'n', 'f'];
    let infinity = vec!['i', 'n', 'f', 'i', 'n', 'i', 't', 'y'];
    let nan = vec!['n', 'a', 'n'];
    assert(inf@ =~= seq!['i', 'n', 'f']);
    assert(infinity@ =~= seq!['i', 'n', 'f', 'i', 'n', 'i', 't', 'y']);
    assert(nan@ =~= seq!['n', 'a', 'n']);
    spells_word(s, from, &inf) || spells_word(s, from, &infinity) || spells_word(s, from, &nan)
        || decimal_holds(s, from)
}

fn same_chars(a: &Vec<char>, b: &Vec<char>) -> (r: bool)
    ensures
        r == (a@ == b@),
{
    if a.len() != b.len() {
        return false;
    }
    let mut i: usize = 0;
    while i < a.len()
        invariant
            a.len() == b.len(),
            i <= a.len(),
            forall|k: int| 0 <= k < i ==> a@[k] == b@[k],
        decreases a.len() - i,
    {
        if a[i] != b[i] {
            return false;
        }
        i = i + 1;
    }
    assert(a@ =~= b@);
    true
}

/// The error for a fault on line `line`.
fn line_fault(line: u128, head: &str, chars: &Vec<char>) -> (e: CamError)
    ensures
        e@ == CamErrorView::InvalidInput(line_message(line as nat, head@ + chars@)),
{
    let mut message = String::from_str("line ");
    push_decimal(&mut message, line);
    message.append(": ");
    message.append(head);
    push_chars(&mut message, chars, 0, chars.len());
    assert(chars@.subrange(0, chars.len() as int) =~= chars@);
    assert(message@ =~= line_message(line as nat, head@ + chars@));
    CamError::InvalidInput(message)
}

/// Checks the number of a G code.
pub fn validate_g_code(rest: &Vec<char>, line: u128) -> (r: CamResult<()>)
    ensures
        match r {
            Ok(_) => g_number_ok(rest@),
            Err(e) => !g_number_ok(rest@) && e@ == CamErrorView::InvalidInput(
                line_message(line as nat, "unsupported G-code "@ + rest@),
            ),
        },
{
    let c0 = vec!['0'];
    let c1 = vec!['1'];
    let c4 = vec!['4'];
    let c21 = vec!['2', '1'];
    let c90 = vec!['9', '0'];
    let c94 = vec!['9', '4'];
    assert(c0@ =~= seq!['0'] && c1@ =~= seq!['1'] && c4@ =~= seq!['4']);
    assert(c21@ =~= seq!['2', '1'] && c90@ =~= seq!['9', '0'] && c94@ =~= seq!['9', '4']);
    if same_chars(rest, &c0) || same_chars(rest, &c1) || same_chars(rest, &c4) || same_chars(
        rest,
        &c21,
    ) || same_chars(rest, &c90) || same_chars(rest, &c94) {
        Ok(())
    } else {
        Err(line_fault(line, "unsupported G-code ", rest))
    }
}

/// Checks the number of an M code.
pub fn validate_m_code(rest: &Vec<char>, line: u128) -> (r: CamResult<()>)
    ensures
        match r {
            Ok(_) => m_number_ok(rest@),
            Err(e) => !m_number_ok(rest@) && e@ == CamErrorView::InvalidInput(
                line_message(line as nat, "unsupported M-code "@ + rest@),
            ),
        },
{
    let c2 = vec!['2'];
    let c3 = vec!['3'];
    let c5 = vec!['5'];
    assert(c2@ =~= seq!['2'] && c3@ =~= seq!['3'] && c5@ =~= seq!['5']);
    if same_chars(rest, &c2) || same_chars(rest, &c3) || same_chars(rest, &c5) {
        Ok(())
    } else {
        Err(line_fault(line, "unsupported M-code ", rest))
    }
}

/// The token without its first character.
fn rest_of(token: &Vec<char>) -> (rest: Vec<char>)
    requires
        token.len() > 0,
    ensures
        rest@ == token@.subrange(1, token.len() as int),
{
    let mut rest: Vec<char> = Vec::new();
    let mut i: usize = 1;
    while i < token.len()
        invariant
            1 <= i <= token.len(),
            rest@ == token@.subrange(1, i as int),
        decreases token.len() - i,
    {
        rest.push(token[i]);
        assert(rest@ =~= token@.subrange(1, i + 1));
        i = i + 1;
    }
    rest
}

fn holds(seen: &Vec<char>, letter: char) -> (b: bool)
    ensures
        b == seen@.contains(letter),
{
    let mut i: usize = 0;
    while i < seen.len()
        invariant
            i <= seen.len(),
            forall|k: int| 0 <= k < i ==> seen@[k] != letter,
        decreases seen.len() - i,
    {
        if seen[i] == letter {
            return true;
        }
        i = i + 1;
    }
    false
}

/// Checks one token of line `line` and records its address in
/// `seen_letters`.
pub fn validate_token(token: &Vec<char>, line: u128, seen_letters: &mut Vec<char>) -> (r: CamResult<
    (),
>)
    ensures
        match r {
            Ok(_) => token_fault(token@, old(seen_letters)@) is None && final(seen_letters)@
                == seen_after(token@, old(seen_letters)@),
            Err(e) => token_fault(token@, old(seen_letters)@) is Some && e@
                == CamErrorView::InvalidInput(
                line_message(line as nat, token_fault(token@, old(seen_letters)@)->Some_0),
            ) && final(seen_letters)@ == (if is_letter(token@[0]) && !old(seen_letters)@.contains(
                upper(token@[0]),
            ) {
                seen_after(token@, old(seen_letters)@)
            } else {
                old(seen_letters)@
            }),
        },
{
    if token.len() == 0 {
        return Ok(());
    }
    let first = token[0];
    if !is_ascii_letter(first) {
        let mut shown: Vec<char> = Vec::new();
        let mut i: usize = 0;
        while i < token.len()
            invariant
                i <= token.len(),
                shown@ == token@.subrange(0, i as int),
            decreases token.len() - i,
        {
            shown.push(token[i]);
            assert(shown@ =~= token@.subrange(0, i + 1));
            i = i + 1;
        }
        shown.push('\'');
        assert(token@.subrange(0, token.len() as int) =~= token@);
        assert("'"@ =~= seq!['\'']) by {
            reveal_strlit("'");
        }
        assert("invalid token '"@ + shown@ =~= "invalid token '"@ + token@ + "'"@);
        return Err(line_fault(line, "invalid token '", &shown));
    }
    let letter = to_upper(first);
    if letter != 'G' && holds(seen_letters, letter) {
        let shown = vec![letter, '\''];
        assert("'"@ =~= seq!['\'']) by {
            reveal_strlit("'");
        }
        assert("repeated letter '"@ + shown@ =~= "repeated letter '"@ + seq![letter] + "'"@);
        return Err(line_fault(line, "repeated letter '", &shown));
    }
    if letter != 'G' {
        seen_letters.push(letter);
    }
    let rest = rest_of(token);
    if letter == 'G' {
        validate_g_code(&rest, line)
    } else if letter == 'M' {
        validate_m_code(&rest, line)
    } else if letter == 'X' || letter == 'Y' || letter == 'Z' || letter == 'F' || letter == 'S'
        || letter == 'P' {
        if parses_as_number(&rest) {
            Ok(())
        } else {
            let shown = vec![letter];
            assert(shown@ =~= seq![letter]);
            Err(line_fault(line, "expected numeric value after ", &shown))
        }
    } else {
        let shown = vec![letter];
        assert(shown@ =~= seq![letter]);
        Err(line_fault(line, "unsupported address ", &shown))
    }
}

/// A prefix that holds ink makes the whole text hold ink.
proof fn lemma_ink_in_prefix(text: Seq<char>, i: int)
    requires
        0 <= i <= text.len(),
        !all_white(text.subrange(0, i)),
    ensures
        !all_white(text),
{
    let p = text.subrange(0, i);
    let k = choose|k: int| 0 <= k < p.len() && !white_space(#[trigger] p[k]);
    assert(text[k] == p[k]);
}

/// How blankness grows with one more character.
proof fn lemma_flags_step(text: Seq<char>, i: int)
    requires
        0 <= i < text.len(),
    ensures
        all_white(text.subrange(0, i + 1)) <==> all_white(text.subrange(0, i)) && white_space(
            text[i],
        ),
{
    let p = text.subrange(0, i);
    let q = text.subrange(0, i + 1);
    assert(q[i] == text[i]);
    if all_white(q) {
        assert forall|k: int| 0 <= k < p.len() implies white_space(#[trigger] p[k]) by {
            assert(p[k] == q[k]);
        }
    }
    if all_white(p) && white_space(text[i]) {
        assert forall|k: int| 0 <= k < q.len() implies white_space(#[trigger] q[k]) by {
            if k < i {
                assert(q[k] == p[k]);
            }
        }
    }
}

/// Whether a token is the word that ends a program.
fn ends_program(token: &Vec<char>) -> (b: bool)
    ensures
        b == is_end(token@),
{
    token.len() == 2 && to_upper(token[0]) == 'M' && token[1] == '2'
}

/// A fault found after a prefix of the text is the fault of the text.
proof fn lemma_fault_found(text: Seq<char>, i: int, faulty: Scan)
    requires
        0 <= i <= text.len(),
        faulty.fault is Some,
        run(line_start(1, false), text.subrange(0, i)) == faulty || flush(
            run(line_start(1, false), text.subrange(0, i)),
        ) == faulty,
        i < text.len() ==> run(line_start(1, false), text.subrange(0, i)) == faulty,
    ensures
        scan_all(text).fault == faulty.fault,
{
    let p = text.subrange(0, i);
    let rest = text.subrange(i, text.len() as int);
    assert(p + rest =~= text);
    lemma_run_concat(line_start(1, false), p, rest);
    if run(line_start(1, false), p) == faulty {
        lemma_fault_sticks(faulty, rest);
    } else {
        assert(rest =~= Seq::<char>::empty());
        assert(p =~= text);
    }
}

/// Validates the text of a program: it must not be empty, every token of
/// every line must be a word that the controller takes, no address but G
/// may occur twice on a line, and one of the tokens must be the word M2
/// that ends a program. Comments are passed over; letters count in upper
/// and in lower case.
pub fn validate_program(program: &str) -> (r: CamResult<()>)
    ensures
        match r {
            Ok(_) => validation_fault(program@) is None,
            Err(e) => validation_fault(program@) is Some && e@ == CamErrorView::InvalidInput(
                validation_fault(program@)->Some_0,
            ),
        },
{
    let chars = chars_of(program);
    let n = chars.len();
    let mut line: u128 = 1;
    let mut in_comment = false;
    let mut token: Vec<char> = Vec::new();
    let mut seen: Vec<char> = Vec::new();
    let mut ink = false;
    let mut has_end = false;
    let mut i: usize = 0;
    assert(chars@.subrange(0, 0) =~= Seq::<char>::empty());
    while i < n
        invariant
            n == chars.len(),
            chars@ == program@,
            i <= n,
            1 <= line <= i + 1,
            run(line_start(1, false), chars@.subrange(0, i as int)) == (Scan {
                line: line as nat,
                in_comment,
                token: token@,
                seen: seen@,
                fault: None,
                ended: has_end,
            }),
            ink == !all_white(chars@.subrange(0, i as int)),
            token@.len() > 0 ==> ink,
        decreases n - i,
    {
        let c = chars[i];
        let ghost before = run(line_start(1, false), chars@.subrange(0, i as int));
        proof {
            lemma_flags_step(chars@, i as int);
            assert(chars@.subrange(0, i + 1) =~= chars@.subrange(0, i as int).push(c));
            lemma_run_push(line_start(1, false), chars@.subrange(0, i as int), c);
        }
        if !is_whitespace(c) {
            ink = true;
        }
        if c == '\n' {
            match validate_token(&token, line, &mut seen) {
                Ok(_) => {
                    if ends_program(&token) {
                        has_end = true;
                    }
                },
                Err(e) => {
                    proof {
                        lemma_ink_in_prefix(chars@, i as int);
                        lemma_fault_found(chars@, i + 1, step(before, c));
                    }
                    return Err(e);
                },
            }
            line = line + 1;
            in_comment = false;
            token = Vec::new();
            seen = Vec::new();
        } else if in_comment {
            if c == ')' {
                in_comment = false;
            }
        } else if c == '(' {
            in_comment = true;
        } else if is_whitespace(c) {
            match validate_token(&token, line, &mut seen) {
                Ok(_) => {
                    if ends_program(&token) {
                        has_end = true;
                    }
                },
                Err(e) => {
                    proof {
                        lemma_ink_in_prefix(chars@, i as int);
                        lemma_fault_found(chars@, i + 1, step(before, c));
                    }
                    return Err(e);
                },
            }
            token = Vec::new();
        } else {
            token.push(c);
        }
        i = i + 1;
    }
    assert(chars@.subrange(0, n as int) =~= chars@);
    if !ink {
        return Err(CamError::invalid_input("program is empty"));
    }
    let ghost last = run(line_start(1, false), chars@);
    match validate_token(&token, line, &mut seen) {
        Ok(_) => {
            if ends_program(&token) {
                has_end = true;
            }
        },
        Err(e) => {
            proof {
                lemma_fault_found(chars@, n as int, flush(last));
            }
            return Err(e);
        },
    }
    if !has_end {
        return Err(CamError::invalid_input("program missing M2 end"));
    }
    Ok(())
}

#[derive(Debug, Clone, Copy, PartialEq, Eq, Structural)]
pub struct GrblConfig {
    pub home_x: i64,
    pub home_y: i64,
}

impl Default for GrblConfig {
    fn default() -> (c: Self)
        ensures
            c == (GrblConfig { home_x: 0, home_y: 0 }),
    {
        GrblConfig { home_x: 0, home_y: 0 }
    }
}

/// The writer of the post before anything is written.
pub open spec fn fresh_writer() -> WriterView {
    WriterView {
        precision: 3,
        motion: None,
        feed: None,
        spindle: None,
        last_position: None,
        blocks: Seq::empty(),
    }
}

/// The writer after the head of the program: the header, the name, the
/// spindle.
pub open spec fn prologue(name: Seq<char>, rpm: i64) -> WriterView {
    spindle_effect(
        block_added(block_added(fresh_writer(), header_block()), name_block(name)),
        rpm,
    )
}

/// The writer after one motion of the toolpath, or the reason why the
/// motion cannot be written.
pub open spec fn motion_outcome(v: WriterView, m: ToolMotion) -> Result<WriterView, CamErrorView> {
    match m {
        ToolMotion::Rapid { to } => Ok(motion_effect(v, MotionMode::Rapid, to, None)),
        ToolMotion::Feed { to, feed } => if feed > 0 {
            Ok(motion_effect(v, MotionMode::Linear, to, Some(feed)))
        } else {
            Err(CamErrorView::InvalidArgument("feed rate must be positive"@))
        },
        ToolMotion::Dwell { seconds } => if seconds > 0 {
            Ok(block_added(v, dwell_block(seconds)))
        } else {
            Err(CamErrorView::InvalidArgument("dwell duration must be positive"@))
        },
    }
}

/// The writer after the first `k` motions, or the reason why the first
/// motion that cannot be written cannot.
pub open spec fn motions_outcome(v: WriterView, motions: Seq<ToolMotion>, k: int) -> Result<
    WriterView,
    CamErrorView,
>
    decreases k,
{
    if k <= 0 {
        Ok(v)
    } else {
        match motions_outcome(v, motions, k - 1) {
            Err(e) => Err(e),
            Ok(w) => motion_outcome(w, motions[k - 1]),
        }
    }
}

/// Whether the tool stands beside `home`, by more than the position
/// tolerance.
pub open spec fn away_from(at: Point3, home: Point3) -> bool {
    abs_int(at.x - home.x) > POSITION_EPS || abs_int(at.y - home.y) > POSITION_EPS
}

/// The point above `at` on the height of `home`.
pub open spec fn lifted(at: Point3, home: Point3) -> Point3 {
    Point3 { x: at.x, y: at.y, z: home.z }
}

/// The writer after the foot of the program: a lift to the safe height if
/// the tool stands below it, a rapid home if it stands elsewhere, the stop
/// of the spindle and the end of the program.
pub open spec fn epilogue(v: WriterView, at: Point3, home: Point3) -> WriterView {
    let up = if below(at.z, home.z) {
        motion_effect(v, MotionMode::Rapid, lifted(at, home), None)
    } else {
        v
    };
    let back = if away_from(at, home) {
        motion_effect(up, MotionMode::Rapid, home, None)
    } else {
        up
    };
    block_added(
        WriterView { spindle: None, ..block_added(back, plain_block(seq![m_word("5"@)])) },
        end_block(),
    )
}

/// The blocks of the program for a toolpath, or the reason why there is
/// none.
pub open spec fn posted(
    name: Seq<char>,
    motions: Seq<ToolMotion>,
    safe_z: i64,
    rpm: i64,
    config: GrblConfig,
) -> Result<Seq<BlockView>, CamErrorView> {
    let home = Point3 { x: config.home_x, y: config.home_y, z: safe_z };
    if motions.len() == 0 {
        Err(CamErrorView::InvalidInput("toolpath must contain at least one motion"@))
    } else if rpm <= 0 {
        Err(CamErrorView::InvalidArgument("spindle RPM must be positive"@))
    } else {
        match motions_outcome(prologue(name, rpm), motions, motions.len() as int) {
            Err(e) => Err(e),
            Ok(v) => Ok(
                epilogue(
                    v,
                    match last_position_of(motions) {
                        Some(p) => p,
                        None => home,
                    },
                    home,
                ).blocks,
            ),
        }
    }
}

/// Once a motion cannot be written, no longer run of motions can.
proof fn lemma_outcome_sticks(v: WriterView, motions: Seq<ToolMotion>, k: int, n: int)
    requires
        0 <= k <= n,
        motions_outcome(v, motions, k) is Err,
    ensures
        motions_outcome(v, motions, n) == motions_outcome(v, motions, k),
    decreases n - k,
{
    if k < n {
        lemma_outcome_sticks(v, motions, k, n - 1);
    }
}

/// Whether the blocks begin with the header and the name of the toolpath
/// and go on with blocks that the validator takes.
spec fn framed(blocks: Seq<BlockView>, name: Seq<char>) -> bool {
    &&& blocks.len() >= 2
    &&& blocks[0] == header_block()
    &&& blocks[1] == name_block(name)
    &&& accepted(blocks.subrange(2, blocks.len() as int))
}

/// One more block that the validator takes keeps the frame.
proof fn lemma_framed_push(blocks: Seq<BlockView>, name: Seq<char>, b: BlockView)
    requires
        framed(blocks, name),
        crate::post::acceptance::block_accepted(b),
    ensures
        framed(blocks.push(b), name),
{
    let tail = blocks.subrange(2, blocks.len() as int);
    lemma_accepted_push(tail, b);
    assert(blocks.push(b).subrange(2, blocks.len() as int + 1) =~= tail.push(b));
}

/// A motion that the writer takes keeps the frame.
proof fn lemma_motion_keeps_framed(
    v: WriterView,
    name: Seq<char>,
    mode: MotionMode,
    to: Point3,
    feed: Option<i64>,
)
    requires
        framed(v.blocks, name),
    ensures
        framed(motion_effect(v, mode, to, feed).blocks, name),
{
    lemma_motion_block_accepted(v, mode, to, feed);
    if crate::gcode::motion_words(v, mode, to, feed).len() > 0 {
        lemma_framed_push(
            v.blocks,
            name,
            plain_block(crate::gcode::motion_words(v, mode, to, feed)),
        );
    }
}

fn stands_away(at: Point3, home: Point3) -> (b: bool)
    ensures
        b == away_from(at, home),
{
    let dx: i128 = at.x as i128 - home.x as i128;
    let dy: i128 = at.y as i128 - home.y as i128;
    dx > POSITION_EPS as i128 || -dx > POSITION_EPS as i128 || dy > POSITION_EPS as i128 || -dy
        > POSITION_EPS as i128
}

fn stands_below(z: i64, limit: i64) -> (b: bool)
    ensures
        b == below(z, limit),
{
    (z as i128) + (POSITION_EPS as i128) < limit as i128
}

/// Writes the head of a program: the header, the name, the spindle.
fn begin_program(name: &str, rpm: i64) -> (r: CamResult<Writer>)
    ensures
        match r {
            Ok(w) => rpm > 0 && w@ == prologue(name@, rpm) && framed(w@.blocks, name@),
            Err(e) => rpm <= 0 && e@ == CamErrorView::InvalidArgument(
                "spindle RPM must be positive"@,
            ),
        },
{
    let mut writer = Writer::new().with_precision(3);
    let _ = writer.start_program();
    writer.comment(name);
    match writer.set_spindle(rpm) {
        Ok(_) => {},
        Err(e) => {
            return Err(e);
        },
    }
    proof {
        lemma_fixed_blocks_accepted(rpm, 0);
        let head = Seq::<BlockView>::empty().push(header_block()).push(name_block(name@));
        assert(head.subrange(2, 2) =~= Seq::<BlockView>::empty());
        assert(framed(head, name@));
        lemma_framed_push(
            head,
            name@,
            plain_block(seq![m_word("3"@), crate::gcode::number_word('S', rpm, 0)]),
        );
    }
    Ok(writer)
}

/// Writes the foot of a program and hands out its text.
fn close_program(writer: Writer, at: Point3, home: Point3, name: Ghost<Seq<char>>) -> (s: String)
    requires
        framed(writer@.blocks, name@),
    ensures
        s@ == program_text(epilogue(writer@, at, home).blocks),
        validation_fault(s@) is None <==> name_passes(name@),
{
    let mut writer = writer;
    let ghost start = writer@;
    if stands_below(at.z, home.z) {
        let safe = Point3 { x: at.x, y: at.y, z: home.z };
        proof {
            lemma_motion_keeps_framed(writer@, name@, MotionMode::Rapid, safe, None);
        }
        let _ = writer.motion(MotionMode::Rapid, safe, None);
    }
    if stands_away(at, home) {
        proof {
            lemma_motion_keeps_framed(writer@, name@, MotionMode::Rapid, home, None);
        }
        let _ = writer.motion(MotionMode::Rapid, home, None);
    }
    proof {
        lemma_fixed_blocks_accepted(0, 0);
        lemma_framed_push(writer@.blocks, name@, plain_block(seq![m_word("5"@)]));
        lemma_framed_push(
            writer@.blocks.push(plain_block(seq![m_word("5"@)])),
            name@,
            end_block(),
        );
    }
    let _ = writer.stop_spindle();
    let _ = writer.end_program();
    assert(writer@ == epilogue(start, at, home));
    let program = writer.finish();
    proof {
        let blocks = program@;
        let tail = blocks.subrange(2, blocks.len() as int);
        assert(blocks =~= seq![header_block(), name_block(name@)] + tail);
        assert(tail.last() == blocks.last());
        lemma_posted_program_validates(name@, tail);
    }
    program.to_string()
}

/// Writes the program for a toolpath with the home position at the origin.
pub fn write_program(toolpath: &Toolpath, tool: &Tool) -> (r: CamResult<String>)
    ensures
        match r {
            Ok(s) => posted(
                toolpath.name@,
                toolpath.motions@,
                toolpath.safe_z,
                tool.spindle_rpm,
                GrblConfig { home_x: 0, home_y: 0 },
            ) matches Ok(blocks) && s@ == program_text(blocks),
            Err(e) => posted(
                toolpath.name@,
                toolpath.motions@,
                toolpath.safe_z,
                tool.spindle_rpm,
                GrblConfig { home_x: 0, home_y: 0 },
            ) == Err::<Seq<BlockView>, CamErrorView>(e@),
        },
        r matches Ok(s) ==> (validation_fault(s@) is None <==> name_passes(toolpath.name@)),
{
    write_program_with_config(toolpath, tool, GrblConfig { home_x: 0, home_y: 0 })
}

/// Writes the program for a toolpath: the header, the name of the toolpath
/// as a comment, the start of the spindle, one block for each motion that
/// changes anything, the way back to the home position at the safe height,
/// the stop of the spindle and the end of the program.
///
/// The validator finds no fault in the text if it passes over the name of
/// the toolpath as a comment, and only then; it passes over every name
/// without a closing parenthesis and without a line feed.
pub fn write_program_with_config(toolpath: &Toolpath, tool: &Tool, config: GrblConfig) -> (r:
    CamResult<String>)
    ensures
        match r {
            Ok(s) => posted(
                toolpath.name@,
                toolpath.motions@,
                toolpath.safe_z,
                tool.spindle_rpm,
                config,
            ) matches Ok(blocks) && s@ == program_text(blocks),
            Err(e) => posted(
                toolpath.name@,
                toolpath.motions@,
                toolpath.safe_z,
                tool.spindle_rpm,
                config,
            ) == Err::<Seq<BlockView>, CamErrorView>(e@),
        },
        r matches Ok(s) ==> (validation_fault(s@) is None <==> name_passes(toolpath.name@)),
{
    if toolpath.is_empty() {
        return Err(CamError::invalid_input("toolpath must contain at least one motion"));
    }
    let ghost name = toolpath.name@;
    let ghost motions = toolpath.motions@;
    let home = Point3 { x: config.home_x, y: config.home_y, z: toolpath.safe_z };
    let mut writer = match begin_program(toolpath.name.as_str(), tool.spindle_rpm) {
        Ok(w) => w,
        Err(e) => {
            return Err(e);
        },
    };
    let mut current = home;
    let mut i: usize = 0;
    let n = toolpath.motions.len();
    assert(motions.subrange(0, 0) =~= Seq::<ToolMotion>::empty());
    while i < n
        invariant
            n == toolpath.motions@.len(),
            motions == toolpath.motions@,
            n > 0,
            tool.spindle_rpm > 0,
            i <= n,
            home == (Point3 { x: config.home_x, y: config.home_y, z: toolpath.safe_z }),
            name == toolpath.name@,
            framed(writer@.blocks, name),
            motions_outcome(prologue(toolpath.name@, tool.spindle_rpm), motions, i as int) == Ok::<
                WriterView,
                CamErrorView,
            >(writer@),
            current == (match last_position_of(motions.subrange(0, i as int)) {
                Some(p) => p,
                None => home,
            }),
        decreases n - i,
    {
        let ghost v = writer@;
        let ghost upto = motions.subrange(0, i + 1);
        assert(upto.last() == motions[i as int]);
        assert(upto.drop_last() =~= motions.subrange(0, i as int));
        let outcome = match toolpath.motions[i] {
            ToolMotion::Rapid { to } => {
                proof {
                    lemma_motion_keeps_framed(v, name, MotionMode::Rapid, to, None);
                }
                current = to;
                writer.motion(MotionMode::Rapid, to, None)
            },
            ToolMotion::Feed { to, feed } => {
                proof {
                    lemma_motion_keeps_framed(v, name, MotionMode::Linear, to, Some(feed));
                }
                current = to;
                writer.motion(MotionMode::Linear, to, Some(feed))
            },
            ToolMotion::Dwell { seconds } => {
                proof {
                    lemma_fixed_blocks_accepted(0, seconds);
                    lemma_framed_push(v.blocks, name, dwell_block(seconds));
                }
                writer.dwell(seconds)
            },
        };
        match outcome {
            Ok(_) => {},
            Err(e) => {
                proof {
                    lemma_outcome_sticks(
                        prologue(toolpath.name@, tool.spindle_rpm),
                        motions,
                        i + 1,
                        n as int,
                    );
                }
                return Err(e);
            },
        }
        i = i + 1;
    }
    assert(motions.subrange(0, n as int) =~= motions);
    Ok(close_program(writer, current, home, Ghost(name)))
}

} // verus!

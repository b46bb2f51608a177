//! Words, blocks and programs of numerical-control text, and the writer
//! that emits them with modal state.
use vstd::prelude::*;
use crate::error::{CamError, CamErrorView, CamResult};
use crate::geometry::Point3;
use crate::text::{
    decimal, fixed_digits, is_ascii_letter, is_letter, push_char, push_decimal,
    push_fixed_digits, strip_zeros, to_upper, upper,
};
use crate::units::{abs_int, POSITION_EPS};

verus! {

/// The decimals that the fixed-point representation holds.
pub const UNIT_DECIMALS: usize = 6;

#[derive(Debug, Clone, PartialEq, Eq)]
pub struct Word {
    pub letter: char,
    pub value: String,
}

/// A word as a letter and the characters of its value.
pub struct WordView {
    pub letter: char,
    pub value: Seq<char>,
}

impl View for Word {
    type V = WordView;

    open spec fn view(&self) -> WordView {
        WordView { letter: self.letter, value: self.value@ }
    }
}

#[derive(Debug, Clone, PartialEq, Eq)]
pub struct Block {
    pub words: Vec<Word>,
    pub comment: Option<String>,
}

/// A block as its words and the characters of its comment.
pub struct BlockView {
    pub words: Seq<WordView>,
    pub comment: Option<Seq<char>>,
}

/// The views of a sequence of words.
pub open spec fn words_view(words: Seq<Word>) -> Seq<WordView> {
    words.map_values(|w: Word| w@)
}

impl View for Block {
    type V = BlockView;

    open spec fn view(&self) -> BlockView {
        BlockView {
            words: words_view(self.words@),
            comment: match self.comment {
                Some(c) => Some(c@),
                None => None,
            },
        }
    }
}

#[derive(Debug, Clone, Copy, PartialEq, Eq, Structural)]
pub enum MotionMode {
    Rapid,
    Linear,
}

#[derive(Debug, Clone)]
pub struct Program {
    pub blocks: Vec<Block>,
}

/// The views of a sequence of blocks.
pub open spec fn blocks_view(blocks: Seq<Block>) -> Seq<BlockView> {
    blocks.map_values(|b: Block| b@)
}

impl View for Program {
    type V = Seq<BlockView>;

    open spec fn view(&self) -> Seq<BlockView> {
        blocks_view(self.blocks@)
    }
}

/// The text of a word: its letter, then its value.
pub open spec fn word_text(w: WordView) -> Seq<char> {
    seq![w.letter] + w.value
}

/// The texts of the words, separated by single spaces.
pub open spec fn words_text(words: Seq<WordView>) -> Seq<char>
    decreases words.len(),
{
    if words.len() == 0 {
        Seq::empty()
    } else if words.len() == 1 {
        word_text(words[0])
    } else {
        words_text(words.drop_last()) + seq![' '] + word_text(words.last())
    }
}

/// A comment in its parentheses.
pub open spec fn comment_text(c: Seq<char>) -> Seq<char> {
    seq!['('] + c + seq![')']
}

/// The text of a block: its words, then its comment.
pub open spec fn block_text(b: BlockView) -> Seq<char> {
    match b.comment {
        None => words_text(b.words),
        Some(c) => if b.words.len() > 0 {
            words_text(b.words) + seq![' '] + comment_text(c)
        } else {
            comment_text(c)
        },
    }
}

/// The text of a program: its blocks, one on each line.
pub open spec fn program_text(blocks: Seq<BlockView>) -> Seq<char>
    decreases blocks.len(),
{
    if blocks.len() == 0 {
        Seq::empty()
    } else if blocks.len() == 1 {
        block_text(blocks[0])
    } else {
        program_text(blocks.drop_last()) + seq!['\n'] + block_text(blocks.last())
    }
}

/// The message for a letter that is no address.
pub open spec fn letter_fault(letter: char) -> Seq<char> {
    "invalid word letter '"@ + seq![upper(letter)] + "'"@
}

impl Word {
    /// A word. The letter is upper-cased and must be a letter of the ASCII
    /// alphabet.
    pub fn new(letter: char, value: &str) -> (r: CamResult<Self>)
        ensures
            match r {
                Ok(w) => is_letter(letter) && w@ == (WordView {
                    letter: upper(letter),
                    value: value@,
                }),
                Err(e) => !is_letter(letter) && e@ == CamErrorView::InvalidArgument(
                    letter_fault(letter),
                ),
            },
    {
        let up = to_upper(letter);
        if !is_ascii_letter(letter) {
            let mut message = String::from_str("invalid word letter '");
            push_char(&mut message, up);
            message.append("'");
            assert(message@ =~= letter_fault(letter));
            return Err(CamError::InvalidArgument(message));
        }
        Ok(Word { letter: up, value: String::from_str(value) })
    }

    /// A word whose value is a number, written with at most `precision`
    /// decimals.
    pub fn float(letter: char, value: i64, precision: usize) -> (r: CamResult<Self>)
        ensures
            match r {
                Ok(w) => is_letter(letter) && w@ == (WordView {
                    letter: upper(letter),
                    value: number_text(value as int, precision as nat),
                }),
                Err(e) => !is_letter(letter) && e@ == CamErrorView::InvalidArgument(
                    letter_fault(letter),
                ),
            },
    {
        let formatted = format_float(value, precision);
        Word::new(letter, formatted.as_str())
    }

    /// The text of the word.
    pub fn to_string(&self) -> (s: String)
        ensures
            s@ == word_text(self@),
    {
        let mut s = String::new();
        push_char(&mut s, self.letter);
        s.append(self.value.as_str());
        assert(s@ =~= word_text(self@));
        s
    }
}

impl MotionMode {
    /// The number of the motion code.
    pub open spec fn spec_code(self) -> Seq<char> {
        match self {
            MotionMode::Rapid => "0"@,
            MotionMode::Linear => "1"@,
        }
    }

    /// The number of the motion code: `0` for rapids, `1` for feeds.
    pub fn code(&self) -> (s: &'static str)
        ensures
            s@ == self.spec_code(),
    {
        match self {
            MotionMode::Rapid => "0",
            MotionMode::Linear => "1",
        }
    }

    /// The motion word: `G0` for rapids, `G1` for feeds.
    pub fn gcode(&self) -> (s: &'static str)
        ensures
            s@ == (match self {
                MotionMode::Rapid => "G0"@,
                MotionMode::Linear => "G1"@,
            }),
    {
        match self {
            MotionMode::Rapid => "G0",
            MotionMode::Linear => "G1",
        }
    }
}

impl Block {
    /// The text of the block.
    pub fn to_string(&self) -> (s: String)
        ensures
            s@ == block_text(self@),
    {
        let mut s = String::new();
        let mut i: usize = 0;
        let ghost words = words_view(self.words@);
        assert(words.subrange(0, 0) =~= Seq::<WordView>::empty());
        while i < self.words.len()
            invariant
                i <= self.words.len(),
                words == words_view(self.words@),
                s@ == words_text(words.subrange(0, i as int)),
            decreases self.words.len() - i,
        {
            let ghost upto = words.subrange(0, i + 1);
            assert(upto.drop_last() =~= words.subrange(0, i as int));
            assert(upto.last() == self.words@[i as int]@);
            if i > 0 {
                push_char(&mut s, ' ');
            }
            push_char(&mut s, self.words[i].letter);
            s.append(self.words[i].value.as_str());
            assert(s@ =~= words_text(upto));
            i = i + 1;
        }
        assert(words.subrange(0, i as int) =~= words);
        match &self.comment {
            Some(c) => {
                if self.words.len() > 0 {
                    push_char(&mut s, ' ');
                }
                push_char(&mut s, '(');
                s.append(c.as_str());
                push_char(&mut s, ')');
                assert(s@ =~= block_text(self@));
            },
            None => {},
        }
        s
    }
}

impl Program {
    /// An empty program.
    pub fn new() -> (p: Self)
        ensures
            p@ == Seq::<BlockView>::empty(),
    {
        let p = Program { blocks: Vec::new() };
        assert(p@ =~= Seq::<BlockView>::empty());
        p
    }

    /// Appends a block.
    pub fn push(&mut self, block: Block)
        ensures
            final(self)@ == old(self)@.push(block@),
            final(self).blocks@ == old(self).blocks@.push(block),
    {
        self.blocks.push(block);
        assert(self@ =~= old(self)@.push(block@));
    }

    /// The text of the program: one block on each line.
    pub fn to_string(&self) -> (s: String)
        ensures
            s@ == program_text(self@),
    {
        let mut s = String::new();
        let mut i: usize = 0;
        let ghost blocks = self@;
        assert(blocks.subrange(0, 0) =~= Seq::<BlockView>::empty());
        while i < self.blocks.len()
            invariant
                i <= self.blocks.len(),
                blocks == blocks_view(self.blocks@),
                s@ == program_text(blocks.subrange(0, i as int)),
            decreases self.blocks.len() - i,
        {
            let ghost upto = blocks.subrange(0, i + 1);
            assert(upto.drop_last() =~= blocks.subrange(0, i as int));
            assert(upto.last() == self.blocks@[i as int]@);
            if i > 0 {
                push_char(&mut s, '\n');
            }
            let line = self.blocks[i].to_string();
            s.append(line.as_str());
            assert(s@ =~= program_text(upto));
            i = i + 1;
        }
        assert(blocks.subrange(0, i as int) =~= blocks);
        s
    }
}

impl Default for Program {
    fn default() -> (p: Self)
        ensures
            p@ == Seq::<BlockView>::empty(),
    {
        Program::new()
    }
}

/// Ten to the power of `e`.
pub open spec fn pow10(e: nat) -> nat
    decreases e,
{
    if e == 0 {
        1
    } else {
        10 * pow10((e - 1) as nat)
    }
}

/// `a / d` rounded to the nearest integer, ties to the even one (`a >= 0`,
/// `d > 0`).
pub open spec fn round_half_even(a: int, d: int) -> int {
    let q = a / d;
    let r = a % d;
    if 2 * r > d || (2 * r == d && q % 2 == 1) {
        q + 1
    } else {
        q
    }
}

/// The decimals that are written for a requested precision: a value holds
/// no more than [`UNIT_DECIMALS`].
pub open spec fn decimals(precision: nat) -> nat {
    if precision < UNIT_DECIMALS {
        precision
    } else {
        UNIT_DECIMALS as nat
    }
}

/// The magnitude of `value` rounded to `precision` decimals, as a count of
/// units of the last decimal.
pub open spec fn rounded_magnitude(value: int, precision: nat) -> int {
    round_half_even(abs_int(value), pow10((UNIT_DECIMALS - decimals(precision)) as nat) as int)
}

/// The digits behind the decimal point: those of the rounded magnitude,
/// without trailing zeros.
pub open spec fn fraction_text(value: int, precision: nat) -> Seq<char> {
    let q = decimals(precision);
    strip_zeros(
        fixed_digits((rounded_magnitude(value, precision) % (pow10(q) as int)) as nat, q),
    )
}

/// The text of the number `value`, a count of millionths, rounded to
/// `precision` decimals: a minus sign unless the rounded value is zero or
/// more, the whole part, and, if any digit behind the decimal point is not
/// zero, the point and the digits up to the last that is not zero.
pub open spec fn number_text(value: int, precision: nat) -> Seq<char> {
    let m = rounded_magnitude(value, precision);
    let whole = decimal((m / (pow10(decimals(precision)) as int)) as nat);
    let fraction = fraction_text(value, precision);
    let body = if fraction.len() > 0 {
        whole + seq!['.'] + fraction
    } else {
        whole
    };
    if value < 0 && m != 0 {
        seq!['-'] + body
    } else {
        body
    }
}

pub(crate) fn pow10_of(e: usize) -> (r: u128)
    requires
        e <= 6,
    ensures
        r == pow10(e as nat),
        1 <= r <= 1_000_000,
{
    let mut r: u128 = 1;
    let mut i: usize = 0;
    while i < e
        invariant
            i <= e <= 6,
            r == pow10(i as nat),
            1 <= r,
            i == 0 ==> r == 1,
            i == 1 ==> r == 10,
            i == 2 ==> r == 100,
            i == 3 ==> r == 1_000,
            i == 4 ==> r == 10_000,
            i == 5 ==> r == 100_000,
            i == 6 ==> r == 1_000_000,
        decreases e - i,
    {
        r = r * 10;
        i = i + 1;
    }
    r
}

/// Zeros at the end of the fixed-width digits can be dropped one by one.
proof fn lemma_strip_step(n: nat, width: nat)
    requires
        width > 0,
    ensures
        n % 10 == 0 ==> strip_zeros(fixed_digits(n, width)) == strip_zeros(
            fixed_digits(n / 10, (width - 1) as nat),
        ),
        n % 10 != 0 ==> strip_zeros(fixed_digits(n, width)) == fixed_digits(n, width),
{
    let s = fixed_digits(n, width);
    let head = fixed_digits(n / 10, (width - 1) as nat);
    assert(s.last() == crate::text::digit_char((n % 10) as int));
    assert(s.drop_last() =~= head);
}

/// Formats a count of millionths with at most `precision` decimals: rounded
/// to the nearest value that `precision` decimals can hold, ties to even;
/// without trailing zeros behind the decimal point, without the point if no
/// decimal is left, and without a sign when the rounded value is zero.
pub fn format_float(value: i64, precision: usize) -> (s: String)
    ensures
        s@ == number_text(value as int, precision as nat),
{
    let q: usize = if precision < UNIT_DECIMALS {
        precision
    } else {
        UNIT_DECIMALS
    };
    let scale = pow10_of(UNIT_DECIMALS - q);
    let a: u128 = if value < 0 {
        (-(value as i128)) as u128
    } else {
        value as u128
    };
    let quo = a / scale;
    let rem = a % scale;
    let m: u128 = if 2 * rem > scale || (2 * rem == scale && quo % 2 == 1) {
        quo + 1
    } else {
        quo
    };
    assert(m == rounded_magnitude(value as int, precision as nat));
    let unit = pow10_of(q);
    let whole = m / unit;
    let mut frac = m % unit;
    let mut width = q;
    let ghost frac0 = frac;
    while width > 0 && frac % 10 == 0
        invariant
            width <= q,
            strip_zeros(fixed_digits(frac0 as nat, q as nat)) == strip_zeros(
                fixed_digits(frac as nat, width as nat),
            ),
        decreases width,
    {
        proof {
            lemma_strip_step(frac as nat, width as nat);
        }
        frac = frac / 10;
        width = width - 1;
    }
    proof {
        if width > 0 {
            lemma_strip_step(frac as nat, width as nat);
        }
        crate::text::lemma_fixed_digits(frac as nat, width as nat);
    }
    let mut s = String::new();
    if value < 0 && m != 0 {
        push_char(&mut s, '-');
    }
    push_decimal(&mut s, whole);
    if width > 0 {
        push_char(&mut s, '.');
        push_fixed_digits(&mut s, frac, width);
    }
    assert(s@ =~= number_text(value as int, precision as nat));
    s
}

/// The text of the number `value`, a count of millionths, with exactly
/// `precision` decimals, at most [`UNIT_DECIMALS`]: a minus sign if `value` is
/// negative, the whole part of the rounded magnitude, the point and the
/// decimals.
pub open spec fn fixed_text(value: int, precision: nat) -> Seq<char> {
    let m = rounded_magnitude(value, precision);
    let q = decimals(precision);
    let whole = decimal((m / (pow10(q) as int)) as nat);
    let body = if q > 0 {
        whole + seq!['.'] + fixed_digits((m % (pow10(q) as int)) as nat, q)
    } else {
        whole
    };
    if value < 0 {
        seq!['-'] + body
    } else {
        body
    }
}

/// Appends a count of millionths with exactly `precision` decimals, at most
/// [`UNIT_DECIMALS`], rounded to the nearest, ties to even.
pub fn push_fixed(s: &mut String, value: i64, precision: usize)
    ensures
        final(s)@ == old(s)@ + fixed_text(value as int, precision as nat),
{
    let q: usize = if precision < UNIT_DECIMALS {
        precision
    } else {
        UNIT_DECIMALS
    };
    let scale = pow10_of(UNIT_DECIMALS - q);
    let a: u128 = if value < 0 {
        (-(value as i128)) as u128
    } else {
        value as u128
    };
    let quo = a / scale;
    let rem = a % scale;
    let m: u128 = if 2 * rem > scale || (2 * rem == scale && quo % 2 == 1) {
        quo + 1
    } else {
        quo
    };
    assert(m == rounded_magnitude(value as int, precision as nat));
    let unit = pow10_of(q);
    if value < 0 {
        push_char(s, '-');
    }
    push_decimal(s, m / unit);
    if q > 0 {
        push_char(s, '.');
        push_fixed_digits(s, m % unit, q);
    }
    assert(s@ =~= old(s)@ + fixed_text(value as int, precision as nat));
}

/// Whether `v` is the number of a motion code: `0` or `1`.
pub open spec fn motion_code(v: Seq<char>) -> bool {
    v == "0"@ || v == "1"@
}

/// Whether a block that holds the G word `existing` may take the G word
/// `new_word`: not if both are motion codes and differ.
pub open spec fn motion_compatible(existing: Seq<char>, new_word: Seq<char>) -> bool {
    !motion_code(existing) || !motion_code(new_word) || existing == new_word
}

/// The letters of the words that are not G words, in order.
pub open spec fn non_g_letters(words: Seq<WordView>) -> Seq<char>
    decreases words.len(),
{
    if words.len() == 0 {
        Seq::empty()
    } else {
        let rest = non_g_letters(words.drop_last());
        if words.last().letter != 'G' {
            rest.push(words.last().letter)
        } else {
            rest
        }
    }
}

/// The value of the first G word that is a motion code.
pub open spec fn first_motion(words: Seq<WordView>) -> Option<Seq<char>>
    decreases words.len(),
{
    if words.len() == 0 {
        None
    } else {
        match first_motion(words.drop_last()) {
            Some(m) => Some(m),
            None => if words.last().letter == 'G' && motion_code(words.last().value) {
                Some(words.last().value)
            } else {
                None
            },
        }
    }
}

/// Why a block of `words` cannot take the word `w`, if it cannot: a letter
/// other than G is there already, or `w` is a second, different motion code.
pub open spec fn word_fault(words: Seq<WordView>, w: WordView) -> Option<Seq<char>> {
    if w.letter != 'G' && non_g_letters(words).contains(w.letter) {
        Some("letter "@ + seq![w.letter] + " emitted twice in single block"@)
    } else if w.letter == 'G' && first_motion(words) is Some && !motion_compatible(
        first_motion(words)->Some_0,
        w.value,
    ) {
        Some("multiple motion words in one block"@)
    } else {
        None
    }
}

/// Whether `word` is the number of a motion code.
pub fn is_motion_code(word: &str) -> (b: bool)
    ensures
        b == motion_code(word@),
{
    let w = String::from_str(word);
    w == String::from_str("0") || w == String::from_str("1")
}

/// Whether a block that holds the G word `existing` may take the G word
/// `new_word`.
pub fn is_motion_compatible(existing: &str, new_word: &str) -> (b: bool)
    ensures
        b == motion_compatible(existing@, new_word@),
{
    if !is_motion_code(existing) || !is_motion_code(new_word) {
        return true;
    }
    String::from_str(existing) == String::from_str(new_word)
}

/// Collects the words of one block and enforces that no letter but G occurs
/// twice and that no two different motion codes meet.
pub struct BlockBuilder {
    words: Vec<Word>,
    motion_word: Option<String>,
    used_letters: Vec<char>,
}

impl BlockBuilder {
    /// The words collected so far.
    pub closed spec fn words(&self) -> Seq<WordView> {
        words_view(self.words@)
    }

    /// Whether the builder's record of used letters and of the motion word
    /// agrees with its words.
    pub closed spec fn wf(&self) -> bool {
        &&& self.used_letters@ == non_g_letters(self.words())
        &&& (match self.motion_word {
            Some(m) => Some(m@),
            None => None,
        }) == first_motion(self.words())
    }

    pub fn new() -> (b: Self)
        ensures
            b.wf(),
            b.words() == Seq::<WordView>::empty(),
    {
        let b = BlockBuilder { words: Vec::new(), motion_word: None, used_letters: Vec::new() };
        assert(b.words() =~= Seq::<WordView>::empty());
        b
    }

    /// Adds a word, unless the block cannot take it.
    pub fn add_word(&mut self, word: Word) -> (r: CamResult<()>)
        requires
            old(self).wf(),
        ensures
            final(self).wf(),
            match r {
                Ok(_) => word_fault(old(self).words(), word@) is None && final(self).words() == old(
                    self,
                ).words().push(word@),
                Err(e) => word_fault(old(self).words(), word@) == Some(e@->InvalidArgument_0) && e@
                    is InvalidArgument && final(self).words() == old(self).words(),
            },
    {
        let upper = word.letter;
        let ghost before = self.words();
        if upper != 'G' {
            let mut i: usize = 0;
            while i < self.used_letters.len()
                invariant
                    i <= self.used_letters.len(),
                    forall|k: int| 0 <= k < i ==> self.used_letters@[k] != upper,
                    upper == word.letter,
                    upper != 'G',
                    before == old(self).words(),
                    self.wf(),
                    self.words() == before,
                decreases self.used_letters.len() - i,
            {
                if self.used_letters[i] == upper {
                    let mut message = String::from_str("letter ");
                    push_char(&mut message, upper);
                    message.append(" emitted twice in single block");
                    assert(message@ =~= "letter "@ + seq![upper]
                        + " emitted twice in single block"@);
                    assert(self.used_letters@.contains(upper));
                    return Err(CamError::InvalidArgument(message));
                }
                i = i + 1;
            }
            assert(!self.used_letters@.contains(upper));
        }
        let ghost pushed = before.push(word@);
        assert(pushed.drop_last() =~= before);
        assert(pushed.last() == word@);
        if upper == 'G' {
            match &self.motion_word {
                Some(existing) => {
                    if !is_motion_compatible(existing.as_str(), word.value.as_str()) {
                        return Err(CamError::invalid_argument("multiple motion words in one block"));
                    }
                },
                None => {
                    if is_motion_code(word.value.as_str()) {
                        self.motion_word = Some(word.value.clone());
                    }
                },
            }
        } else {
            self.used_letters.push(upper);
        }
        self.words.push(word);
        assert(self.words() =~= pushed);
        Ok(())
    }

    /// The block of the collected words, without a comment.
    pub fn build(self) -> (b: Block)
        ensures
            b@ == (BlockView { words: self.words(), comment: None }),
    {
        Block { words: self.words, comment: None }
    }

    pub fn is_empty(&self) -> (b: bool)
        ensures
            b == (self.words().len() == 0),
    {
        self.words.len() == 0
    }
}

/// The G word with the given number.
pub open spec fn g_word(code: Seq<char>) -> WordView {
    WordView { letter: 'G', value: code }
}

/// The M word with the given number.
pub open spec fn m_word(code: Seq<char>) -> WordView {
    WordView { letter: 'M', value: code }
}

/// The word of `letter` with a number as its value.
pub open spec fn number_word(letter: char, value: i64, precision: nat) -> WordView {
    WordView { letter, value: number_text(value as int, precision) }
}

/// A block of words without a comment.
pub open spec fn plain_block(words: Seq<WordView>) -> BlockView {
    BlockView { words, comment: None }
}

/// The block that opens a program: millimetres, absolute positions, feed
/// per minute.
pub open spec fn header_block() -> BlockView {
    plain_block(seq![g_word("21"@), g_word("90"@), g_word("94"@)])
}

/// Whether two values differ by the position tolerance or more.
pub open spec fn differs(a: i64, b: i64) -> bool {
    abs_int(a - b) >= POSITION_EPS
}

/// Whether the coordinate `to` must be written when the tool stood at
/// `from` before.
pub open spec fn axis_needed(from: Option<i64>, to: i64) -> bool {
    match from {
        Some(v) => differs(v, to),
        None => true,
    }
}

/// The word of one axis, if the coordinate must be written.
pub open spec fn axis_word(letter: char, from: Option<i64>, to: i64, precision: nat) -> Seq<
    WordView,
> {
    if axis_needed(from, to) {
        seq![number_word(letter, to, precision)]
    } else {
        Seq::empty()
    }
}

/// The words of a motion: the motion word if the mode changes, the word of
/// each axis whose coordinate changes, and the feed word if a feed is given
/// that differs from the one in force.
pub open spec fn motion_words(v: WriterView, mode: MotionMode, to: Point3, feed: Option<i64>) -> Seq<
    WordView,
> {
    let g = if v.motion != Some(mode) {
        seq![g_word(mode.spec_code())]
    } else {
        Seq::empty()
    };
    let x = axis_word(
        'X',
        match v.last_position {
            Some(p) => Some(p.x),
            None => None,
        },
        to.x,
        v.precision,
    );
    let y = axis_word(
        'Y',
        match v.last_position {
            Some(p) => Some(p.y),
            None => None,
        },
        to.y,
        v.precision,
    );
    let z = axis_word(
        'Z',
        match v.last_position {
            Some(p) => Some(p.z),
            None => None,
        },
        to.z,
        v.precision,
    );
    let f = match feed {
        Some(rate) => if axis_needed(v.feed, rate) {
            seq![number_word('F', rate, 2)]
        } else {
            Seq::empty()
        },
        None => Seq::empty(),
    };
    g + x + y + z + f
}

/// The blocks with one more block of `words`, unless there are no words.
pub open spec fn with_block(blocks: Seq<BlockView>, words: Seq<WordView>) -> Seq<BlockView> {
    if words.len() > 0 {
        blocks.push(plain_block(words))
    } else {
        blocks
    }
}

/// The state of the writer after a motion that it accepts.
pub open spec fn motion_effect(v: WriterView, mode: MotionMode, to: Point3, feed: Option<i64>) -> WriterView {
    WriterView {
        precision: v.precision,
        motion: Some(mode),
        feed: match feed {
            Some(rate) => if axis_needed(v.feed, rate) {
                Some(rate)
            } else {
                v.feed
            },
            None => v.feed,
        },
        spindle: v.spindle,
        last_position: Some(to),
        blocks: with_block(v.blocks, motion_words(v, mode, to, feed)),
    }
}

/// The state of the writer after it has set the spindle speed: nothing
/// changes if that speed is in force, else the block `M3 S<rpm>` is written.
pub open spec fn spindle_effect(v: WriterView, rpm: i64) -> WriterView {
    if v.spindle is Some && !differs(v.spindle->Some_0, rpm) {
        v
    } else {
        WriterView {
            precision: v.precision,
            motion: v.motion,
            feed: v.feed,
            spindle: Some(rpm),
            last_position: v.last_position,
            blocks: v.blocks.push(plain_block(seq![m_word("3"@), number_word('S', rpm, 0)])),
        }
    }
}

/// The writer's state with one more block.
pub open spec fn block_added(v: WriterView, block: BlockView) -> WriterView {
    WriterView {
        precision: v.precision,
        motion: v.motion,
        feed: v.feed,
        spindle: v.spindle,
        last_position: v.last_position,
        blocks: v.blocks.push(block),
    }
}

/// The block of a dwell.
pub open spec fn dwell_block(seconds: i64) -> BlockView {
    plain_block(seq![g_word("4"@), number_word('P', seconds, 3)])
}

#[derive(Debug, Clone, Copy, PartialEq, Eq, Structural)]
struct ModalState {
    motion: Option<MotionMode>,
    feed: Option<i64>,
    spindle: Option<i64>,
}

/// Emits blocks and keeps track of what is in force on the machine: the
/// motion mode, the feed rate, the spindle speed and the position.
pub struct Writer {
    precision: usize,
    state: ModalState,
    last_position: Option<Point3>,
    program: Program,
}

/// What a writer holds.
pub struct WriterView {
    /// The decimals of coordinates.
    pub precision: nat,
    pub motion: Option<MotionMode>,
    pub feed: Option<i64>,
    pub spindle: Option<i64>,
    pub last_position: Option<Point3>,
    /// The blocks written so far.
    pub blocks: Seq<BlockView>,
}

impl View for Writer {
    type V = WriterView;

    closed spec fn view(&self) -> WriterView {
        WriterView {
            precision: self.precision as nat,
            motion: self.state.motion,
            feed: self.state.feed,
            spindle: self.state.spindle,
            last_position: self.last_position,
            blocks: self.program@,
        }
    }
}

/// Adds a word that the block can take.
fn add_checked(builder: &mut BlockBuilder, word: Word)
    requires
        old(builder).wf(),
        word_fault(old(builder).words(), word@) is None,
    ensures
        final(builder).wf(),
        final(builder).words() == old(builder).words().push(word@),
{
    match builder.add_word(word) {
        Ok(_) => {},
        Err(_) => {},
    }
}

/// Adds the G or M word with the given number.
fn add_code(builder: &mut BlockBuilder, letter: char, code: &str)
    requires
        old(builder).wf(),
        letter == 'G' || letter == 'M',
        word_fault(old(builder).words(), WordView { letter, value: code@ }) is None,
    ensures
        final(builder).wf(),
        final(builder).words() == old(builder).words().push(WordView { letter, value: code@ }),
{
    match Word::new(letter, code) {
        Ok(word) => {
            add_checked(builder, word);
        },
        Err(_) => {},
    }
}

/// Adds the word of `letter` with a number as its value.
fn add_number(builder: &mut BlockBuilder, letter: char, value: i64, precision: usize)
    requires
        old(builder).wf(),
        'A' <= letter <= 'Z',
        word_fault(old(builder).words(), number_word(letter, value, precision as nat)) is None,
    ensures
        final(builder).wf(),
        final(builder).words() == old(builder).words().push(
            number_word(letter, value, precision as nat),
        ),
{
    match Word::float(letter, value, precision) {
        Ok(word) => {
            add_checked(builder, word);
        },
        Err(_) => {},
    }
}

/// The numbers of the codes that the writer emits, by their lengths; only
/// `0` and `1` are motion codes.
pub proof fn lemma_code_lengths()
    ensures
        "0"@ == seq!['0'],
        "1"@ == seq!['1'],
        "2"@ == seq!['2'],
        "3"@ == seq!['3'],
        "4"@ == seq!['4'],
        "5"@ == seq!['5'],
        "21"@ == seq!['2', '1'],
        "90"@ == seq!['9', '0'],
        "94"@ == seq!['9', '4'],
        !motion_code("2"@),
        !motion_code("3"@),
        !motion_code("4"@),
        !motion_code("5"@),
        !motion_code("21"@),
        !motion_code("90"@),
        !motion_code("94"@),
        motion_code("0"@),
        motion_code("1"@),
{
    reveal_strlit("0");
    reveal_strlit("1");
    reveal_strlit("2");
    reveal_strlit("3");
    reveal_strlit("4");
    reveal_strlit("5");
    reveal_strlit("21");
    reveal_strlit("90");
    reveal_strlit("94");
    assert("0"@ =~= seq!['0']);
    assert("1"@ =~= seq!['1']);
    assert("2"@ =~= seq!['2']);
    assert("3"@ =~= seq!['3']);
    assert("4"@ =~= seq!['4']);
    assert("5"@ =~= seq!['5']);
    assert("21"@ =~= seq!['2', '1']);
    assert("90"@ =~= seq!['9', '0']);
    assert("94"@ =~= seq!['9', '4']);
    assert(seq!['2'][0] == '2');
    assert(seq!['3'][0] == '3');
    assert(seq!['4'][0] == '4');
    assert(seq!['5'][0] == '5');
    assert(seq!['0'][0] == '0');
    assert(seq!['1'][0] == '1');
    assert(seq!['2', '1'].len() == 2);
    assert(seq!['9', '0'].len() == 2);
    assert(seq!['9', '4'].len() == 2);
}

/// Whether two values differ by the position tolerance or more.
fn values_differ(a: i64, b: i64) -> (r: bool)
    ensures
        r == differs(a, b),
{
    let d: i128 = a as i128 - b as i128;
    d >= POSITION_EPS as i128 || -d >= POSITION_EPS as i128
}

/// Adds the word of an axis or of the feed, if its value must be written,
/// and says whether it did.
fn add_axis(builder: &mut BlockBuilder, letter: char, from: Option<i64>, to: i64, precision: usize) -> (emitted:
    bool)
    requires
        old(builder).wf(),
        'A' <= letter <= 'Z',
        letter != 'G',
        !non_g_letters(old(builder).words()).contains(letter),
    ensures
        final(builder).wf(),
        emitted == axis_needed(from, to),
        final(builder).words() == old(builder).words() + axis_word(
            letter,
            from,
            to,
            precision as nat,
        ),
        forall|c: char|
            non_g_letters(final(builder).words()).contains(c) ==> non_g_letters(
                old(builder).words(),
            ).contains(c) || c == letter,
{
    let needed = match from {
        Some(v) => values_differ(v, to),
        None => true,
    };
    let ghost before = builder.words();
    if needed {
        proof {
            lemma_letters_push(before, number_word(letter, to, precision as nat));
        }
        add_number(builder, letter, to, precision);
        assert(builder.words() =~= before + axis_word(letter, from, to, precision as nat));
        assert forall|c: char| non_g_letters(builder.words()).contains(c) implies non_g_letters(
            before,
        ).contains(c) || c == letter by {
            let s = non_g_letters(before).push(letter);
            let k = choose|k: int| 0 <= k < s.len() && s[k] == c;
            if k < non_g_letters(before).len() {
                assert(non_g_letters(before)[k] == c);
            }
        }
    } else {
        assert(builder.words() =~= before + axis_word(letter, from, to, precision as nat));
    }
    needed
}

/// The letters of a sequence with one more word.
pub proof fn lemma_letters_push(words: Seq<WordView>, w: WordView)
    ensures
        non_g_letters(words.push(w)) == (if w.letter != 'G' {
            non_g_letters(words).push(w.letter)
        } else {
            non_g_letters(words)
        }),
        first_motion(words.push(w)) == (match first_motion(words) {
            Some(m) => Some(m),
            None => if w.letter == 'G' && motion_code(w.value) {
                Some(w.value)
            } else {
                None
            },
        }),
{
    assert(words.push(w).drop_last() =~= words);
}

impl Writer {
    /// A writer with three decimals for coordinates and nothing in force.
    pub fn new() -> (w: Self)
        ensures
            w@ == (WriterView {
                precision: 3,
                motion: None,
                feed: None,
                spindle: None,
                last_position: None,
                blocks: Seq::empty(),
            }),
    {
        Writer {
            precision: 3,
            state: ModalState { motion: None, feed: None, spindle: None },
            last_position: None,
            program: Program::new(),
        }
    }

    /// Sets the decimals of coordinates: at least one.
    pub fn with_precision(self, precision: usize) -> (w: Self)
        ensures
            w@ == (WriterView {
                precision: if precision < 1 {
                    1
                } else {
                    precision as nat
                },
                motion: self@.motion,
                feed: self@.feed,
                spindle: self@.spindle,
                last_position: self@.last_position,
                blocks: self@.blocks,
            }),
    {
        let mut w = self;
        w.precision = if precision < 1 {
            1
        } else {
            precision
        };
        w
    }

    /// Writes the block that opens a program: `G21 G90 G94`.
    pub fn start_program(&mut self) -> (r: CamResult<()>)
        ensures
            r is Ok,
            final(self)@ == block_added(old(self)@, header_block()),
    {
        let mut block = BlockBuilder::new();
        proof {
            let w1 = g_word("21"@);
            let w2 = g_word("90"@);
            let e = Seq::<WordView>::empty();
            lemma_letters_push(e, w1);
            lemma_letters_push(e.push(w1), w2);
            lemma_code_lengths();
        }
        add_code(&mut block, 'G', "21");
        add_code(&mut block, 'G', "90");
        add_code(&mut block, 'G', "94");
        assert(block.words() =~= header_block().words);
        self.program.push(block.build());
        Ok(())
    }

    /// Writes a block that holds only a comment.
    pub fn comment(&mut self, text: &str)
        ensures
            final(self)@ == block_added(
                old(self)@,
                BlockView { words: Seq::empty(), comment: Some(text@) },
            ),
    {
        let block = Block { words: Vec::new(), comment: Some(String::from_str(text)) };
        assert(block@.words =~= Seq::<WordView>::empty());
        self.program.push(block);
    }

    /// Sets the spindle speed, which must be positive. Writes `M3 S<rpm>`
    /// unless that speed is in force.
    pub fn set_spindle(&mut self, rpm: i64) -> (r: CamResult<()>)
        ensures
            match r {
                Ok(_) => rpm > 0 && final(self)@ == spindle_effect(old(self)@, rpm),
                Err(e) => rpm <= 0 && final(self)@ == old(self)@ && e@
                    == CamErrorView::InvalidArgument("spindle RPM must be positive"@),
            },
    {
        if rpm <= 0 {
            return Err(CamError::invalid_argument("spindle RPM must be positive"));
        }
        match self.state.spindle {
            Some(s) => {
                if s == rpm {
                    return Ok(());
                }
            },
            None => {},
        }
        let mut block = BlockBuilder::new();
        proof {
            let e = Seq::<WordView>::empty();
            lemma_letters_push(e, m_word("3"@));
        }
        add_code(&mut block, 'M', "3");
        add_number(&mut block, 'S', rpm, 0);
        assert(block.words() =~= seq![m_word("3"@), number_word('S', rpm, 0)]);
        self.program.push(block.build());
        self.state.spindle = Some(rpm);
        Ok(())
    }

    /// Writes `M5`; no spindle speed is in force afterwards.
    pub fn stop_spindle(&mut self) -> (r: CamResult<()>)
        ensures
            r is Ok,
            final(self)@ == (WriterView {
                spindle: None,
                ..block_added(old(self)@, plain_block(seq![m_word("5"@)]))
            }),
    {
        let mut block = BlockBuilder::new();
        add_code(&mut block, 'M', "5");
        assert(block.words() =~= seq![m_word("5"@)]);
        self.program.push(block.build());
        self.state.spindle = None;
        Ok(())
    }

    /// Writes a motion to `to`. A feed rate, if given, must be positive; a
    /// motion with another feed rate is rejected and leaves the writer as
    /// it was. The block holds only what changes; if nothing does, no block
    /// is written.
    pub fn motion(&mut self, mode: MotionMode, to: Point3, feed: Option<i64>) -> (r: CamResult<()>)
        ensures
            match r {
                Ok(_) => (feed matches Some(rate) ==> rate > 0) && final(self)@ == motion_effect(
                    old(self)@,
                    mode,
                    to,
                    feed,
                ),
                Err(e) => (feed matches Some(rate) && rate <= 0) && final(self)@ == old(self)@
                    && e@ == CamErrorView::InvalidArgument("feed rate must be positive"@),
            },
    {
        let ghost v = self@;
        match feed {
            Some(rate) => {
                if rate <= 0 {
                    return Err(CamError::invalid_argument("feed rate must be positive"));
                }
            },
            None => {},
        }
        let mut block = BlockBuilder::new();
        let changed = match self.state.motion {
            Some(m) => m != mode,
            None => true,
        };
        if changed {
            proof {
                lemma_letters_push(Seq::<WordView>::empty(), g_word(mode.spec_code()));
            }
            add_code(&mut block, 'G', mode.code());
            self.state.motion = Some(mode);
        }
        let ghost g = block.words();
        assert(g =~= (if v.motion != Some(mode) {
            seq![g_word(mode.spec_code())]
        } else {
            Seq::empty()
        }));
        let (from_x, from_y, from_z) = match self.last_position {
            Some(last) => (Some(last.x), Some(last.y), Some(last.z)),
            None => (None, None, None),
        };
        add_axis(&mut block, 'X', from_x, to.x, self.precision);
        add_axis(&mut block, 'Y', from_y, to.y, self.precision);
        add_axis(&mut block, 'Z', from_z, to.z, self.precision);
        match feed {
            Some(rate) => {
                let emitted = add_axis(&mut block, 'F', self.state.feed, rate, 2);
                if emitted {
                    self.state.feed = Some(rate);
                }
            },
            None => {
                assert(block.words() + Seq::<WordView>::empty() =~= block.words());
            },
        }
        assert(block.words() == motion_words(v, mode, to, feed));
        if block.is_empty() {
            self.last_position = Some(to);
            return Ok(());
        }
        self.program.push(block.build());
        self.last_position = Some(to);
        Ok(())
    }

    /// Writes a dwell of `seconds`, which must be positive: `G4 P<seconds>`.
    pub fn dwell(&mut self, seconds: i64) -> (r: CamResult<()>)
        ensures
            match r {
                Ok(_) => seconds > 0 && final(self)@ == block_added(old(self)@, dwell_block(seconds)),
                Err(e) => seconds <= 0 && final(self)@ == old(self)@ && e@
                    == CamErrorView::InvalidArgument("dwell duration must be positive"@),
            },
    {
        if seconds <= 0 {
            return Err(CamError::invalid_argument("dwell duration must be positive"));
        }
        let mut block = BlockBuilder::new();
        proof {
            let e = Seq::<WordView>::empty();
            lemma_letters_push(e, g_word("4"@));
        }
        add_code(&mut block, 'G', "4");
        add_number(&mut block, 'P', seconds, 3);
        assert(block.words() =~= dwell_block(seconds).words);
        self.program.push(block.build());
        Ok(())
    }

    /// Writes the block that ends a program: `M2`.
    pub fn end_program(&mut self) -> (r: CamResult<()>)
        ensures
            r is Ok,
            final(self)@ == block_added(old(self)@, plain_block(seq![m_word("2"@)])),
    {
        let mut block = BlockBuilder::new();
        add_code(&mut block, 'M', "2");
        assert(block.words() =~= seq![m_word("2"@)]);
        self.program.push(block.build());
        Ok(())
    }

    /// The program written so far.
    pub fn finish(self) -> (p: Program)
        ensures
            p@ == self@.blocks,
    {
        self.program
    }
}

impl Default for Writer {
    fn default() -> (w: Self)
        ensures
            w@ == (WriterView {
                precision: 3,
                motion: None,
                feed: None,
                spindle: None,
                last_position: None,
                blocks: Seq::empty(),
            }),
    {
        Writer::new()
    }
}

/// A second rapid to the point of the first writes no block, and a rapid
/// writes at most one.
pub proof fn lemma_repeated_rapid_writes_nothing(v: WriterView, to: Point3)
    ensures
        ({
            let once = motion_effect(v, MotionMode::Rapid, to, None);
            let twice = motion_effect(once, MotionMode::Rapid, to, None);
            &&& once.blocks.len() <= v.blocks.len() + 1
            &&& twice.blocks == once.blocks
            &&& twice == once
        }),
{
    let once = motion_effect(v, MotionMode::Rapid, to, None);
    assert(motion_words(once, MotionMode::Rapid, to, None) =~= Seq::<WordView>::empty());
}

/// A feed that follows a rapid writes a block that begins with `G1`,
/// wherever the two lead.
pub proof fn lemma_feed_after_rapid_writes_g1(
    v: WriterView,
    first: Point3,
    second: Point3,
    rate: i64,
)
    ensures
        ({
            let once = motion_effect(v, MotionMode::Rapid, first, None);
            let twice = motion_effect(once, MotionMode::Linear, second, Some(rate));
            &&& twice.blocks.len() == once.blocks.len() + 1
            &&& twice.blocks.last().words[0] == g_word("1"@)
        }),
{
    let once = motion_effect(v, MotionMode::Rapid, first, None);
    let words = motion_words(once, MotionMode::Linear, second, Some(rate));
    assert(words[0] == g_word("1"@));
}

} // verus!

//! Why the validator accepts what the writer emits.
use vstd::prelude::*;
use crate::gcode::{
    axis_word, block_text, comment_text, decimals, dwell_block, fraction_text, g_word, header_block,
    lemma_code_lengths, lemma_letters_push, m_word, motion_words, non_g_letters, number_text,
    number_word, plain_block, pow10, program_text, rounded_magnitude, word_text, words_text,
    BlockView, MotionMode, WordView, WriterView,
};
use crate::geometry::Point3;
use crate::post::grammar::{
    after_sign, decimal_ok, digits_end, flush, g_number_ok, is_end, is_number, lemma_fault_sticks,
    lemma_run_concat, lemma_run_push, line_start, m_number_ok, run, seen_after, step,
    takes_number, token_fault, validation_fault, Scan,
};
use crate::text::{
    decimal, fixed_digits, is_digit, lemma_decimal_digits, lemma_fixed_digits, lemma_strip_zeros,
    upper, white_space,
};

verus! {

/// Whether `c` can stand in a token: it is no white space and opens no
/// comment.
pub open spec fn plain_char(c: char) -> bool {
    !white_space(c) && c != '('
}

/// Whether every character of `s` can stand in a token.
pub open spec fn plain(s: Seq<char>) -> bool {
    forall|i: int| 0 <= i < s.len() ==> plain_char(#[trigger] s[i])
}

/// Whether the validator takes the word: its letter is G or M with a number
/// that the controller knows, or an address with a number as its value.
pub open spec fn word_accepted(w: WordView) -> bool {
    &&& 'A' <= w.letter && w.letter <= 'Z'
    &&& plain(w.value)
    &&& (w.letter == 'G' ==> g_number_ok(w.value))
    &&& (w.letter == 'M' ==> m_number_ok(w.value))
    &&& (w.letter != 'G' && w.letter != 'M' ==> takes_number(w.letter) && is_number(w.value))
}

/// Whether a comment stays inside its parentheses and on its line.
pub open spec fn comment_clean(c: Seq<char>) -> bool {
    forall|i: int| 0 <= i < c.len() ==> #[trigger] c[i] != ')' && c[i] != '\n'
}

/// Whether the validator takes the block as a line.
pub open spec fn block_accepted(b: BlockView) -> bool {
    &&& forall|i: int| 0 <= i < b.words.len() ==> word_accepted(#[trigger] b.words[i])
    &&& non_g_letters(b.words).no_duplicates()
    &&& (b.comment matches Some(c) ==> comment_clean(c))
}

/// Whether the validator takes every block.
pub open spec fn accepted(blocks: Seq<BlockView>) -> bool {
    forall|i: int| 0 <= i < blocks.len() ==> block_accepted(#[trigger] blocks[i])
}

/// Characters that can stand in a token go into the token.
pub proof fn lemma_plain_run(st: Scan, s: Seq<char>)
    requires
        st.fault is None,
        !st.in_comment,
        plain(s),
    ensures
        run(st, s) == (Scan { token: st.token + s, ..st }),
    decreases s.len(),
{
    if s.len() == 0 {
        assert(st.token + s =~= st.token);
    } else {
        let init = s.drop_last();
        assert forall|i: int| 0 <= i < init.len() implies plain_char(#[trigger] init[i]) by {
            assert(init[i] == s[i]);
        }
        lemma_plain_run(st, init);
        assert(plain_char(s[s.len() - 1]));
        assert((st.token + init).push(s.last()) =~= st.token + s);
    }
}

/// A clean comment leaves the scan inside the comment.
pub proof fn lemma_comment_run(st: Scan, c: Seq<char>)
    requires
        st.fault is None,
        st.in_comment,
        comment_clean(c),
    ensures
        run(st, c) == st,
    decreases c.len(),
{
    if c.len() > 0 {
        let init = c.drop_last();
        assert forall|i: int| 0 <= i < init.len() implies #[trigger] init[i] != ')' && init[i]
            != '\n' by {
            assert(init[i] == c[i]);
        }
        lemma_comment_run(st, init);
        assert(c[c.len() - 1] != ')' && c[c.len() - 1] != '\n');
    }
}

/// The text of an accepted word is a token without fault.
pub proof fn lemma_word_token(w: WordView, seen: Seq<char>)
    requires
        word_accepted(w),
        w.letter != 'G' ==> !seen.contains(w.letter),
    ensures
        token_fault(word_text(w), seen) is None,
        seen_after(word_text(w), seen) == (if w.letter != 'G' {
            seen.push(w.letter)
        } else {
            seen
        }),
        plain(word_text(w)),
{
    let t = word_text(w);
    assert(t[0] == w.letter);
    assert(t.subrange(1, t.len() as int) =~= w.value);
    assert(upper(w.letter) == w.letter);
    assert forall|i: int| 0 <= i < t.len() implies plain_char(#[trigger] t[i]) by {
        if i > 0 {
            assert(t[i] == w.value[i - 1]);
        }
    }
}

/// A sequence without duplicates that ends with `x` has no other `x`.
pub proof fn lemma_no_duplicates_push(s: Seq<char>, x: char)
    ensures
        s.push(x).no_duplicates() <==> s.no_duplicates() && !s.contains(x),
{
    let t = s.push(x);
    if t.no_duplicates() {
        assert forall|i: int, j: int| 0 <= i < s.len() && 0 <= j < s.len() && i != j implies s[i]
            != s[j] by {
            assert(t[i] == s[i] && t[j] == s[j]);
        }
        if s.contains(x) {
            let k = choose|k: int| 0 <= k < s.len() && s[k] == x;
            assert(t[k] == x && t[s.len() as int] == x);
        }
    }
    if s.no_duplicates() && !s.contains(x) {
        assert forall|i: int, j: int| 0 <= i < t.len() && 0 <= j < t.len() && i != j implies t[i]
            != t[j] by {
            if i < s.len() && j < s.len() {
                assert(t[i] == s[i] && t[j] == s[j]);
            } else if i < s.len() {
                assert(s.contains(s[i]));
            } else {
                assert(s.contains(s[j]));
            }
        }
    }
}

/// The letters of the words without the last have no duplicates either, and
/// the last word's letter is not among them.
pub proof fn lemma_letters_of_init(words: Seq<WordView>)
    requires
        words.len() > 0,
        non_g_letters(words).no_duplicates(),
    ensures
        non_g_letters(words.drop_last()).no_duplicates(),
        words.last().letter != 'G' ==> !non_g_letters(words.drop_last()).contains(
            words.last().letter,
        ),
{
    if words.last().letter != 'G' {
        lemma_no_duplicates_push(non_g_letters(words.drop_last()), words.last().letter);
    }
}

/// Whether the end of the program has been read after the words, given
/// whether it had been read before them.
pub open spec fn words_ended(words: Seq<WordView>, ended: bool) -> bool
    decreases words.len(),
{
    if words.len() == 0 {
        ended
    } else {
        words_ended(words.drop_last(), ended) || is_end(word_text(words.last()))
    }
}

/// The scan of the words of an accepted block, from the start of a line:
/// the last word is the token that is being read, the letters of the words
/// before it have been seen.
pub proof fn lemma_words_run(line: nat, ended: bool, words: Seq<WordView>)
    requires
        words.len() > 0,
        forall|i: int| 0 <= i < words.len() ==> word_accepted(#[trigger] words[i]),
        non_g_letters(words).no_duplicates(),
    ensures
        run(line_start(line, ended), words_text(words)) == (Scan {
            line,
            in_comment: false,
            token: word_text(words.last()),
            seen: non_g_letters(words.drop_last()),
            fault: None,
            ended: words_ended(words.drop_last(), ended),
        }),
    decreases words.len(),
{
    let st0 = line_start(line, ended);
    let last = words.last();
    assert(word_accepted(words[words.len() - 1]));
    lemma_word_token(last, Seq::empty());
    if words.len() == 1 {
        lemma_plain_run(st0, word_text(last));
        assert(st0.token + word_text(last) =~= word_text(last));
        assert(words.drop_last() =~= Seq::<WordView>::empty());
    } else {
        let init = words.drop_last();
        assert forall|i: int| 0 <= i < init.len() implies word_accepted(#[trigger] init[i]) by {
            assert(init[i] == words[i]);
        }
        lemma_letters_of_init(words);
        lemma_words_run(line, ended, init);
        let a = words_text(init);
        let s_init = run(st0, a);
        lemma_letters_of_init(init);
        lemma_word_token(init.last(), non_g_letters(init.drop_last()));
        let flushed = step(s_init, ' ');
        assert(white_space(' '));
        assert(flushed == flush(s_init));
        assert(flushed.seen == non_g_letters(init));
        assert(flushed.ended == words_ended(init, ended));
        lemma_run_push(st0, a, ' ');
        lemma_run_concat(st0, a + seq![' '], word_text(last));
        assert(a + seq![' '] =~= a.push(' '));
        lemma_plain_run(flushed, word_text(last));
        assert(flushed.token + word_text(last) =~= word_text(last));
    }
}

/// The scan of an accepted block, from the start of a line, ends on that
/// line without fault, and so does the token that it leaves. The end of the
/// program has then been read if it had been read before or one of the
/// words is the word M2.
pub proof fn lemma_block_run(line: nat, ended: bool, b: BlockView)
    requires
        block_accepted(b),
    ensures
        run(line_start(line, ended), block_text(b)).fault is None,
        run(line_start(line, ended), block_text(b)).line == line,
        flush(run(line_start(line, ended), block_text(b))).fault is None,
        flush(run(line_start(line, ended), block_text(b))).line == line,
        flush(run(line_start(line, ended), block_text(b))).ended == words_ended(b.words, ended),
{
    let st0 = line_start(line, ended);
    if b.words.len() > 0 {
        lemma_words_run(line, ended, b.words);
        lemma_letters_of_init(b.words);
        assert(word_accepted(b.words[b.words.len() - 1]));
        lemma_word_token(b.words.last(), non_g_letters(b.words.drop_last()));
    } else {
        assert(run(st0, Seq::<char>::empty()) == st0);
    }
    let after_words = run(st0, words_text(b.words));
    match b.comment {
        None => {},
        Some(c) => {
            let spaced = if b.words.len() > 0 {
                words_text(b.words) + seq![' ']
            } else {
                Seq::<char>::empty()
            };
            let before = run(st0, spaced);
            if b.words.len() > 0 {
                assert(spaced =~= words_text(b.words).push(' '));
                lemma_run_push(st0, words_text(b.words), ' ');
                assert(white_space(' '));
                assert(before == flush(after_words));
            } else {
                assert(before == st0);
            }
            assert(before.fault is None && !before.in_comment && before.token.len() == 0);
            assert(before.ended == words_ended(b.words, ended));
            let opened = step(before, '(');
            lemma_run_push(st0, spaced, '(');
            lemma_comment_run(opened, c);
            lemma_run_concat(st0, spaced.push('('), c);
            let inside = run(st0, spaced.push('(') + c);
            assert(inside == opened);
            lemma_run_push(st0, spaced.push('(') + c, ')');
            assert((spaced.push('(') + c).push(')') =~= block_text(b));
        },
    }
}

/// The block that ends a program.
pub open spec fn end_block() -> BlockView {
    plain_block(seq![m_word("2"@)])
}

/// The block that ends a program is read as the end of the program.
pub proof fn lemma_end_block_ends(ended: bool)
    ensures
        words_ended(end_block().words, ended),
{
    lemma_code_lengths();
    let w = m_word("2"@);
    assert(end_block().words.last() == w);
    assert(word_text(w) =~= seq!['M', '2']);
}

/// The scan of an accepted program, from the start of a line, ends without
/// fault. The end of the program has then been read if it had been read
/// before or the last block is the block that ends a program.
pub proof fn lemma_program_run(line: nat, ended: bool, blocks: Seq<BlockView>)
    requires
        blocks.len() > 0,
        accepted(blocks),
    ensures
        run(line_start(line, ended), program_text(blocks)).fault is None,
        flush(run(line_start(line, ended), program_text(blocks))).fault is None,
        flush(run(line_start(line, ended), program_text(blocks))).line == line + blocks.len() - 1,
        ended ==> flush(run(line_start(line, ended), program_text(blocks))).ended,
        blocks.last() == end_block() ==> flush(
            run(line_start(line, ended), program_text(blocks)),
        ).ended,
    decreases blocks.len(),
{
    let st0 = line_start(line, ended);
    assert(block_accepted(blocks[blocks.len() - 1]));
    lemma_end_block_ends(ended);
    if blocks.len() == 1 {
        lemma_block_run(line, ended, blocks[0]);
        lemma_words_ended_grows(blocks[0].words, ended);
    } else {
        let init = blocks.drop_last();
        assert forall|i: int| 0 <= i < init.len() implies block_accepted(#[trigger] init[i]) by {
            assert(init[i] == blocks[i]);
        }
        lemma_program_run(line, ended, init);
        let a = program_text(init);
        let s_init = run(st0, a);
        let next = line_start((line + blocks.len() - 1) as nat, flush(s_init).ended);
        lemma_run_push(st0, a, '\n');
        assert(step(s_init, '\n') == next);
        assert(a + seq!['\n'] =~= a.push('\n'));
        lemma_run_concat(st0, a.push('\n'), block_text(blocks.last()));
        lemma_block_run(next.line, next.ended, blocks.last());
        lemma_words_ended_grows(blocks.last().words, next.ended);
        lemma_end_block_ends(next.ended);
    }
}

/// Once the end of the program has been read, it stays read.
pub proof fn lemma_words_ended_grows(words: Seq<WordView>, ended: bool)
    ensures
        ended ==> words_ended(words, ended),
    decreases words.len(),
{
    if words.len() > 0 {
        lemma_words_ended_grows(words.drop_last(), ended);
    }
}

/// The text of blocks one after the other is the texts of both runs of
/// blocks with a line feed between them.
pub proof fn lemma_program_text_concat(a: Seq<BlockView>, b: Seq<BlockView>)
    requires
        a.len() > 0,
        b.len() > 0,
    ensures
        program_text(a + b) == program_text(a) + seq!['\n'] + program_text(b),
    decreases b.len(),
{
    let all = a + b;
    assert(all.last() == b.last());
    if b.len() == 1 {
        assert(all.drop_last() =~= a);
    } else {
        assert(all.drop_last() =~= a + b.drop_last());
        lemma_program_text_concat(a, b.drop_last());
        assert(program_text(a) + seq!['\n'] + program_text(b.drop_last()) + seq!['\n'] + block_text(
            b.last(),
        ) =~= program_text(a) + seq!['\n'] + (program_text(b.drop_last()) + seq!['\n']
            + block_text(b.last())));
    }
}

/// The block that holds a name as a comment.
pub open spec fn name_block(name: Seq<char>) -> BlockView {
    BlockView { words: Seq::empty(), comment: Some(name) }
}

/// Whether the validator passes over a name that stands as a comment on the
/// second line of a program: it finds no fault up to the end of the last
/// line that the name takes.
pub open spec fn name_passes(name: Seq<char>) -> bool {
    flush(run(line_start(2, false), comment_text(name))).fault is None
}

/// A name without a closing parenthesis and without a line feed is passed
/// over.
pub proof fn lemma_clean_name_passes(name: Seq<char>)
    requires
        comment_clean(name),
    ensures
        name_passes(name),
{
    assert(non_g_letters(Seq::<WordView>::empty()).no_duplicates());
    lemma_block_run(2, false, name_block(name));
}

/// The validator finds no fault in the text of a program whose blocks it
/// takes and whose last block is the end of the program.
pub proof fn lemma_accepted_program_validates(blocks: Seq<BlockView>)
    requires
        blocks.len() > 0,
        accepted(blocks),
        blocks.last() == end_block(),
    ensures
        validation_fault(program_text(blocks)) is None,
{
    let text = program_text(blocks);
    lemma_program_run(1, false, blocks);
    lemma_code_lengths();
    let tail = block_text(blocks.last());
    assert(words_text(seq![m_word("2"@)]) == word_text(m_word("2"@)));
    assert(tail =~= seq!['M', '2']);
    let n = text.len() as int;
    if blocks.len() == 1 {
        assert(text =~= tail);
    } else {
        assert(text =~= program_text(blocks.drop_last()) + seq!['\n'] + tail);
    }
    assert(text[n - 2] == 'M');
    assert(!white_space('M'));
}

/// The validator finds no fault in the text of a program that begins with
/// the header and a name as a comment, goes on with blocks that it takes
/// and ends with the end of the program, if it passes over the name, and
/// only then.
pub proof fn lemma_posted_program_validates(name: Seq<char>, tail: Seq<BlockView>)
    requires
        tail.len() > 0,
        accepted(tail),
        tail.last() == end_block(),
    ensures
        validation_fault(program_text(seq![header_block(), name_block(name)] + tail)) is None
            <==> name_passes(name),
{
    let head = seq![header_block(), name_block(name)];
    let text = program_text(head + tail);
    let st0 = line_start(1, false);
    lemma_program_text_concat(head, tail);
    assert(head.len() == 2);
    assert(head.drop_last() =~= seq![header_block()]);
    assert(head.last() == name_block(name));
    assert(seq![header_block()].len() == 1);
    assert(program_text(seq![header_block()]) == block_text(header_block()));
    assert(block_text(name_block(name)) == comment_text(name));
    assert(program_text(head) == program_text(head.drop_last()) + seq!['\n'] + block_text(
        head.last(),
    ));
    assert(program_text(head) == block_text(header_block()) + seq!['\n'] + comment_text(name));
    let first = block_text(header_block());
    let second = comment_text(name);
    let rest = program_text(tail);
    assert(text =~= first.push('\n') + second.push('\n') + rest);
    // the header
    lemma_fixed_blocks_accepted(0, 0);
    lemma_block_run(1, false, header_block());
    lemma_header_has_no_end();
    lemma_run_push(st0, first, '\n');
    assert(run(st0, first.push('\n')) == line_start(2, false));
    assert(first.len() > 0 && first[0] == 'G') by {
        let words = header_block().words;
        lemma_header_text();
    }
    assert(text[0] == 'G');
    assert(!white_space('G'));
    // the name
    let start = line_start(2, false);
    let named = run(start, second);
    lemma_run_concat(st0, first.push('\n'), second.push('\n'));
    lemma_run_push(start, second, '\n');
    let after_name = step(named, '\n');
    assert(run(st0, first.push('\n') + second.push('\n')) == after_name);
    lemma_run_concat(st0, first.push('\n') + second.push('\n'), rest);
    if name_passes(name) {
        assert(named.fault is None);
        assert(after_name == line_start(named.line + 1, flush(named).ended));
        lemma_program_run(after_name.line, after_name.ended, tail);
    } else {
        if named.fault is Some {
            lemma_fault_sticks(named, seq!['\n']);
        }
        assert(after_name.fault is Some);
        lemma_fault_sticks(after_name, rest);
    }
}

/// None of the words of the header is the word that ends a program.
proof fn lemma_header_has_no_end()
    ensures
        !words_ended(header_block().words, false),
{
    lemma_code_lengths();
    let w1 = g_word("21"@);
    let w2 = g_word("90"@);
    let w3 = g_word("94"@);
    let e = Seq::<WordView>::empty();
    let a = e.push(w1);
    let b = a.push(w2);
    let c = b.push(w3);
    assert(header_block().words =~= c);
    assert(c.drop_last() =~= b && c.last() == w3);
    assert(b.drop_last() =~= a && b.last() == w2);
    assert(a.drop_last() =~= e && a.last() == w1);
    assert(word_text(w1).len() == 3);
    assert(word_text(w2).len() == 3);
    assert(word_text(w3).len() == 3);
    assert(!words_ended(e, false));
    assert(words_ended(a, false) == (words_ended(e, false) || is_end(word_text(w1))));
    assert(words_ended(b, false) == (words_ended(a, false) || is_end(word_text(w2))));
    assert(words_ended(c, false) == (words_ended(b, false) || is_end(word_text(w3))));
}

/// The text of the header begins with the letter G.
proof fn lemma_header_text()
    ensures
        block_text(header_block()).len() > 0,
        block_text(header_block())[0] == 'G',
{
    let w1 = g_word("21"@);
    let w2 = g_word("90"@);
    let w3 = g_word("94"@);
    let e = Seq::<WordView>::empty();
    let words = header_block().words;
    assert(words =~= e.push(w1).push(w2).push(w3));
    assert(words.drop_last() =~= e.push(w1).push(w2));
    assert(words.drop_last().drop_last() =~= e.push(w1));
    assert(words_text(e.push(w1)) == word_text(w1));
    assert(word_text(w1)[0] == 'G');
    let t1 = words_text(e.push(w1));
    let t2 = words_text(e.push(w1).push(w2));
    assert(e.push(w1).push(w2).drop_last() =~= e.push(w1));
    assert(t2 == t1 + seq![' '] + word_text(w2));
    assert(t2[0] == 'G');
    let t3 = words_text(words);
    assert(t3 == t2 + seq![' '] + word_text(w3));
    assert(t3[0] == 'G');
}

/// A run of digits that ends at index `j` ends there.
pub proof fn lemma_digits_run(s: Seq<char>, i: int, j: int)
    requires
        0 <= i <= j <= s.len(),
        forall|k: int| i <= k < j ==> is_digit(#[trigger] s[k]),
        j == s.len() || !is_digit(s[j]),
    ensures
        digits_end(s, i) == j,
    decreases j - i,
{
    if i < j {
        assert(is_digit(s[i]));
        lemma_digits_run(s, i + 1, j);
    }
}

/// The text of a number, as the writer formats it, is a number for the
/// validator and can stand in a token.
pub proof fn lemma_number_text_accepted(value: int, precision: nat)
    ensures
        is_number(number_text(value, precision)),
        plain(number_text(value, precision)),
{
    let t = number_text(value, precision);
    let m = rounded_magnitude(value, precision);
    let q = decimals(precision);
    let whole = decimal((m / (pow10(q) as int)) as nat);
    let fraction = fraction_text(value, precision);
    lemma_decimal_digits((m / (pow10(q) as int)) as nat);
    lemma_fixed_digits((m % (pow10(q) as int)) as nat, q);
    lemma_strip_zeros(fixed_digits((m % (pow10(q) as int)) as nat, q));
    let signed = value < 0 && m != 0;
    let from: int = if signed {
        1
    } else {
        0
    };
    let sign = if signed {
        seq!['-']
    } else {
        Seq::<char>::empty()
    };
    let point = if fraction.len() > 0 {
        seq!['.'] + fraction
    } else {
        Seq::<char>::empty()
    };
    assert(t =~= sign + whole + point);
    assert(is_digit(whole[0]));
    assert(t[from] == whole[0]);
    assert(after_sign(t) == from);
    let i1 = from + whole.len();
    assert forall|k: int| from <= k < i1 implies is_digit(#[trigger] t[k]) by {
        assert(t[k] == whole[k - from]);
        assert(is_digit(whole[k - from]));
    }
    if fraction.len() > 0 {
        assert(t[i1] == '.');
        lemma_digits_run(t, from, i1);
        assert forall|k: int| i1 + 1 <= k < t.len() implies is_digit(#[trigger] t[k]) by {
            assert(t[k] == fraction[k - i1 - 1]);
            assert(is_digit(fraction[k - i1 - 1]));
        }
        lemma_digits_run(t, i1 + 1, t.len() as int);
    } else {
        lemma_digits_run(t, from, i1);
    }
    assert(decimal_ok(t, from));
    assert forall|k: int| 0 <= k < t.len() implies plain_char(#[trigger] t[k]) by {
        if k < from {
            assert(t[k] == '-');
        } else if k < i1 {
            assert(is_digit(t[k]));
        } else if k == i1 {
            assert(t[k] == '.');
        } else {
            assert(is_digit(t[k]));
        }
    }
}

/// The word of an address with a number is accepted.
pub proof fn lemma_number_word_accepted(letter: char, value: i64, precision: nat)
    requires
        takes_number(letter),
    ensures
        word_accepted(number_word(letter, value, precision)),
{
    lemma_number_text_accepted(value as int, precision);
}

/// The G and M words that the writer emits are accepted.
pub proof fn lemma_code_words_accepted()
    ensures
        word_accepted(g_word("0"@)),
        word_accepted(g_word("1"@)),
        word_accepted(g_word("4"@)),
        word_accepted(g_word("21"@)),
        word_accepted(g_word("90"@)),
        word_accepted(g_word("94"@)),
        word_accepted(m_word("2"@)),
        word_accepted(m_word("3"@)),
        word_accepted(m_word("5"@)),
{
    lemma_code_lengths();
    assert(plain(seq!['0']) && plain(seq!['1']) && plain(seq!['2']) && plain(seq!['3']) && plain(
        seq!['4'],
    ) && plain(seq!['5']));
    assert(plain(seq!['2', '1']) && plain(seq!['9', '0']) && plain(seq!['9', '4']));
}

/// The blocks that frame a program and the blocks of spindle and dwell are
/// accepted.
pub proof fn lemma_fixed_blocks_accepted(rpm: i64, seconds: i64)
    ensures
        block_accepted(header_block()),
        block_accepted(plain_block(seq![m_word("3"@), number_word('S', rpm, 0)])),
        block_accepted(plain_block(seq![m_word("5"@)])),
        block_accepted(end_block()),
        block_accepted(dwell_block(seconds)),
{
    lemma_code_words_accepted();
    lemma_number_word_accepted('S', rpm, 0);
    lemma_number_word_accepted('P', seconds, 3);
    let e = Seq::<WordView>::empty();
    lemma_letters_push(e, g_word("21"@));
    lemma_letters_push(e.push(g_word("21"@)), g_word("90"@));
    lemma_letters_push(e.push(g_word("21"@)).push(g_word("90"@)), g_word("94"@));
    assert(header_block().words =~= e.push(g_word("21"@)).push(g_word("90"@)).push(g_word("94"@)));
    lemma_letters_push(e, m_word("3"@));
    lemma_letters_push(e.push(m_word("3"@)), number_word('S', rpm, 0));
    assert(seq![m_word("3"@), number_word('S', rpm, 0)] =~= e.push(m_word("3"@)).push(
        number_word('S', rpm, 0),
    ));
    lemma_no_duplicates_push(Seq::<char>::empty(), 'M');
    lemma_no_duplicates_push(Seq::<char>::empty().push('M'), 'S');
    lemma_letters_push(e, m_word("5"@));
    assert(seq![m_word("5"@)] =~= e.push(m_word("5"@)));
    lemma_letters_push(e, m_word("2"@));
    assert(seq![m_word("2"@)] =~= e.push(m_word("2"@)));
    lemma_letters_push(e, g_word("4"@));
    lemma_letters_push(e.push(g_word("4"@)), number_word('P', seconds, 3));
    assert(dwell_block(seconds).words =~= e.push(g_word("4"@)).push(number_word('P', seconds, 3)));
    lemma_no_duplicates_push(Seq::<char>::empty(), 'P');
}

/// One more optional word of a new letter keeps the words accepted and their
/// letters free of duplicates.
proof fn lemma_extend(words: Seq<WordView>, part: Seq<WordView>, letter: char, others: Set<char>)
    requires
        forall|i: int| 0 <= i < words.len() ==> word_accepted(#[trigger] words[i]),
        non_g_letters(words).no_duplicates(),
        forall|c: char| non_g_letters(words).contains(c) ==> others.contains(c),
        !others.contains(letter),
        part.len() == 0 || (part.len() == 1 && part[0].letter == letter && word_accepted(part[0])),
        letter != 'G',
    ensures
        forall|i: int| 0 <= i < (words + part).len() ==> word_accepted(#[trigger] (words + part)[i]),
        non_g_letters(words + part).no_duplicates(),
        forall|c: char|
            non_g_letters(words + part).contains(c) ==> others.insert(letter).contains(c),
{
    if part.len() == 0 {
        assert(words + part =~= words);
    } else {
        assert(words + part =~= words.push(part[0]));
        lemma_letters_push(words, part[0]);
        lemma_no_duplicates_push(non_g_letters(words), letter);
        assert forall|i: int| 0 <= i < (words + part).len() implies word_accepted(
            #[trigger] (words + part)[i],
        ) by {
            if i < words.len() {
                assert((words + part)[i] == words[i]);
            }
        }
        let l = non_g_letters(words).push(letter);
        assert forall|c: char| l.contains(c) implies others.insert(letter).contains(c) by {
            let k = choose|k: int| 0 <= k < l.len() && l[k] == c;
            if k < non_g_letters(words).len() {
                assert(non_g_letters(words).contains(c));
            }
        }
    }
}

/// The block of a motion is accepted.
pub proof fn lemma_motion_block_accepted(
    v: WriterView,
    mode: MotionMode,
    to: Point3,
    feed: Option<i64>,
)
    ensures
        block_accepted(plain_block(motion_words(v, mode, to, feed))),
{
    lemma_code_words_accepted();
    let e = Seq::<WordView>::empty();
    let g = if v.motion != Some(mode) {
        seq![g_word(mode.spec_code())]
    } else {
        e
    };
    let fx = match v.last_position {
        Some(p) => Some(p.x),
        None => None,
    };
    let fy = match v.last_position {
        Some(p) => Some(p.y),
        None => None,
    };
    let fz = match v.last_position {
        Some(p) => Some(p.z),
        None => None,
    };
    let x = axis_word('X', fx, to.x, v.precision);
    let y = axis_word('Y', fy, to.y, v.precision);
    let z = axis_word('Z', fz, to.z, v.precision);
    let f = match feed {
        Some(rate) => if crate::gcode::axis_needed(v.feed, rate) {
            seq![number_word('F', rate, 2)]
        } else {
            e
        },
        None => e,
    };
    lemma_number_word_accepted('X', to.x, v.precision);
    lemma_number_word_accepted('Y', to.y, v.precision);
    lemma_number_word_accepted('Z', to.z, v.precision);
    if feed is Some {
        lemma_number_word_accepted('F', feed->Some_0, 2);
    }
    lemma_letters_push(e, g_word(mode.spec_code()));
    assert(g =~= e || g =~= e.push(g_word(mode.spec_code())));
    assert(non_g_letters(g) =~= Seq::<char>::empty());
    let s0 = Set::<char>::empty();
    lemma_extend(g, x, 'X', s0);
    lemma_extend(g + x, y, 'Y', s0.insert('X'));
    lemma_extend(g + x + y, z, 'Z', s0.insert('X').insert('Y'));
    lemma_extend(g + x + y + z, f, 'F', s0.insert('X').insert('Y').insert('Z'));
    assert(motion_words(v, mode, to, feed) == g + x + y + z + f);
}

/// One more accepted block keeps a program accepted.
pub proof fn lemma_accepted_push(blocks: Seq<BlockView>, b: BlockView)
    requires
        accepted(blocks),
        block_accepted(b),
    ensures
        accepted(blocks.push(b)),
{
    assert forall|i: int| 0 <= i < blocks.push(b).len() implies block_accepted(
        #[trigger] blocks.push(b)[i],
    ) by {
        if i < blocks.len() {
            assert(blocks.push(b)[i] == blocks[i]);
        }
    }
}

} // verus!

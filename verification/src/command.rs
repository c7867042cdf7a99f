//! The command language: one line of text names one command.
//!
//! A line is read as whitespace-delimited words. `:q` alone quits;
//! `:f all`, `:f inspect max` and `:f <lower>..<upper>` act on the frames;
//! every other line is accepted and ignored. Words after a complete `:f`
//! command are not looked at.

use vstd::prelude::*;

verus! {

/// What a line of input asks for.
#[derive(Debug, Clone, Copy, PartialEq, Eq, Structural)]
pub enum Command {
    /// `:q`: end the session.
    Quit,
    /// `:f all`: show every frame.
    ShowAll,
    /// `:f inspect max`: look into the frame that took longest.
    InspectMax,
    /// `:f <lower>..<upper>`: show the frames between two positions.
    Range(usize, usize),
    /// Anything else.
    Ignored,
}

/// Whether a character separates words: the characters with the Unicode
/// property `White_Space`.
pub open spec fn is_space(c: char) -> bool {
    let code = c as u32;
    ||| 0x09 <= code <= 0x0D
    ||| code == 0x20
    ||| code == 0x85
    ||| code == 0xA0
    ||| code == 0x1680
    ||| 0x2000 <= code <= 0x200A
    ||| code == 0x2028
    ||| code == 0x2029
    ||| code == 0x202F
    ||| code == 0x205F
    ||| code == 0x3000
}

/// The number of characters before the first separator.
pub open spec fn word_len(text: Seq<char>) -> nat
    decreases text.len(),
{
    if text.len() == 0 || is_space(text[0]) {
        0
    } else {
        1 + word_len(text.skip(1))
    }
}

/// The first word ends inside the text.
pub proof fn lemma_word_len_bound(text: Seq<char>)
    ensures
        word_len(text) <= text.len(),
        text.len() > 0 && !is_space(text[0]) ==> word_len(text) > 0,
    decreases text.len(),
{
    if text.len() == 0 || is_space(text[0]) {
    } else {
        lemma_word_len_bound(text.skip(1));
    }
}

/// The words of a line: its maximal runs of characters that are not
/// separators, from left to right.
pub open spec fn words(text: Seq<char>) -> Seq<Seq<char>>
    decreases text.len(),
{
    if text.len() == 0 {
        Seq::empty()
    } else if is_space(text[0]) {
        words(text.skip(1))
    } else {
        proof {
            lemma_word_len_bound(text);
        }
        seq![text.take(word_len(text) as int)] + words(text.skip(word_len(text) as int))
    }
}

/// Whether a character is one of `0` to `9`.
pub open spec fn is_digit(c: char) -> bool {
    '0' <= c <= '9'
}

/// The number that a string of decimal digits writes.
pub open spec fn decimal_value(digits: Seq<char>) -> nat
    decreases digits.len(),
{
    if digits.len() == 0 {
        0
    } else {
        (10 * decimal_value(digits.drop_last()) + (digits.last() as u32 - '0' as u32)) as nat
    }
}

/// The digits of a numeral: the numeral without the `+` it may start with.
pub open spec fn digits_of(numeral: Seq<char>) -> Seq<char> {
    if numeral.len() > 0 && numeral[0] == '+' {
        numeral.skip(1)
    } else {
        numeral
    }
}

/// The frame position that a word writes: one or more decimal digits,
/// after an optional `+`, that stay within `usize`.
pub open spec fn index_of(numeral: Seq<char>) -> Option<usize> {
    let digits = digits_of(numeral);
    if digits.len() > 0 && (forall|i: int| 0 <= i < digits.len() ==> is_digit(#[trigger] digits[i]))
        && decimal_value(digits) <= usize::MAX {
        Some(decimal_value(digits) as usize)
    } else {
        None
    }
}

/// The number of characters before the first `.`.
pub open spec fn dot_free_len(word: Seq<char>) -> nat
    decreases word.len(),
{
    if word.len() == 0 || word[0] == '.' {
        0
    } else {
        1 + dot_free_len(word.skip(1))
    }
}

/// The bounds that a word of the form `<lower>..<upper>` writes, where both
/// are frame positions.
pub open spec fn range_of(word: Seq<char>) -> Option<(usize, usize)> {
    let dot = dot_free_len(word) as int;
    if dot + 1 < word.len() && word[dot + 1] == '.' {
        match (index_of(word.take(dot)), index_of(word.skip(dot + 2))) {
            (Some(lower), Some(upper)) => Some((lower, upper)),
            _ => None,
        }
    } else {
        None
    }
}

/// The command that a list of words names.
pub open spec fn command_of_words(words: Seq<Seq<char>>) -> Command {
    if words.len() == 1 && words[0] == seq![':', 'q'] {
        Command::Quit
    } else if words.len() >= 2 && words[0] == seq![':', 'f'] {
        if words[1] == seq!['a', 'l', 'l'] {
            Command::ShowAll
        } else if words[1] == seq!['i', 'n', 's', 'p', 'e', 'c', 't'] {
            if words.len() >= 3 && words[2] == seq!['m', 'a', 'x'] {
                Command::InspectMax
            } else {
                Command::Ignored
            }
        } else {
            match range_of(words[1]) {
                Some((lower, upper)) => Command::Range(lower, upper),
                None => Command::Ignored,
            }
        }
    } else {
        Command::Ignored
    }
}

/// The command that a line names.
pub open spec fn command_of(line: Seq<char>) -> Command {
    command_of_words(words(line))
}

/// The words held by a list of character vectors.
pub open spec fn word_views(words: Seq<Vec<char>>) -> Seq<Seq<char>> {
    words.map_values(|w: Vec<char>| w@)
}

/// Whether a character separates words.
pub fn is_separator(c: char) -> (b: bool)
    ensures
        b == is_space(c),
{
    let code = c as u32;
    (0x09 <= code && code <= 0x0D) || code == 0x20 || code == 0x85 || code == 0xA0 || code
        == 0x1680 || (0x2000 <= code && code <= 0x200A) || code == 0x2028 || code == 0x2029
        || code == 0x202F || code == 0x205F || code == 0x3000
}

/// The characters of a string, in order.
pub fn chars_of(text: &str) -> (chars: Vec<char>)
    ensures
        chars@ == text@,
{
    let mut chars: Vec<char> = Vec::new();
    for c in it: text.chars()
        invariant
            it.seq() == text@,
            chars@ == text@.take(it.index() as int),
    {
        proof {
            assert(text@.take(it.index() + 1) =~= text@.take(it.index() as int).push(c));
        }
        chars.push(c);
    }
    assert(text@.take(text@.len() as int) =~= text@);
    chars
}

/// Whether a word is spelled as the given text.
pub fn word_is(word: &[char], text: &str) -> (b: bool)
    ensures
        b == (word@ == text@),
{
    let spelled = chars_of(text);
    if word.len() != spelled.len() {
        return false;
    }
    let mut i: usize = 0;
    while i < word.len()
        invariant
            i <= word.len(),
            word.len() == spelled.len(),
            spelled@ == text@,
            forall|k: int| 0 <= k < i ==> word@[k] == spelled@[k],
        decreases word.len() - i,
    {
        if word[i] != spelled[i] {
            assert(word@[i as int] != text@[i as int]);
            return false;
        }
        i += 1;
    }
    assert(word@ =~= spelled@);
    true
}

/// Splits a line into its words.
pub fn split_words(line: &[char]) -> (found: Vec<Vec<char>>)
    ensures
        word_views(found@) == words(line@),
{
    let mut found: Vec<Vec<char>> = Vec::new();
    let mut i: usize = 0;
    proof {
        assert(line@.skip(0) =~= line@);
        assert(word_views(found@) + words(line@.skip(0)) =~= words(line@));
    }
    while i < line.len()
        invariant
            i <= line.len(),
            word_views(found@) + words(line@.skip(i as int)) == words(line@),
        decreases line.len() - i,
    {
        if is_separator(line[i]) {
            proof {
                assert(line@.skip(i as int).skip(1) =~= line@.skip(i + 1));
            }
            i += 1;
        } else {
            let start = i;
            let mut word: Vec<char> = Vec::new();
            proof {
                assert(line@.subrange(start as int, i as int) =~= Seq::<char>::empty());
            }
            while i < line.len() && !is_separator(line[i])
                invariant
                    start <= i <= line.len(),
                    word@ == line@.subrange(start as int, i as int),
                    word_len(line@.skip(start as int)) == (i - start) + word_len(
                        line@.skip(i as int),
                    ),
                decreases line.len() - i,
            {
                proof {
                    assert(line@.skip(i as int).skip(1) =~= line@.skip(i + 1));
                    assert(line@.subrange(start as int, i + 1) =~= line@.subrange(
                        start as int,
                        i as int,
                    ).push(line@[i as int]));
                }
                word.push(line[i]);
                i += 1;
            }
            proof {
                let tail = line@.skip(start as int);
                assert(word_len(line@.skip(i as int)) == 0);
                assert(tail.take(i - start) =~= word@);
                assert(tail.skip(i - start) =~= line@.skip(i as int));
                assert(word_views(found@.push(word)) =~= word_views(found@).push(word@));
                assert(word_views(found@).push(word@) + words(line@.skip(i as int)) =~= word_views(
                    found@,
                ) + words(tail));
            }
            found.push(word);
        }
    }
    proof {
        assert(word_views(found@) + words(line@.skip(i as int)) =~= word_views(found@));
    }
    found
}

/// A prefix of a string of digits writes no greater a number than the whole.
proof fn lemma_decimal_value_prefix(digits: Seq<char>, k: int)
    requires
        0 <= k <= digits.len(),
        forall|i: int| 0 <= i < digits.len() ==> is_digit(#[trigger] digits[i]),
    ensures
        decimal_value(digits.take(k)) <= decimal_value(digits),
    decreases digits.len() - k,
{
    if k == digits.len() {
        assert(digits.take(k) =~= digits);
    } else {
        lemma_decimal_value_prefix(digits, k + 1);
        assert(digits.take(k + 1).drop_last() =~= digits.take(k));
        assert(is_digit(digits[k]));
    }
}

/// Reads a frame position: one or more decimal digits, after an optional
/// `+`. A word that is anything else, or that writes a number beyond
/// `usize`, is no position.
pub fn parse_index(numeral: &[char]) -> (index: Option<usize>)
    ensures
        index == index_of(numeral@),
{
    let start: usize = if numeral.len() > 0 && numeral[0] == '+' {
        1
    } else {
        0
    };
    let ghost digits = digits_of(numeral@);
    assert(digits =~= numeral@.skip(start as int));
    if start == numeral.len() {
        return None;
    }
    let mut value: usize = 0;
    let mut i: usize = start;
    proof {
        assert(digits.take(0) =~= Seq::<char>::empty());
    }
    while i < numeral.len()
        invariant
            start <= i <= numeral.len(),
            digits == numeral@.skip(start as int),
            digits == digits_of(numeral@),
            digits.len() > 0,
            forall|k: int| 0 <= k < i - start ==> is_digit(#[trigger] digits[k]),
            value == decimal_value(digits.take(i - start)),
        decreases numeral.len() - i,
    {
        let c = numeral[i];
        if !('0' <= c && c <= '9') {
            assert(!is_digit(digits[i - start]));
            return None;
        }
        let digit = (c as u32 - '0' as u32) as usize;
        proof {
            assert(digits.take(i - start + 1).drop_last() =~= digits.take(i - start));
            assert(digits.take(i - start + 1).last() == c);
            if forall|k: int| 0 <= k < digits.len() ==> is_digit(#[trigger] digits[k]) {
                lemma_decimal_value_prefix(digits, i - start + 1);
            }
        }
        let tens = match value.checked_mul(10) {
            Some(tens) => tens,
            None => {
                return None;
            },
        };
        value = match tens.checked_add(digit) {
            Some(sum) => sum,
            None => {
                return None;
            },
        };
        i += 1;
    }
    assert(digits.take(digits.len() as int) =~= digits);
    Some(value)
}

/// Reads the bounds of a word of the form `<lower>..<upper>`.
pub fn parse_range(word: &[char]) -> (bounds: Option<(usize, usize)>)
    ensures
        bounds == range_of(word@),
{
    let mut dot: usize = 0;
    proof {
        assert(word@.skip(0) =~= word@);
    }
    while dot < word.len() && word[dot] != '.'
        invariant
            dot <= word.len(),
            dot_free_len(word@) == dot + dot_free_len(word@.skip(dot as int)),
        decreases word.len() - dot,
    {
        proof {
            assert(word@.skip(dot as int).skip(1) =~= word@.skip(dot + 1));
        }
        dot += 1;
    }
    assert(dot_free_len(word@) == dot);
    if dot < word.len() && dot + 1 < word.len() && word[dot + 1] == '.' {
        let lower = parse_index(&word[0..dot]);
        let upper = parse_index(&word[dot + 2..word.len()]);
        proof {
            assert(word@.subrange(0, dot as int) =~= word@.take(dot as int));
            assert(word@.subrange(dot + 2, word.len() as int) =~= word@.skip(dot + 2));
        }
        match (lower, upper) {
            (Some(lower), Some(upper)) => Some((lower, upper)),
            _ => None,
        }
    } else {
        None
    }
}

impl Command {
    /// The command that a list of words names.
    pub fn from_words(words: &Vec<Vec<char>>) -> (command: Command)
        ensures
            command == command_of_words(word_views(words@)),
    {
        proof {
            reveal_strlit(":q");
            reveal_strlit(":f");
            reveal_strlit("all");
            reveal_strlit("inspect");
            reveal_strlit("max");
            assert(":q"@ =~= seq![':', 'q']);
            assert(":f"@ =~= seq![':', 'f']);
            assert("all"@ =~= seq!['a', 'l', 'l']);
            assert("inspect"@ =~= seq!['i', 'n', 's', 'p', 'e', 'c', 't']);
            assert("max"@ =~= seq!['m', 'a', 'x']);
        }
        if words.len() == 1 && word_is(words[0].as_slice(), ":q") {
            Command::Quit
        } else if words.len() >= 2 && word_is(words[0].as_slice(), ":f") {
            if word_is(words[1].as_slice(), "all") {
                Command::ShowAll
            } else if word_is(words[1].as_slice(), "inspect") {
                if words.len() >= 3 && word_is(words[2].as_slice(), "max") {
                    Command::InspectMax
                } else {
                    Command::Ignored
                }
            } else {
                match parse_range(words[1].as_slice()) {
                    Some((lower, upper)) => Command::Range(lower, upper),
                    None => Command::Ignored,
                }
            }
        } else {
            Command::Ignored
        }
    }

    /// The command that a line of input names.
    pub fn parse(line: &[char]) -> (command: Command)
        ensures
            command == command_of(line@),
    {
        let words = split_words(line);
        Command::from_words(&words)
    }

    /// The command that a line of input names.
    pub fn parse_str(line: &str) -> (command: Command)
        ensures
            command == command_of(line@),
    {
        let chars = chars_of(line);
        Command::parse(chars.as_slice())
    }
}

/// A run of characters that are not separators, followed by a separator or
/// by nothing, is a word in full.
proof fn lemma_word_len_of_word(word: Seq<char>, tail: Seq<char>)
    requires
        forall|i: int| 0 <= i < word.len() ==> !is_space(#[trigger] word[i]),
        tail.len() == 0 || is_space(tail[0]),
    ensures
        word_len(word + tail) == word.len(),
    decreases word.len(),
{
    if word.len() == 0 {
        assert(word + tail =~= tail);
    } else {
        assert((word + tail)[0] == word[0]);
        assert((word + tail).skip(1) =~= word.skip(1) + tail);
        assert forall|i: int| 0 <= i < word.skip(1).len() implies !is_space(
            #[trigger] word.skip(1)[i],
        ) by {
            assert(word.skip(1)[i] == word[i + 1]);
        }
        lemma_word_len_of_word(word.skip(1), tail);
    }
}

/// A line that starts with a word has that word first; the other words are
/// those of what follows it.
pub proof fn lemma_words_after_word(word: Seq<char>, tail: Seq<char>)
    requires
        word.len() > 0,
        forall|i: int| 0 <= i < word.len() ==> !is_space(#[trigger] word[i]),
        tail.len() == 0 || is_space(tail[0]),
    ensures
        words(word + tail) == seq![word] + words(tail),
{
    let line = word + tail;
    lemma_word_len_of_word(word, tail);
    assert(line[0] == word[0]);
    assert(line.take(word.len() as int) =~= word);
    assert(line.skip(word.len() as int) =~= tail);
}

/// Separators at the start of a line do not count.
pub proof fn lemma_words_after_space(space: char, tail: Seq<char>)
    requires
        is_space(space),
    ensures
        words(seq![space] + tail) == words(tail),
{
    assert((seq![space] + tail).skip(1) =~= tail);
}

/// Whether a string could be a word: it holds at least one character and
/// no separator.
pub open spec fn is_word(word: Seq<char>) -> bool {
    word.len() > 0 && forall|i: int| 0 <= i < word.len() ==> !is_space(#[trigger] word[i])
}

/// Every word of a line is a word.
pub proof fn lemma_words_are_words(text: Seq<char>)
    ensures
        forall|k: int| 0 <= k < words(text).len() ==> is_word(#[trigger] words(text)[k]),
    decreases text.len(),
{
    if text.len() == 0 {
        assert(words(text).len() == 0);
    } else if is_space(text[0]) {
        lemma_words_are_words(text.skip(1));
        assert(words(text) == words(text.skip(1)));
    } else {
        lemma_word_len_bound(text);
        lemma_word_is_space_free(text);
        let first = text.take(word_len(text) as int);
        let rest = words(text.skip(word_len(text) as int));
        lemma_words_are_words(text.skip(word_len(text) as int));
        assert(words(text) == seq![first] + rest);
        assert(is_word(first));
        assert forall|k: int| 0 <= k < words(text).len() implies is_word(
            #[trigger] words(text)[k],
        ) by {
            if k > 0 {
                assert(words(text)[k] == rest[k - 1]);
            }
        }
    }
}

/// No separator stands before the end of the first word.
proof fn lemma_word_is_space_free(text: Seq<char>)
    ensures
        forall|i: int| 0 <= i < word_len(text) ==> !is_space(#[trigger] text[i]),
    decreases text.len(),
{
    if text.len() == 0 || is_space(text[0]) {
    } else {
        lemma_word_is_space_free(text.skip(1));
        lemma_word_len_bound(text);
        assert forall|i: int| 0 <= i < word_len(text) implies !is_space(#[trigger] text[i]) by {
            if i > 0 {
                assert(text[i] == text.skip(1)[i - 1]);
            }
        }
    }
}

/// A frame position is written without separators and without dots.
pub proof fn lemma_index_is_plain(numeral: Seq<char>)
    requires
        index_of(numeral) is Some,
    ensures
        numeral.len() > 0,
        forall|i: int|
            0 <= i < numeral.len() ==> !is_space(#[trigger] numeral[i]) && numeral[i] != '.',
{
    let digits = digits_of(numeral);
    assert forall|i: int| 0 <= i < numeral.len() implies !is_space(#[trigger] numeral[i])
        && numeral[i] != '.' by {
        if numeral[0] == '+' {
            if i > 0 {
                assert(numeral[i] == digits[i - 1]);
                assert(is_digit(digits[i - 1]));
            }
        } else {
            assert(is_digit(digits[i]));
        }
    }
}

/// A run of characters other than `.`, followed by a `.` or by nothing,
/// ends where the first `.` stands.
proof fn lemma_dot_free_len_of_prefix(prefix: Seq<char>, tail: Seq<char>)
    requires
        forall|i: int| 0 <= i < prefix.len() ==> #[trigger] prefix[i] != '.',
        tail.len() == 0 || tail[0] == '.',
    ensures
        dot_free_len(prefix + tail) == prefix.len(),
    decreases prefix.len(),
{
    if prefix.len() == 0 {
        assert(prefix + tail =~= tail);
    } else {
        assert((prefix + tail)[0] == prefix[0]);
        assert((prefix + tail).skip(1) =~= prefix.skip(1) + tail);
        assert forall|i: int| 0 <= i < prefix.skip(1).len() implies #[trigger] prefix.skip(1)[i]
            != '.' by {
            assert(prefix.skip(1)[i] == prefix[i + 1]);
        }
        lemma_dot_free_len_of_prefix(prefix.skip(1), tail);
    }
}

/// Two frame positions with `..` between them write a range: the word
/// `<lower>..<upper>` gives exactly the two positions.
pub proof fn lemma_range_of_positions(lower: Seq<char>, upper: Seq<char>)
    requires
        index_of(lower) is Some,
        index_of(upper) is Some,
    ensures
        range_of(lower + seq!['.', '.'] + upper) == Some((index_of(lower)->0, index_of(upper)->0)),
{
    let word = lower + seq!['.', '.'] + upper;
    lemma_index_is_plain(lower);
    assert(word =~= lower + (seq!['.', '.'] + upper));
    lemma_dot_free_len_of_prefix(lower, seq!['.', '.'] + upper);
    let dot = lower.len() as int;
    assert(word[dot + 1] == '.');
    assert(word.take(dot) =~= lower);
    assert(word.skip(dot + 2) =~= upper);
}

/// A word that holds no `..` writes no range.
pub proof fn lemma_no_range_without_dots(word: Seq<char>)
    requires
        forall|i: int| 0 <= i < word.len() - 1 ==> !(#[trigger] word[i] == '.' && word[i + 1] == '.'),
    ensures
        range_of(word) is None,
{
    lemma_first_dot(word);
}

/// Where the dot-free start of a word ends inside the word, a `.` stands.
proof fn lemma_first_dot(word: Seq<char>)
    ensures
        dot_free_len(word) <= word.len(),
        dot_free_len(word) < word.len() ==> word[dot_free_len(word) as int] == '.',
    decreases word.len(),
{
    if word.len() == 0 || word[0] == '.' {
    } else {
        lemma_first_dot(word.skip(1));
    }
}

/// The line `:f <lower>..<upper>` names the range between the two
/// positions, whatever they are.
pub proof fn lemma_range_line(lower: Seq<char>, upper: Seq<char>)
    requires
        index_of(lower) is Some,
        index_of(upper) is Some,
    ensures
        command_of(seq![':', 'f', ' '] + lower + seq!['.', '.'] + upper) == Command::Range(
            index_of(lower)->0,
            index_of(upper)->0,
        ),
{
    let word = lower + seq!['.', '.'] + upper;
    let line = seq![':', 'f', ' '] + lower + seq!['.', '.'] + upper;
    lemma_index_is_plain(lower);
    lemma_index_is_plain(upper);
    lemma_range_of_positions(lower, upper);
    assert(word[lower.len() as int] == '.');
    assert(line =~= seq![':', 'f'] + (seq![' '] + word));
    lemma_words_after_word(seq![':', 'f'], seq![' '] + word);
    lemma_words_after_space(' ', word);
    assert(word =~= word + Seq::<char>::empty());
    lemma_words_after_word(word, Seq::empty());
    assert(words(line) =~= seq![seq![':', 'f'], word]);
    assert(word != seq!['a', 'l', 'l']) by {
        if lower.len() < 3 {
            assert(word[lower.len() as int] == '.');
        } else {
            assert(word.len() > 3);
        }
    }
    assert(word != seq!['i', 'n', 's', 'p', 'e', 'c', 't']) by {
        if lower.len() < 7 {
            assert(word[lower.len() as int] == '.');
        } else {
            assert(word.len() > 7);
        }
    }
}

/// The words of the lines `:q`, `:f all` and `:f inspect max`: each names
/// its command.
pub proof fn lemma_fixed_lines()
    ensures
        command_of(seq![':', 'q']) == Command::Quit,
        command_of(seq![':', 'f', ' ', 'a', 'l', 'l']) == Command::ShowAll,
        command_of(
            seq![':', 'f', ' ', 'i', 'n', 's', 'p', 'e', 'c', 't', ' ', 'm', 'a', 'x'],
        ) == Command::InspectMax,
{
    let quit = seq![':', 'q'];
    let frame = seq![':', 'f'];
    let all = seq!['a', 'l', 'l'];
    let inspect = seq!['i', 'n', 's', 'p', 'e', 'c', 't'];
    let max = seq!['m', 'a', 'x'];
    let none = Seq::<char>::empty();
    assert(quit =~= quit + none);
    lemma_words_after_word(quit, none);
    assert(words(quit) =~= seq![quit]);

    assert(seq![':', 'f', ' ', 'a', 'l', 'l'] =~= frame + (seq![' '] + all));
    lemma_words_after_word(frame, seq![' '] + all);
    lemma_words_after_space(' ', all);
    assert(all =~= all + none);
    lemma_words_after_word(all, none);
    assert(words(frame + (seq![' '] + all)) =~= seq![frame, all]);

    let tail = seq![' '] + max;
    assert(seq![':', 'f', ' ', 'i', 'n', 's', 'p', 'e', 'c', 't', ' ', 'm', 'a', 'x'] =~= frame + (
    seq![' '] + (inspect + tail)));
    lemma_words_after_word(frame, seq![' '] + (inspect + tail));
    lemma_words_after_space(' ', inspect + tail);
    lemma_words_after_word(inspect, tail);
    lemma_words_after_space(' ', max);
    assert(max =~= max + none);
    lemma_words_after_word(max, none);
    assert(words(frame + (seq![' '] + (inspect + tail))) =~= seq![frame, inspect, max]);
    assert(inspect != all);
}

/// A line `:f <word>` whose word is neither `all` nor `inspect` nor a
/// range is ignored.
pub proof fn lemma_malformed_bounds_line(word: Seq<char>)
    requires
        word.len() > 0,
        forall|i: int| 0 <= i < word.len() ==> !is_space(#[trigger] word[i]),
        word != seq!['a', 'l', 'l'],
        word != seq!['i', 'n', 's', 'p', 'e', 'c', 't'],
        range_of(word) is None,
    ensures
        command_of(seq![':', 'f', ' '] + word) == Command::Ignored,
{
    let line = seq![':', 'f', ' '] + word;
    assert(line =~= seq![':', 'f'] + (seq![' '] + word));
    lemma_words_after_word(seq![':', 'f'], seq![' '] + word);
    lemma_words_after_space(' ', word);
    assert(word =~= word + Seq::<char>::empty());
    lemma_words_after_word(word, Seq::empty());
    assert(words(line) =~= seq![seq![':', 'f'], word]);
}

} // verus!

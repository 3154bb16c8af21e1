//! Laying a message out on a small display: words are wrapped into lines
//! of a given width, and the lines are placed one below the other.

use crate::text::{chars_of, is_whitespace, whitespace};
use vstd::prelude::*;
use vstd::utf8::encode_utf8;

verus! {

/// The length of `s` in bytes, as UTF-8.
pub open spec fn byte_len(s: Seq<char>) -> nat {
    encode_utf8(s).len()
}

/// How many characters stand at the start of `s` before its first
/// whitespace.
pub open spec fn word_len(s: Seq<char>) -> nat
    decreases s.len(),
{
    if s.len() == 0 || is_whitespace(s[0]) {
        0
    } else {
        1 + word_len(s.skip(1))
    }
}

/// The words of `s`: its longest runs of characters that are not
/// whitespace, in order.
pub open spec fn words(s: Seq<char>) -> Seq<Seq<char>>
    decreases s.len(),
{
    if s.len() == 0 {
        seq![]
    } else if is_whitespace(s[0]) {
        words(s.skip(1))
    } else {
        proof {
            lemma_word_len_bound(s);
        }
        seq![s.take(word_len(s) as int)] + words(s.skip(word_len(s) as int))
    }
}

/// A word is never longer than the text it starts.
pub proof fn lemma_word_len_bound(s: Seq<char>)
    ensures
        word_len(s) <= s.len(),
        s.len() > 0 && !is_whitespace(s[0]) ==> word_len(s) >= 1,
    decreases s.len(),
{
    if s.len() > 0 && !is_whitespace(s[0]) {
        lemma_word_len_bound(s.skip(1));
    }
}

/// A word: at least one character, and none that is whitespace.
pub open spec fn is_word(word: Seq<char>) -> bool {
    word.len() > 0 && forall|j: int| 0 <= j < word.len() ==> !is_whitespace(#[trigger] word[j])
}

/// No character of a text's first word is whitespace.
pub proof fn lemma_word_has_no_space(s: Seq<char>)
    ensures
        word_len(s) <= s.len(),
        forall|j: int| 0 <= j < word_len(s) ==> !is_whitespace(#[trigger] s[j]),
    decreases s.len(),
{
    lemma_word_len_bound(s);
    if s.len() > 0 && !is_whitespace(s[0]) {
        lemma_word_has_no_space(s.skip(1));
        assert forall|j: int| 0 <= j < word_len(s) implies !is_whitespace(#[trigger] s[j]) by {
            if j > 0 {
                assert(s[j] == s.skip(1)[j - 1]);
            }
        }
    }
}

/// Everything that `words` finds is a word.
pub proof fn lemma_words_are_words(s: Seq<char>)
    ensures
        forall|i: int| 0 <= i < words(s).len() ==> is_word(#[trigger] words(s)[i]),
    decreases s.len(),
{
    if s.len() == 0 {
    } else if is_whitespace(s[0]) {
        lemma_words_are_words(s.skip(1));
        assert(words(s) == words(s.skip(1)));
    } else {
        lemma_word_len_bound(s);
        lemma_word_has_no_space(s);
        let n = word_len(s) as int;
        lemma_words_are_words(s.skip(n));
        assert forall|i: int| 0 <= i < words(s).len() implies is_word(#[trigger] words(s)[i]) by {
            if i > 0 {
                assert(words(s)[i] == words(s.skip(n))[i - 1]);
            }
        }
    }
}

/// The words of `message`, in order.
pub fn split_words(message: &str) -> (found: Vec<&str>)
    ensures
        found.deep_view() == words(message@),
{
    let chars = chars_of(message);
    let n = chars.len();
    let mut found: Vec<&str> = Vec::new();
    let mut at: usize = 0;
    assert(chars@.skip(0) == chars@);
    while at < n
        invariant
            at <= n,
            n == chars.len(),
            chars@ == message@,
            words(message@) == found.deep_view() + words(chars@.skip(at as int)),
        decreases n - at,
    {
        let ghost rest = chars@.skip(at as int);
        if whitespace(chars[at]) {
            assert(rest.skip(1) == chars@.skip(at + 1));
            at += 1;
        } else {
            let start = at;
            while at < n && !whitespace(chars[at])
                invariant
                    start <= at <= n,
                    n == chars.len(),
                    word_len(chars@.skip(start as int)) == (at - start) + word_len(
                        chars@.skip(at as int),
                    ),
                decreases n - at,
            {
                assert(chars@.skip(at as int).skip(1) == chars@.skip(at + 1));
                at += 1;
            }
            let word = message.substring_char(start, at);
            assert(rest.take(at - start) == chars@.subrange(start as int, at as int));
            assert(rest.skip(at - start) == chars@.skip(at as int));
            found.push(word);
        }
    }
    found
}

/// Whether `word` still goes on `line`, after a space, within `width`
/// bytes.
pub open spec fn fits(line: Seq<char>, word: Seq<char>, width: nat) -> bool {
    byte_len(line) + byte_len(word) + 1 <= width
}

/// The lines that are full, and the line that is being filled, after
/// `words` have been laid out one by one: a word goes on the current line
/// if that line is empty or the word still fits on it after a space, and
/// begins a new line otherwise. A word is never broken.
pub open spec fn filled(words: Seq<Seq<char>>, width: nat) -> (Seq<Seq<char>>, Seq<char>)
    decreases words.len(),
{
    if words.len() == 0 {
        (seq![], seq![])
    } else {
        let (full, current) = filled(words.drop_last(), width);
        let word = words.last();
        if current.len() == 0 {
            (full, word)
        } else if fits(current, word, width) {
            (full, current + seq![' '] + word)
        } else {
            (full.push(current), word)
        }
    }
}

/// All the lines that `words` fill at `width`.
pub open spec fn lines_of(words: Seq<Seq<char>>, width: nat) -> Seq<Seq<char>> {
    let (full, current) = filled(words, width);
    if current.len() == 0 {
        full
    } else {
        full.push(current)
    }
}

/// The first `max_lines` lines of `message` wrapped at `width` bytes.
pub open spec fn wrapped(message: Seq<char>, width: nat, max_lines: nat) -> Seq<Seq<char>> {
    let lines = lines_of(words(message), width);
    if lines.len() > max_lines {
        lines.take(max_lines as int)
    } else {
        lines
    }
}

/// Wraps `message` into lines of at most `chars_per_line` bytes, as far as
/// its words allow, and keeps the first `max_lines` of them.
pub fn wrap_text(message: &str, chars_per_line: usize, max_lines: usize) -> (lines: Vec<String>)
    ensures
        lines.deep_view() == wrapped(message@, chars_per_line as nat, max_lines as nat),
        lines.len() <= max_lines,
{
    let found = split_words(message);
    let mut lines: Vec<String> = Vec::new();
    let mut current = String::new();
    let mut i: usize = 0;
    proof {
        reveal_strlit(" ");
    }
    while i < found.len()
        invariant
            i <= found.len(),
            " "@ == seq![' '],
            (lines.deep_view(), current@) == filled(
                found.deep_view().take(i as int),
                chars_per_line as nat,
            ),
        decreases found.len() - i,
    {
        let word: &str = found[i];
        assert(found.deep_view().take(i + 1).drop_last() == found.deep_view().take(i as int));
        if current.as_str().is_empty() {
            current = String::from_str(word);
        } else if word.as_bytes().len() < chars_per_line && current.as_str().as_bytes().len()
            <= chars_per_line - word.as_bytes().len() - 1 {
            current.append(" ");
            current.append(word);
        } else {
            lines.push(current);
            current = String::from_str(word);
        }
        i += 1;
    }
    assert(found.deep_view().take(i as int) == found.deep_view());
    if !current.as_str().is_empty() {
        lines.push(current);
    }
    if lines.len() > max_lines {
        lines.truncate(max_lines);
    }
    lines
}

/// The height of one line of text, in pixels.
pub const LINE_HEIGHT: i32 = 10;

/// The distance of the first line from the top of the display, in pixels.
pub const TOP_MARGIN: i32 = 5;

/// The displays that a message can be laid out for.
#[derive(Clone, Copy, Debug, PartialEq, Eq)]
pub enum Panel {
    /// 128 pixels wide and 64 high.
    Size128x64,
    /// 72 pixels wide and 40 high.
    Size72x40,
}

impl Panel {
    /// How many bytes of text go on one line.
    pub open spec fn spec_chars_per_line(self) -> usize {
        match self {
            Panel::Size128x64 => 20,
            Panel::Size72x40 => 12,
        }
    }

    /// How many lines of a message are kept at most.
    pub open spec fn spec_max_lines(self) -> usize {
        match self {
            Panel::Size128x64 => 6,
            Panel::Size72x40 => 4,
        }
    }

    /// The height of the display, in pixels.
    pub open spec fn spec_height(self) -> i32 {
        match self {
            Panel::Size128x64 => 64,
            Panel::Size72x40 => 40,
        }
    }

    /// How many bytes of text go on one line.
    #[verifier::when_used_as_spec(spec_chars_per_line)]
    pub fn chars_per_line(self) -> (n: usize)
        ensures
            n == self.spec_chars_per_line(),
    {
        match self {
            Panel::Size128x64 => 20,
            Panel::Size72x40 => 12,
        }
    }

    /// How many lines of a message are kept at most.
    #[verifier::when_used_as_spec(spec_max_lines)]
    pub fn max_lines(self) -> (n: usize)
        ensures
            n == self.spec_max_lines(),
    {
        match self {
            Panel::Size128x64 => 6,
            Panel::Size72x40 => 4,
        }
    }

    /// The height of the display, in pixels.
    #[verifier::when_used_as_spec(spec_height)]
    pub fn height(self) -> (h: i32)
        ensures
            h == self.spec_height(),
    {
        match self {
            Panel::Size128x64 => 64,
            Panel::Size72x40 => 40,
        }
    }

    /// The lines that a message is wrapped into for this display.
    pub open spec fn lines(self, message: Seq<char>) -> Seq<Seq<char>> {
        wrapped(message, self.chars_per_line() as nat, self.max_lines() as nat)
    }

    /// Where the line with the given index begins, from the top.
    pub open spec fn line_top(index: int) -> int {
        index * LINE_HEIGHT + TOP_MARGIN
    }

    /// Whether the line with the given index is drawn: it is, if all of it
    /// is on the display.
    pub open spec fn shows(self, index: int) -> bool {
        Self::line_top(index) + LINE_HEIGHT <= self.height()
    }
}

/// One line of text and where it is drawn.
pub struct Row {
    /// The distance of the line's top from the top of the display.
    pub y: i32,
    /// The text of the line.
    pub text: String,
}

/// The lines of `message` that are drawn on `panel`, from the top down:
/// the message is wrapped for the panel, and the lines that are not wholly
/// on the display are left out.
pub fn place(message: &str, panel: Panel) -> (rows: Vec<Row>)
    ensures
        rows.len() <= panel.lines(message@).len(),
        forall|i: int|
            0 <= i < rows.len() ==> (#[trigger] rows[i]).y == Panel::line_top(i) && rows[i].text@
                == panel.lines(message@)[i],
        forall|i: int|
            0 <= i < panel.lines(message@).len() ==> (i < rows.len() <==> panel.shows(i)),
{
    let lines = wrap_text(message, panel.chars_per_line(), panel.max_lines());
    let mut rows: Vec<Row> = Vec::new();
    let mut i: usize = 0;
    while i < lines.len()
        invariant
            i <= lines.len() <= 6,
            rows.len() <= i,
            rows.len() < i ==> !panel.shows(rows.len() as int),
            forall|k: int|
                0 <= k < rows.len() ==> (#[trigger] rows[k]).y == Panel::line_top(k)
                    && rows[k].text@ == lines.deep_view()[k],
            forall|k: int| 0 <= k < i ==> (k < rows.len() <==> panel.shows(k)),
        decreases lines.len() - i,
    {
        let y: i32 = (i as i32) * LINE_HEIGHT + TOP_MARGIN;
        if y + LINE_HEIGHT <= panel.height() {
            let text = lines[i].clone();
            rows.push(Row { y, text });
        }
        i += 1;
    }
    rows
}

} // verus!

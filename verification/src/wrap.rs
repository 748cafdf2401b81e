//! Character-exact line wrapping for a fixed-width display.
//!
//! A message is cut into lines greedily, one character at a time. Words are
//! not kept together: a line ends where it is full, or at a newline.

use vstd::prelude::*;
use vstd::std_specs::iter::IteratorSpec;
use crate::wrap_laws::lemma_wrapped_facts;

verus! {

/// Whether `c` is an ASCII control character: U+0000 through U+001F, or U+007F.
pub open spec fn is_control(c: char) -> bool {
    c as u32 <= 0x1f || c as u32 == 0x7f
}

/// The test that a character passes when it is shown: it is no ASCII control character.
pub open spec fn shown() -> spec_fn(char) -> bool {
    |c: char| !is_control(c)
}

/// The text that `s` shows: `s` without its ASCII control characters.
pub open spec fn visible(s: Seq<char>) -> Seq<char> {
    s.filter(shown())
}

/// Whether `s` holds no ASCII control character.
pub open spec fn plain(s: Seq<char>) -> bool {
    forall|i: int| 0 <= i < s.len() ==> !is_control(#[trigger] s[i])
}

/// The lines that come out of the characters `rest`, read from left to right,
/// when `line` is what the line in progress already holds.
///
/// Each character is handled in turn:
/// - a control character adds nothing to the line in progress, any other
///   character is appended to it;
/// - a newline ends the line in progress at once;
/// - otherwise the line in progress ends as soon as it holds `width`
///   characters, unless the character just read is the first of the whole
///   message (`at_start`).
///
/// At the end of the input the line in progress is emitted if it holds
/// anything, or if it is `owed`: the line that a message starts with and the
/// line that a newline opens are emitted even when they stay empty, while
/// nothing follows a line that ended because it was full.
pub open spec fn wrap_from(
    rest: Seq<char>,
    width: nat,
    line: Seq<char>,
    owed: bool,
    at_start: bool,
) -> Seq<Seq<char>>
    decreases rest.len(),
{
    if rest.len() == 0 {
        if line.len() > 0 || owed {
            seq![line]
        } else {
            Seq::empty()
        }
    } else {
        let c = rest[0];
        let grown = if is_control(c) {
            line
        } else {
            line.push(c)
        };
        if c == '\n' {
            seq![grown] + wrap_from(rest.drop_first(), width, Seq::empty(), true, false)
        } else if grown.len() >= width && !at_start {
            seq![grown] + wrap_from(rest.drop_first(), width, Seq::empty(), false, false)
        } else {
            wrap_from(rest.drop_first(), width, grown, owed, false)
        }
    }
}

/// The lines of `message` on a display that holds `width` characters per line.
pub open spec fn wrapped(message: Seq<char>, width: nat) -> Seq<Seq<char>> {
    wrap_from(message, width, Seq::empty(), true, true)
}

/// The pieces of `s` between its newlines, in order: one more than `s` has
/// newlines, none of them holding a newline.
pub open spec fn split_lines(s: Seq<char>) -> Seq<Seq<char>>
    decreases s.len(),
{
    if s.len() == 0 {
        seq![Seq::empty()]
    } else {
        let later = split_lines(s.drop_first());
        if s[0] == '\n' {
            seq![Seq::empty()] + later
        } else {
            seq![seq![s[0]] + later[0]] + later.drop_first()
        }
    }
}

/// The number of newlines in `s`.
pub open spec fn newline_count(s: Seq<char>) -> nat
    decreases s.len(),
{
    if s.len() == 0 {
        0
    } else if s[0] == '\n' {
        1 + newline_count(s.drop_first())
    } else {
        newline_count(s.drop_first())
    }
}

/// The visible text of each piece of `s` between its newlines.
pub open spec fn shown_pieces(s: Seq<char>) -> Seq<Seq<char>> {
    split_lines(s).map_values(|piece: Seq<char>| visible(piece))
}

/// The longest that a line gets on a display of `width` characters per line.
/// The first character of a message never ends a line, so on a display of
/// fewer than two characters per line a line may hold two.
pub open spec fn line_capacity(width: nat) -> nat {
    if width >= 2 {
        width
    } else {
        2
    }
}

/// The piece of `message` that line `index` holds when every line but the
/// last is full: `width` characters from character `index * width` on, or
/// what is left of the message there.
pub open spec fn even_piece(message: Seq<char>, width: nat, index: int) -> Seq<char> {
    message.subrange(
        index * width,
        if (index + 1) * width <= message.len() {
            (index + 1) * width
        } else {
            message.len() as int
        },
    )
}

/// The full lines that `text` fills on a display of `width` characters per
/// line: its first `width` characters, the next `width`, and so on while
/// that many are left.
pub open spec fn full_lines(text: Seq<char>, width: nat) -> Seq<Seq<char>>
    decreases text.len(),
{
    if 0 < width <= text.len() {
        seq![text.take(width as int)] + full_lines(text.skip(width as int), width)
    } else {
        Seq::empty()
    }
}

/// What is left of `text` behind its full lines: fewer than `width` characters.
pub open spec fn left_over(text: Seq<char>, width: nat) -> Seq<char>
    decreases text.len(),
{
    if 0 < width <= text.len() {
        left_over(text.skip(width as int), width)
    } else {
        text
    }
}

/// The lines of a visible text that a newline follows: its full lines, and
/// then what is left of it, be it empty.
pub open spec fn lines_before_newline(text: Seq<char>, width: nat) -> Seq<Seq<char>> {
    full_lines(text, width).push(left_over(text, width))
}

/// The lines of a visible text at the end of a message: its full lines, and
/// then what is left of it, if anything is. Of an empty text the one empty
/// line is left where it is `owed`.
pub open spec fn lines_at_end(text: Seq<char>, width: nat, owed: bool) -> Seq<Seq<char>> {
    if left_over(text, width).len() > 0 || (text.len() == 0 && owed) {
        full_lines(text, width).push(left_over(text, width))
    } else {
        full_lines(text, width)
    }
}

/// The lines of a message of which `pieces` are the visible texts between
/// the newlines: the lines of each piece, one piece after the other.
pub open spec fn cut_pieces(pieces: Seq<Seq<char>>, width: nat) -> Seq<Seq<char>>
    decreases pieces.len(),
{
    if pieces.len() == 0 {
        Seq::empty()
    } else if pieces.len() == 1 {
        lines_at_end(pieces[0], width, true)
    } else {
        lines_before_newline(pieces[0], width) + cut_pieces(pieces.drop_first(), width)
    }
}

/// The texts of a sequence of strings.
pub open spec fn texts(lines: Seq<String>) -> Seq<Seq<char>> {
    lines.map_values(|line: String| line@)
}

/// `String::push` appends the character to the end of the string.
pub assume_specification[ String::push ](s: &mut String, ch: char)
    ensures
        final(s)@ == old(s)@.push(ch),
;

/// Tells whether `c` is an ASCII control character.
pub fn is_ascii_control(c: char) -> (r: bool)
    ensures
        r == is_control(c),
{
    c <= '\x1f' || c == '\x7f'
}

/// The characters of `text`, in order.
fn chars_of(text: &str) -> (chars: Vec<char>)
    ensures
        chars@ == text@,
{
    broadcast use vstd::string::group_string_axioms;

    let mut chars: Vec<char> = Vec::new();
    let source = text.chars();
    for c in it: source
        invariant
            it.seq() == text@,
            chars@ == it.history(),
    {
        chars.push(c);
    }
    assert(chars@ =~= text@);
    chars
}

/// A message being cut into lines, one line per call of [`LineWrapper::next_line`].
pub struct LineWrapper {
    chars: Vec<char>,
    width: usize,
    pos: usize,
    owed: bool,
}

impl LineWrapper {
    #[verifier::type_invariant]
    spec fn well_formed(self) -> bool {
        self.pos <= self.chars.len()
    }

    /// The message that is being wrapped.
    pub closed spec fn message(self) -> Seq<char> {
        self.chars@
    }

    /// The number of characters that a line holds.
    pub closed spec fn line_width(self) -> nat {
        self.width as nat
    }

    /// The lines that are still to come, in order.
    pub closed spec fn remaining(self) -> Seq<Seq<char>> {
        wrap_from(
            self.chars@.skip(self.pos as int),
            self.width as nat,
            Seq::empty(),
            self.owed,
            self.pos == 0,
        )
    }

    /// Starts wrapping `message` for lines of `width` characters.
    pub fn new(message: &str, width: usize) -> (wrapper: LineWrapper)
        ensures
            wrapper.message() == message@,
            wrapper.line_width() == width,
            wrapper.remaining() == wrapped(message@, width as nat),
    {
        let chars = chars_of(message);
        assert(chars@.skip(0) =~= chars@);
        LineWrapper { chars, width, pos: 0, owed: true }
    }

    /// Goes back to the first line of the message.
    pub fn restart(&mut self)
        ensures
            final(self).message() == old(self).message(),
            final(self).line_width() == old(self).line_width(),
            final(self).remaining() == wrapped(old(self).message(), old(self).line_width()),
    {
        self.pos = 0;
        self.owed = true;
        assert(self.chars@.skip(0) =~= self.chars@);
    }

    /// Hands out the next line, or `None` once every line has been handed out.
    pub fn next_line(&mut self) -> (line: Option<String>)
        ensures
            final(self).message() == old(self).message(),
            final(self).line_width() == old(self).line_width(),
            old(self).remaining().len() == 0 ==> {
                &&& line is None
                &&& final(self).remaining() == old(self).remaining()
            },
            old(self).remaining().len() > 0 ==> {
                &&& line is Some
                &&& line->0@ == old(self).remaining()[0]
                &&& final(self).remaining() == old(self).remaining().drop_first()
            },
    {
        proof {
            use_type_invariant(&*self);
        }
        let mut text = String::new();
        let mut count: usize = 0;
        while self.pos < self.chars.len()
            invariant
                self.pos <= self.chars.len(),
                self.chars == old(self).chars,
                self.width == old(self).width,
                count == text@.len(),
                count <= self.pos,
                old(self).remaining() == wrap_from(
                    self.chars@.skip(self.pos as int),
                    self.width as nat,
                    text@,
                    self.owed,
                    self.pos == 0,
                ),
            decreases self.chars.len() - self.pos,
        {
            let c = self.chars[self.pos];
            let at_start = self.pos == 0;
            proof {
                let rest = self.chars@.skip(self.pos as int);
                assert(rest[0] == c);
                assert(rest.drop_first() =~= self.chars@.skip(self.pos + 1));
            }
            self.pos = self.pos + 1;
            if !is_ascii_control(c) {
                text.push(c);
                count = count + 1;
            }
            if c == '\n' {
                self.owed = true;
                proof {
                    let tail = wrap_from(
                        self.chars@.skip(self.pos as int),
                        self.width as nat,
                        Seq::empty(),
                        true,
                        false,
                    );
                    assert((seq![text@] + tail).drop_first() =~= tail);
                }
                return Some(text);
            }
            if count >= self.width && !at_start {
                self.owed = false;
                proof {
                    let tail = wrap_from(
                        self.chars@.skip(self.pos as int),
                        self.width as nat,
                        Seq::empty(),
                        false,
                        false,
                    );
                    assert((seq![text@] + tail).drop_first() =~= tail);
                }
                return Some(text);
            }
        }
        if count > 0 || self.owed {
            self.owed = false;
            assert(seq![text@].drop_first() =~= Seq::<Seq<char>>::empty());
            Some(text)
        } else {
            None
        }
    }
}

/// Cuts `message` into lines for a display that holds `width` characters per line.
///
/// The lines are those of [`wrapped`]. What follows from that is stated too:
/// - the lines, put end to end, are the message without its control
///   characters, and no line holds one;
/// - a message without control characters that is no longer than a line is
///   its own single line;
/// - where the visible text between two newlines is always shorter than a
///   line, the lines are the visible texts between the newlines, one more
///   than there are newlines;
/// - a message without control characters, on a display of two or more
///   characters per line, is cut into full lines and what is left;
/// - there is at least one line and at most one more than the message has
///   characters, and no line is longer than [`line_capacity`] allows.
pub fn wrap_lines(message: &str, width: usize) -> (lines: Vec<String>)
    ensures
        texts(lines@) == wrapped(message@, width as nat),
        texts(lines@).flatten() == visible(message@),
        forall|i: int| 0 <= i < lines.len() ==> plain(#[trigger] texts(lines@)[i]),
        plain(message@) && message@.len() <= width ==> texts(lines@) == seq![message@],
        (forall|j: int|
            0 <= j < shown_pieces(message@).len() ==> (#[trigger] shown_pieces(message@)[j]).len()
                < width) ==> {
            &&& texts(lines@) == shown_pieces(message@)
            &&& lines.len() == newline_count(message@) + 1
        },
        plain(message@) && width >= 2 && message@.len() >= 1 ==> {
            &&& lines.len() == (message@.len() + width - 1) / (width as int)
            &&& forall|j: int|
                0 <= j < lines.len() ==> #[trigger] texts(lines@)[j] == even_piece(
                    message@,
                    width as nat,
                    j,
                )
        },
        1 <= lines.len() <= message@.len() + 1,
        forall|i: int|
            0 <= i < lines.len() ==> (#[trigger] texts(lines@)[i]).len() <= line_capacity(
                width as nat,
            ),
{
    let mut wrapper = LineWrapper::new(message, width);
    let mut lines: Vec<String> = Vec::new();
    loop
        invariant
            texts(lines@) + wrapper.remaining() == wrapped(message@, width as nat),
        ensures
            texts(lines@) == wrapped(message@, width as nat),
        decreases wrapper.remaining().len(),
    {
        match wrapper.next_line() {
            Some(line) => {
                proof {
                    let before = lines@;
                    assert(texts(before.push(line)) =~= texts(before).push(line@));
                }
                lines.push(line);
            },
            None => {
                assert(texts(lines@) + Seq::<Seq<char>>::empty() =~= texts(lines@));
                break ;
            },
        }
    }
    proof {
        lemma_wrapped_facts(message@, width as nat);
    }
    lines
}

} // verus!

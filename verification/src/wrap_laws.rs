//! What holds of every wrapped message.

use vstd::prelude::*;
use crate::wrap::{
    cut_pieces, even_piece, full_lines, is_control, left_over, line_capacity, lines_at_end,
    lines_before_newline, newline_count, plain, shown, shown_pieces, split_lines, visible,
    wrap_from, wrapped,
};

verus! {

/// The visible text of a sequence, from its first character and the rest.
pub proof fn lemma_visible_first(s: Seq<char>)
    requires
        s.len() > 0,
    ensures
        visible(s) == if is_control(s[0]) {
            visible(s.drop_first())
        } else {
            seq![s[0]] + visible(s.drop_first())
        },
{
    let head = seq![s[0]];
    assert(s =~= head + s.drop_first());
    Seq::filter_distributes_over_add(head, s.drop_first(), shown());
    reveal_with_fuel(Seq::filter, 2);
    assert(head.drop_last() =~= Seq::<char>::empty());
    assert(head.filter(shown()) =~= if is_control(s[0]) {
        Seq::<char>::empty()
    } else {
        head
    });
}

/// Nothing is visible in an empty sequence.
pub proof fn lemma_visible_empty()
    ensures
        visible(Seq::<char>::empty()) == Seq::<char>::empty(),
{
    reveal_with_fuel(Seq::filter, 1);
}

/// No character of the visible text is a control character.
pub proof fn lemma_visible_has_no_control(s: Seq<char>)
    ensures
        plain(visible(s)),
{
    assert forall|i: int| 0 <= i < visible(s).len() implies !is_control(
        #[trigger] visible(s)[i],
    ) by {
        s.lemma_filter_pred(shown(), i);
    }
}

/// A text without control characters is visible as it stands.
pub proof fn lemma_visible_of_plain(s: Seq<char>)
    requires
        plain(s),
    ensures
        visible(s) == s,
    decreases s.len(),
{
    if s.len() == 0 {
        lemma_visible_empty();
    } else {
        lemma_visible_first(s);
        let tail = s.drop_first();
        assert(plain(tail)) by {
            assert forall|i: int| 0 <= i < tail.len() implies !is_control(#[trigger] tail[i]) by {
                assert(tail[i] == s[i + 1]);
            }
        }
        lemma_visible_of_plain(tail);
        assert(seq![s[0]] + tail =~= s);
    }
}

/// The lines, put end to end, are the line in progress followed by the
/// visible text of what was still to be read.
pub proof fn lemma_wrap_from_flatten(
    rest: Seq<char>,
    width: nat,
    line: Seq<char>,
    owed: bool,
    at_start: bool,
)
    ensures
        wrap_from(rest, width, line, owed, at_start).flatten() == line + visible(rest),
    decreases rest.len(),
{
    let lines = wrap_from(rest, width, line, owed, at_start);
    if rest.len() == 0 {
        lemma_visible_empty();
        reveal_with_fuel(Seq::flatten, 2);
        assert(lines.flatten() =~= line);
        assert(line + Seq::<char>::empty() =~= line);
    } else {
        let c = rest[0];
        let tail = rest.drop_first();
        let grown = if is_control(c) {
            line
        } else {
            line.push(c)
        };
        lemma_visible_first(rest);
        assert(grown + visible(tail) =~= line + visible(rest));
        if c == '\n' || (grown.len() >= width && !at_start) {
            let after = wrap_from(tail, width, Seq::empty(), c == '\n', false);
            lemma_wrap_from_flatten(tail, width, Seq::empty(), c == '\n', false);
            assert(lines == seq![grown] + after);
            assert(lines.first() == grown);
            assert(lines.drop_first() =~= after);
            assert(Seq::<char>::empty() + visible(tail) =~= visible(tail));
        } else {
            lemma_wrap_from_flatten(tail, width, grown, owed, false);
        }
    }
}

/// No line holds a control character, if the line in progress holds none.
pub proof fn lemma_wrap_from_plain(
    rest: Seq<char>,
    width: nat,
    line: Seq<char>,
    owed: bool,
    at_start: bool,
)
    requires
        plain(line),
    ensures
        forall|i: int|
            0 <= i < wrap_from(rest, width, line, owed, at_start).len() ==> plain(
                #[trigger] wrap_from(rest, width, line, owed, at_start)[i],
            ),
    decreases rest.len(),
{
    let lines = wrap_from(rest, width, line, owed, at_start);
    if rest.len() > 0 {
        let c = rest[0];
        let tail = rest.drop_first();
        let grown = if is_control(c) {
            line
        } else {
            line.push(c)
        };
        assert(plain(grown));
        if c == '\n' || (grown.len() >= width && !at_start) {
            let after = wrap_from(tail, width, Seq::empty(), c == '\n', false);
            lemma_wrap_from_plain(tail, width, Seq::empty(), c == '\n', false);
            assert(lines == seq![grown] + after);
            assert forall|i: int| 0 <= i < lines.len() implies plain(#[trigger] lines[i]) by {
                if i > 0 {
                    assert(lines[i] == after[i - 1]);
                } else {
                    assert(lines[i] == grown);
                }
            }
        } else {
            lemma_wrap_from_plain(tail, width, grown, owed, false);
            assert(lines == wrap_from(tail, width, grown, owed, false));
        }
    } else {
        assert forall|i: int| 0 <= i < lines.len() implies plain(#[trigger] lines[i]) by {
            assert(lines[i] == line);
        }
    }
}

/// A message is wrapped into at least one line, and into at most one line
/// more than it has characters.
pub proof fn lemma_wrap_from_count(
    rest: Seq<char>,
    width: nat,
    line: Seq<char>,
    owed: bool,
    at_start: bool,
)
    ensures
        wrap_from(rest, width, line, owed, at_start).len() <= rest.len() + 1,
        owed || line.len() > 0 ==> wrap_from(rest, width, line, owed, at_start).len() >= 1,
    decreases rest.len(),
{
    if rest.len() > 0 {
        let c = rest[0];
        let tail = rest.drop_first();
        let grown = if is_control(c) {
            line
        } else {
            line.push(c)
        };
        if c == '\n' || (grown.len() >= width && !at_start) {
            lemma_wrap_from_count(tail, width, Seq::empty(), c == '\n', false);
        } else {
            lemma_wrap_from_count(tail, width, grown, owed, false);
        }
    }
}

/// Once `taken` characters of a message that fits on one line have been
/// read, the message itself is the one line that comes out.
proof fn lemma_fitting_from(message: Seq<char>, width: nat, taken: int)
    requires
        plain(message),
        message.len() <= width,
        0 <= taken <= message.len(),
    ensures
        wrap_from(message.skip(taken), width, message.take(taken), true, taken == 0) == seq![
            message,
        ],
    decreases message.len() - taken,
{
    let rest = message.skip(taken);
    let line = message.take(taken);
    let lines = wrap_from(rest, width, line, true, taken == 0);
    if taken == message.len() {
        assert(line =~= message);
    } else {
        let c = rest[0];
        let tail = rest.drop_first();
        let grown = line.push(c);
        assert(c == message[taken]);
        assert(tail =~= message.skip(taken + 1));
        assert(grown =~= message.take(taken + 1));
        if grown.len() >= width && taken != 0 {
            assert(grown =~= message);
            assert(wrap_from(tail, width, Seq::empty(), false, false) == Seq::<Seq<char>>::empty());
            assert(lines =~= seq![message]);
        } else {
            lemma_fitting_from(message, width, taken + 1);
            assert(lines == wrap_from(tail, width, grown, true, false));
        }
    }
}

/// A message that holds no control character and is no longer than a line
/// is wrapped into one line, which is the message.
pub proof fn law_fitting_message_is_one_line(message: Seq<char>, width: nat)
    requires
        plain(message),
        message.len() <= width,
    ensures
        wrapped(message, width) == seq![message],
{
    lemma_fitting_from(message, width, 0);
    assert(message.skip(0) =~= message);
    assert(message.take(0) =~= Seq::<char>::empty());
}

/// The lines, put end to end, are the visible text of the message, and no
/// line holds a control character.
pub proof fn law_lines_hold_the_visible_text(message: Seq<char>, width: nat)
    ensures
        wrapped(message, width).flatten() == visible(message),
        plain(wrapped(message, width).flatten()),
        forall|i: int|
            0 <= i < wrapped(message, width).len() ==> plain(#[trigger] wrapped(message, width)[i]),
{
    lemma_wrap_from_flatten(message, width, Seq::empty(), true, true);
    assert(Seq::<char>::empty() + visible(message) =~= visible(message));
    lemma_visible_has_no_control(message);
    lemma_wrap_from_plain(message, width, Seq::empty(), true, true);
}

/// Wrapping the lines of a message again, put end to end and with room for
/// all of them on one line, gives in one line the visible text of the message.
pub proof fn law_rewrapping_gives_the_visible_text(message: Seq<char>, width: nat, room: nat)
    requires
        room >= visible(message).len(),
    ensures
        wrapped(wrapped(message, width).flatten(), room) == seq![visible(message)],
{
    law_lines_hold_the_visible_text(message, width);
    law_fitting_message_is_one_line(visible(message), room);
}

/// A message has at least one line, and at most one line more than it has characters.
pub proof fn law_line_count_bounds(message: Seq<char>, width: nat)
    ensures
        1 <= wrapped(message, width).len() <= message.len() + 1,
{
    lemma_wrap_from_count(message, width, Seq::empty(), true, true);
}

/// A text has one piece more than it has newlines.
pub proof fn lemma_split_lines_count(s: Seq<char>)
    ensures
        split_lines(s).len() == newline_count(s) + 1,
    decreases s.len(),
{
    if s.len() > 0 {
        lemma_split_lines_count(s.drop_first());
    }
}

/// The visible text of a single character.
proof fn lemma_visible_single(c: char)
    ensures
        visible(seq![c]) == if is_control(c) {
            Seq::<char>::empty()
        } else {
            seq![c]
        },
{
    lemma_visible_first(seq![c]);
    lemma_visible_empty();
    assert(seq![c].drop_first() =~= Seq::<char>::empty());
    assert(seq![c] + Seq::<char>::empty() =~= seq![c]);
}

/// The visible pieces of a text, from its first character and the visible
/// pieces of the rest.
proof fn lemma_shown_pieces_first(s: Seq<char>)
    requires
        s.len() > 0,
    ensures
        shown_pieces(s.drop_first()).len() >= 1,
        s[0] == '\n' ==> shown_pieces(s) == seq![Seq::<char>::empty()] + shown_pieces(
            s.drop_first(),
        ),
        s[0] != '\n' ==> shown_pieces(s) == seq![
            visible(seq![s[0]]) + shown_pieces(s.drop_first())[0],
        ] + shown_pieces(s.drop_first()).drop_first(),
{
    let later = split_lines(s.drop_first());
    lemma_split_lines_count(s.drop_first());
    lemma_visible_empty();
    if s[0] == '\n' {
        assert(shown_pieces(s) =~= seq![Seq::<char>::empty()] + shown_pieces(s.drop_first()));
    } else {
        let first = seq![s[0]] + later[0];
        assert(split_lines(s) == seq![first] + later.drop_first());
        Seq::filter_distributes_over_add(seq![s[0]], later[0], shown());
        assert(visible(first) == visible(seq![s[0]]) + visible(later[0]));
        assert(shown_pieces(s) =~= seq![visible(seq![s[0]]) + shown_pieces(s.drop_first())[0]]
            + shown_pieces(s.drop_first()).drop_first());
    }
}

/// Whether a line that holds `used` characters stays short of `width` when
/// the first of `pieces` is added to it, as every later piece does alone.
spec fn roomy(pieces: Seq<Seq<char>>, used: nat, width: nat) -> bool {
    &&& pieces.len() >= 1
    &&& used + pieces[0].len() < width
    &&& forall|j: int| 1 <= j < pieces.len() ==> (#[trigger] pieces[j]).len() < width
}

/// Where no line gets full, the lines are the visible texts of the pieces
/// between the newlines, the first of them behind the line in progress.
proof fn lemma_unbroken_from(rest: Seq<char>, width: nat, line: Seq<char>, at_start: bool)
    requires
        roomy(shown_pieces(rest), line.len(), width),
    ensures
        wrap_from(rest, width, line, true, at_start) == seq![line + shown_pieces(rest)[0]]
            + shown_pieces(rest).drop_first(),
    decreases rest.len(),
{
    let lines = wrap_from(rest, width, line, true, at_start);
    let pieces = shown_pieces(rest);
    if rest.len() == 0 {
        lemma_visible_empty();
        assert(pieces =~= seq![Seq::<char>::empty()]);
        assert(line + Seq::<char>::empty() =~= line);
        assert(lines =~= seq![line + pieces[0]] + pieces.drop_first());
    } else {
        let c = rest[0];
        let tail = rest.drop_first();
        let later = shown_pieces(tail);
        lemma_shown_pieces_first(rest);
        lemma_visible_single(c);
        if c == '\n' {
            assert(roomy(later, 0, width)) by {
                assert forall|j: int| 0 <= j < later.len() implies (#[trigger] later[j]).len()
                    < width by {
                    assert(later[j] == pieces[j + 1]);
                }
            }
            lemma_unbroken_from(tail, width, Seq::empty(), false);
            assert(Seq::<char>::empty() + later[0] =~= later[0]);
            assert(seq![later[0]] + later.drop_first() =~= later);
            assert(line + pieces[0] =~= line);
            assert(pieces.drop_first() =~= later);
        } else {
            let grown = line + visible(seq![c]);
            assert(grown == if is_control(c) {
                line
            } else {
                line.push(c)
            }) by {
                assert(line + Seq::<char>::empty() =~= line);
                assert(line + seq![c] =~= line.push(c));
            }
            assert(pieces[0] == visible(seq![c]) + later[0]);
            assert(roomy(later, grown.len(), width)) by {
                assert forall|j: int| 1 <= j < later.len() implies (#[trigger] later[j]).len()
                    < width by {
                    assert(later[j] == pieces[j]);
                }
            }
            lemma_unbroken_from(tail, width, grown, false);
            assert(grown + later[0] =~= line + pieces[0]);
            assert(pieces.drop_first() =~= later.drop_first());
        }
    }
}

/// Where the visible text between two newlines is always shorter than a
/// line, a message of `k` newlines is wrapped into `k + 1` lines: the visible
/// texts of the pieces between its newlines.
pub proof fn law_unbroken_lines_follow_the_newlines(message: Seq<char>, width: nat)
    requires
        forall|j: int|
            0 <= j < shown_pieces(message).len() ==> (#[trigger] shown_pieces(message)[j]).len()
                < width,
    ensures
        wrapped(message, width).len() == newline_count(message) + 1,
        wrapped(message, width) == shown_pieces(message),
{
    let pieces = shown_pieces(message);
    lemma_split_lines_count(message);
    assert(roomy(pieces, 0, width));
    lemma_unbroken_from(message, width, Seq::empty(), true);
    assert(Seq::<char>::empty() + pieces[0] =~= pieces[0]);
    assert(seq![pieces[0]] + pieces.drop_first() =~= pieces);
}

/// No line is longer than the display allows, if the line in progress is
/// shorter than that and empty before the first character.
proof fn lemma_wrap_from_line_length(
    rest: Seq<char>,
    width: nat,
    line: Seq<char>,
    owed: bool,
    at_start: bool,
)
    requires
        line.len() < line_capacity(width),
        at_start ==> line.len() == 0,
    ensures
        forall|i: int|
            0 <= i < wrap_from(rest, width, line, owed, at_start).len() ==> (#[trigger] wrap_from(
                rest,
                width,
                line,
                owed,
                at_start,
            )[i]).len() <= line_capacity(width),
    decreases rest.len(),
{
    let lines = wrap_from(rest, width, line, owed, at_start);
    if rest.len() > 0 {
        let c = rest[0];
        let tail = rest.drop_first();
        let grown = if is_control(c) {
            line
        } else {
            line.push(c)
        };
        if c == '\n' || (grown.len() >= width && !at_start) {
            let after = wrap_from(tail, width, Seq::empty(), c == '\n', false);
            lemma_wrap_from_line_length(tail, width, Seq::empty(), c == '\n', false);
            assert(lines == seq![grown] + after);
            assert forall|i: int| 0 <= i < lines.len() implies (#[trigger] lines[i]).len()
                <= line_capacity(width) by {
                if i > 0 {
                    assert(lines[i] == after[i - 1]);
                } else {
                    assert(lines[i] == grown);
                }
            }
        } else {
            lemma_wrap_from_line_length(tail, width, grown, owed, false);
            assert(lines == wrap_from(tail, width, grown, owed, false));
        }
    } else {
        assert forall|i: int| 0 <= i < lines.len() implies (#[trigger] lines[i]).len()
            <= line_capacity(width) by {
            assert(lines[i] == line);
        }
    }
}

/// No line is longer than the display allows: on a display of two or more
/// characters per line, no line is longer than the display is wide.
pub proof fn law_lines_fit_the_display(message: Seq<char>, width: nat)
    ensures
        forall|i: int|
            0 <= i < wrapped(message, width).len() ==> (#[trigger] wrapped(message, width)[i]).len()
                <= line_capacity(width),
{
    lemma_wrap_from_line_length(message, width, Seq::empty(), true, true);
}

/// In a message without control characters, read up to character `taken`
/// with the line in progress begun at character `begun`, the lines still to
/// come are `count` even pieces from `begun` on.
proof fn lemma_even_from(
    message: Seq<char>,
    width: nat,
    begun: int,
    taken: int,
    first: int,
    count: int,
)
    requires
        plain(message),
        width >= 2,
        message.len() >= 1,
        0 <= begun <= taken <= message.len(),
        taken - begun < width,
        begun == first * width,
        0 <= first,
        0 <= count,
        begun == message.len() ==> count == 0,
        begun < message.len() ==> begun + (count - 1) * width < message.len() <= begun + count
            * width,
    ensures
        wrap_from(
            message.skip(taken),
            width,
            message.subrange(begun, taken),
            begun == 0,
            taken == 0,
        ) == Seq::new(count as nat, |j: int| even_piece(message, width, first + j)),
    decreases message.len() - taken,
{
    let rest = message.skip(taken);
    let line = message.subrange(begun, taken);
    let lines = wrap_from(rest, width, line, begun == 0, taken == 0);
    let pieces = Seq::new(count as nat, |j: int| even_piece(message, width, first + j));
    let w = width as int;
    let len = message.len() as int;
    if taken == len {
        if begun < len {
            assert(count == 1) by (nonlinear_arith)
                requires
                    begun + (count - 1) * w < len,
                    len - begun < w,
                    len <= begun + count * w,
                    begun < len,
                    w >= 2,
            ;
            assert((first + 1) * w == begun + w) by (nonlinear_arith)
                requires
                    begun == first * w,
            ;
            assert(even_piece(message, width, first) =~= line);
            assert(lines =~= pieces);
        } else {
            assert(line =~= Seq::<char>::empty());
            assert(lines =~= pieces);
        }
    } else {
        let c = rest[0];
        let tail = rest.drop_first();
        let grown = line.push(c);
        assert(c == message[taken]);
        assert(tail =~= message.skip(taken + 1));
        assert(grown =~= message.subrange(begun, taken + 1));
        assert(count >= 1) by (nonlinear_arith)
            requires
                begun < len,
                len <= begun + count * w,
                w >= 2,
                count >= 0,
        ;
        if grown.len() >= width && taken != 0 {
            let next = begun + w;
            assert(next == taken + 1);
            assert((first + 1) * w == next) by (nonlinear_arith)
                requires
                    begun == first * w,
                    next == begun + w,
            ;
            assert(next == len ==> count - 1 == 0) by (nonlinear_arith)
                requires
                    begun + (count - 1) * w < len,
                    next == begun + w,
                    w >= 2,
                    count >= 1,
            ;
            assert(next < len ==> next + (count - 2) * w < len <= next + (count - 1) * w)
                by (nonlinear_arith)
                requires
                    begun + (count - 1) * w < len <= begun + count * w,
                    next == begun + w,
            ;
            assert(message.subrange(next, next) =~= Seq::<char>::empty());
            lemma_even_from(message, width, next, next, first + 1, count - 1);
            let after = wrap_from(tail, width, Seq::empty(), false, false);
            assert(lines == seq![grown] + after);
            assert(even_piece(message, width, first) =~= grown);
            assert forall|j: int| 0 <= j < count implies #[trigger] lines[j] == pieces[j] by {
                if j > 0 {
                    assert(lines[j] == after[j - 1]);
                    assert(first + 1 + (j - 1) == first + j);
                }
            }
            assert(lines =~= pieces);
        } else {
            lemma_even_from(message, width, begun, taken + 1, first, count);
            assert(lines == wrap_from(tail, width, grown, begun == 0, false));
        }
    }
}

/// A message of `len` characters, none of them a control character, on a
/// display of `width` characters per line (two at least) is wrapped into
/// `len / width` lines, rounded up: each holds `width` characters but for the
/// last, which holds what is left, and put end to end they are the message.
pub proof fn law_plain_message_is_cut_evenly(message: Seq<char>, width: nat)
    requires
        plain(message),
        width >= 2,
        message.len() >= 1,
    ensures
        wrapped(message, width).len() == (message.len() + width - 1) / (width as int),
        forall|j: int|
            0 <= j < wrapped(message, width).len() ==> #[trigger] wrapped(message, width)[j]
                == even_piece(message, width, j),
        forall|j: int|
            0 <= j < wrapped(message, width).len() - 1 ==> (#[trigger] wrapped(
                message,
                width,
            )[j]).len() == width,
        1 <= wrapped(message, width).last().len() <= width,
        wrapped(message, width).flatten() == message,
{
    let w = width as int;
    let len = message.len() as int;
    let count = (len + w - 1) / w;
    assert(0 <= count && (count - 1) * w < len <= count * w) by (nonlinear_arith)
        requires
            count == (len + w - 1) / w,
            w >= 2,
            len >= 1,
    ;
    assert(message.subrange(0, 0) =~= Seq::<char>::empty());
    assert(message.skip(0) =~= message);
    lemma_even_from(message, width, 0, 0, 0, count);
    let lines = wrapped(message, width);
    assert(lines.len() == count);
    assert forall|j: int| 0 <= j < lines.len() - 1 implies (#[trigger] lines[j]).len()
        == width by {
        assert(0 <= j * w && (j + 1) * w <= len && (j + 1) * w == j * w + w) by (nonlinear_arith)
            requires
                0 <= j < count - 1,
                (count - 1) * w < len,
                w >= 2,
        ;
    }
    assert(1 <= lines.last().len() <= width) by {
        let j = count - 1;
        assert(lines.last() == even_piece(message, width, j));
        assert(0 <= j * w < len && len <= (j + 1) * w && (j + 1) * w == j * w + w)
            by (nonlinear_arith)
            requires
                j == count - 1,
                count >= 1,
                (count - 1) * w < len <= count * w,
                w >= 2,
        ;
    }
    law_lines_hold_the_visible_text(message, width);
    lemma_visible_of_plain(message);
}

/// A text behind one full line has that line before its own full lines,
/// and leaves what it leaves alone.
proof fn lemma_full_line_in_front(line: Seq<char>, text: Seq<char>, width: nat)
    requires
        0 < width == line.len(),
    ensures
        full_lines(line + text, width) == seq![line] + full_lines(text, width),
        left_over(line + text, width) == left_over(text, width),
{
    let all = line + text;
    assert(all.take(width as int) =~= line);
    assert(all.skip(width as int) =~= text);
}

/// The lines that follow a state of the wrapping, by the visible texts
/// between the newlines that are still to be read.
spec fn cut_from(pieces: Seq<Seq<char>>, width: nat, line: Seq<char>, owed: bool) -> Seq<
    Seq<char>,
> {
    if pieces.len() <= 1 {
        lines_at_end(line + pieces[0], width, owed)
    } else {
        lines_before_newline(line + pieces[0], width) + cut_pieces(pieces.drop_first(), width)
    }
}

/// On a display of two or more characters per line, the lines that come out
/// are the visible texts between the newlines, cut to the width, the first
/// of them behind the line in progress.
proof fn lemma_cut_from(rest: Seq<char>, width: nat, line: Seq<char>, owed: bool, at_start: bool)
    requires
        width >= 2,
        line.len() < width,
        at_start ==> line.len() == 0,
    ensures
        wrap_from(rest, width, line, owed, at_start) == cut_from(
            shown_pieces(rest),
            width,
            line,
            owed,
        ),
    decreases rest.len(),
{
    let lines = wrap_from(rest, width, line, owed, at_start);
    let pieces = shown_pieces(rest);
    if rest.len() == 0 {
        lemma_visible_empty();
        assert(pieces =~= seq![Seq::<char>::empty()]);
        assert(line + pieces[0] =~= line);
        assert(lines =~= cut_from(pieces, width, line, owed));
    } else {
        let c = rest[0];
        let tail = rest.drop_first();
        let later = shown_pieces(tail);
        lemma_shown_pieces_first(rest);
        lemma_visible_single(c);
        if c == '\n' {
            lemma_cut_from(tail, width, Seq::empty(), true, false);
            assert(pieces.drop_first() =~= later);
            assert(line + pieces[0] =~= line);
            assert(Seq::<char>::empty() + later[0] =~= later[0]);
            assert(cut_from(later, width, Seq::empty(), true) == cut_pieces(later, width));
            assert(lines_before_newline(line, width) =~= seq![line]);
        } else {
            let grown = line + visible(seq![c]);
            assert(grown == if is_control(c) {
                line
            } else {
                line.push(c)
            }) by {
                assert(line + Seq::<char>::empty() =~= line);
                assert(line + seq![c] =~= line.push(c));
            }
            assert(pieces.len() == later.len());
            assert(pieces.drop_first() =~= later.drop_first());
            assert(line + pieces[0] =~= grown + later[0]);
            if grown.len() >= width && !at_start {
                lemma_cut_from(tail, width, Seq::empty(), false, false);
                assert(Seq::<char>::empty() + later[0] =~= later[0]);
                lemma_full_line_in_front(grown, later[0], width);
                let full = full_lines(later[0], width);
                let left = left_over(later[0], width);
                assert((seq![grown] + full).push(left) =~= seq![grown] + full.push(left));
                if pieces.len() > 1 {
                    let others = cut_pieces(later.drop_first(), width);
                    assert(seq![grown] + full.push(left) + others =~= seq![grown] + (full.push(
                        left,
                    ) + others));
                }
            } else {
                lemma_cut_from(tail, width, grown, owed, false);
            }
        }
    }
}

/// On a display of two or more characters per line, the lines of a message
/// are the visible texts between its newlines, each cut to the width: the
/// full lines of each, then what is left of it. Before a newline what is
/// left is a line even when it is empty; at the end of the message it is a
/// line if it is not empty, or if nothing is visible behind the last newline.
pub proof fn law_lines_are_the_pieces_cut_to_width(message: Seq<char>, width: nat)
    requires
        width >= 2,
    ensures
        wrapped(message, width) == cut_pieces(shown_pieces(message), width),
{
    let pieces = shown_pieces(message);
    lemma_split_lines_count(message);
    lemma_cut_from(message, width, Seq::empty(), true, true);
    assert(Seq::<char>::empty() + pieces[0] =~= pieces[0]);
}

/// What the laws of this file say of one message, each under its own condition.
pub proof fn lemma_wrapped_facts(message: Seq<char>, width: nat)
    ensures
        wrapped(message, width).flatten() == visible(message),
        forall|i: int|
            0 <= i < wrapped(message, width).len() ==> plain(#[trigger] wrapped(message, width)[i]),
        plain(message) && message.len() <= width ==> wrapped(message, width) == seq![message],
        (forall|j: int|
            0 <= j < shown_pieces(message).len() ==> (#[trigger] shown_pieces(message)[j]).len()
                < width) ==> {
            &&& wrapped(message, width) == shown_pieces(message)
            &&& wrapped(message, width).len() == newline_count(message) + 1
        },
        plain(message) && width >= 2 && message.len() >= 1 ==> {
            &&& wrapped(message, width).len() == (message.len() + width - 1) / (width as int)
            &&& forall|j: int|
                0 <= j < wrapped(message, width).len() ==> #[trigger] wrapped(message, width)[j]
                    == even_piece(message, width, j)
        },
        1 <= wrapped(message, width).len() <= message.len() + 1,
        forall|i: int|
            0 <= i < wrapped(message, width).len() ==> (#[trigger] wrapped(message, width)[i]).len()
                <= line_capacity(width),
{
    law_lines_hold_the_visible_text(message, width);
    law_line_count_bounds(message, width);
    law_lines_fit_the_display(message, width);
    if plain(message) && message.len() <= width {
        law_fitting_message_is_one_line(message, width);
    }
    if forall|j: int|
        0 <= j < shown_pieces(message).len() ==> (#[trigger] shown_pieces(message)[j]).len()
            < width {
        law_unbroken_lines_follow_the_newlines(message, width);
    }
    if plain(message) && width >= 2 && message.len() >= 1 {
        law_plain_message_is_cut_evenly(message, width);
    }
}

} // verus!

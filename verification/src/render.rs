//! The error box: where it lies on the display, and the draw calls that
//! paint it, in the order in which they are made.

use vstd::prelude::*;
use crate::wrap::{line_capacity, plain, texts, wrap_lines, wrapped};
use crate::wrap_laws::lemma_wrapped_facts;

verus! {

/// The distance between the edges of the display and the error box.
pub const ERROR_BOX_MARGIN: i16 = 16;

/// The distance between the edges of the error box and its text.
pub const ERROR_BOX_PADDING: i16 = 16;

/// The number of characters that a line of the error box holds.
pub const LINE_MAX_WIDTH: usize = 52;

/// The colour that fills the error box: red, as `0xRRGGBB`.
pub const ALERT_COLOR: u32 = 0xFF0000;

/// The colour of the border and of the text of the error box: white, as `0xRRGGBB`.
pub const CONTRAST_COLOR: u32 = 0xFFFFFF;

/// A point of the display.
#[derive(Clone, Copy, Debug, PartialEq, Eq)]
pub struct Point {
    pub x: i16,
    pub y: i16,
}

/// A rectangle of the display, from its upper left to its lower right corner.
#[derive(Clone, Copy, Debug, PartialEq, Eq)]
pub struct Rect {
    pub start: Point,
    pub end: Point,
}

/// The measures that lay out the error box.
#[derive(Clone, Copy, Debug, PartialEq, Eq)]
pub struct DisplayGeometry {
    /// The distance between the edges of the display and the box.
    pub margin: i16,
    /// The distance between the edges of the box and its text.
    pub padding: i16,
    /// The number of characters that a line holds.
    pub max_line_chars: usize,
    /// The height of a line of text.
    pub line_height: i16,
    /// The width of the display.
    pub screen_width: i16,
    /// The height of the display.
    pub screen_height: i16,
}

/// A draw call on the display.
#[derive(Debug, PartialEq, Eq)]
pub enum DrawCommand {
    /// Fill a rectangle with a colour.
    Fill { rect: Rect, color: u32 },
    /// Draw the border of a rectangle in a colour.
    Stroke { rect: Rect, color: u32 },
    /// Write a line of text in the small font, its upper left corner at `origin`.
    SmallText { text: String, origin: Point, color: u32 },
}

/// A draw call, with its text as a sequence of characters.
pub enum DrawCommandView {
    Fill { rect: Rect, color: u32 },
    Stroke { rect: Rect, color: u32 },
    SmallText { text: Seq<char>, origin: Point, color: u32 },
}

impl View for DrawCommand {
    type V = DrawCommandView;

    open spec fn view(&self) -> DrawCommandView {
        match *self {
            DrawCommand::Fill { rect, color } => DrawCommandView::Fill { rect, color },
            DrawCommand::Stroke { rect, color } => DrawCommandView::Stroke { rect, color },
            DrawCommand::SmallText { text, origin, color } => DrawCommandView::SmallText {
                text: text@,
                origin,
                color,
            },
        }
    }
}

/// The coordinate that stands for `v`. The display counts in `i16`: a value
/// within that range is its own coordinate, and a value beyond it has the
/// end of the range that it lies beyond.
pub open spec fn coordinate(v: int) -> i16 {
    if v < i16::MIN {
        i16::MIN
    } else if v > i16::MAX {
        i16::MAX
    } else {
        v as i16
    }
}

/// Computes the coordinate that stands for `v`.
fn nearest_coordinate(v: i128) -> (c: i16)
    ensures
        c == coordinate(v as int),
{
    if v < -32768 {
        -32768
    } else if v > 32767 {
        32767
    } else {
        v as i16
    }
}

impl DisplayGeometry {
    /// The rectangle of the error box: the display less the margin on every side.
    pub open spec fn box_rect(self) -> Rect {
        Rect {
            start: Point { x: self.margin, y: self.margin },
            end: Point {
                x: coordinate(self.screen_width - self.margin),
                y: coordinate(self.screen_height - self.margin),
            },
        }
    }

    /// Where line `index` of the text starts: margin and padding from the
    /// left, and from the top as many line heights further as lines come
    /// before it.
    pub open spec fn line_origin(self, index: int) -> Point {
        Point {
            x: coordinate(self.margin + self.padding),
            y: coordinate(self.margin + self.padding + index * self.line_height),
        }
    }

    /// The draw calls that paint the error box with `message` in it: the box
    /// filled, then its border, then the lines of the message from the top.
    pub open spec fn draw_plan(self, message: Seq<char>) -> Seq<DrawCommandView> {
        let lines = wrapped(message, self.max_line_chars as nat);
        seq![
            DrawCommandView::Fill { rect: self.box_rect(), color: ALERT_COLOR },
            DrawCommandView::Stroke { rect: self.box_rect(), color: CONTRAST_COLOR },
        ] + Seq::new(
            lines.len(),
            |i: int|
                DrawCommandView::SmallText {
                    text: lines[i],
                    origin: self.line_origin(i),
                    color: CONTRAST_COLOR,
                },
        )
    }

    /// The geometry of the error box on a display of the given size and line height.
    pub fn for_screen(screen_width: i16, screen_height: i16, line_height: i16) -> (geometry:
        DisplayGeometry)
        ensures
            geometry == (DisplayGeometry {
                margin: ERROR_BOX_MARGIN,
                padding: ERROR_BOX_PADDING,
                max_line_chars: LINE_MAX_WIDTH,
                line_height,
                screen_width,
                screen_height,
            }),
    {
        DisplayGeometry {
            margin: ERROR_BOX_MARGIN,
            padding: ERROR_BOX_PADDING,
            max_line_chars: LINE_MAX_WIDTH,
            line_height,
            screen_width,
            screen_height,
        }
    }

    /// Computes the rectangle of the error box.
    pub fn error_box(&self) -> (rect: Rect)
        ensures
            rect == self.box_rect(),
    {
        Rect {
            start: Point { x: self.margin, y: self.margin },
            end: Point {
                x: nearest_coordinate(self.screen_width as i128 - self.margin as i128),
                y: nearest_coordinate(self.screen_height as i128 - self.margin as i128),
            },
        }
    }

    /// Computes where line `index` of the text starts.
    pub fn text_origin(&self, index: usize) -> (origin: Point)
        ensures
            origin == self.line_origin(index as int),
    {
        let inset: i128 = self.margin as i128 + self.padding as i128;
        let height: i128 = self.line_height as i128;
        let count: i128 = index as i128;
        assert(-0x8000_0000_0000_0000_0000 <= count * height <= 0x8000_0000_0000_0000_0000)
            by (nonlinear_arith)
            requires
                0 <= count <= 0xffff_ffff_ffff_ffff,
                -0x8000 <= height < 0x8000,
        ;
        Point { x: nearest_coordinate(inset), y: nearest_coordinate(inset + count * height) }
    }
}

/// Every text of the plan is a line that the display can show: it holds no
/// control character, and it is no longer than a line may get.
pub proof fn law_planned_texts_are_lines(geometry: DisplayGeometry, message: Seq<char>, i: int)
    requires
        0 <= i < geometry.draw_plan(message).len(),
    ensures
        i >= 2 <==> geometry.draw_plan(message)[i] is SmallText,
        geometry.draw_plan(message)[i] matches DrawCommandView::SmallText { text, .. } ==> {
            &&& plain(text)
            &&& text.len() <= line_capacity(geometry.max_line_chars as nat)
        },
{
    lemma_wrapped_facts(message, geometry.max_line_chars as nat);
}

/// The painting of an error box, one draw call at a time.
pub struct ErrorBoxRenderer {
    geometry: DisplayGeometry,
    message: Ghost<Seq<char>>,
    lines: Vec<String>,
    shapes: u8,
    written: usize,
}

impl ErrorBoxRenderer {
    #[verifier::type_invariant]
    spec fn well_formed(self) -> bool {
        &&& self.shapes <= 2
        &&& self.written <= self.lines.len()
        &&& self.shapes < 2 ==> self.written == 0
        &&& texts(self.lines@) == wrapped(self.message@, self.geometry.max_line_chars as nat)
    }

    /// The geometry that the box is laid out with.
    pub closed spec fn geometry(self) -> DisplayGeometry {
        self.geometry
    }

    /// The message that is written into the box.
    pub closed spec fn message(self) -> Seq<char> {
        self.message@
    }

    /// All the draw calls of the painting, in order.
    pub closed spec fn plan(self) -> Seq<DrawCommandView> {
        self.geometry.draw_plan(self.message@)
    }

    /// The number of draw calls handed out so far.
    pub closed spec fn issued(self) -> nat {
        (self.shapes + self.written) as nat
    }

    /// Prepares the painting of the error box with `message` in it.
    pub fn new(geometry: DisplayGeometry, message: &str) -> (renderer: ErrorBoxRenderer)
        ensures
            renderer.geometry() == geometry,
            renderer.message() == message@,
            renderer.plan() == geometry.draw_plan(message@),
            renderer.issued() == 0,
    {
        let lines = wrap_lines(message, geometry.max_line_chars);
        ErrorBoxRenderer { geometry, message: Ghost(message@), lines, shapes: 0, written: 0 }
    }

    /// Tells whether every draw call has been handed out.
    pub fn is_done(&self) -> (done: bool)
        ensures
            done == (self.issued() == self.plan().len()),
    {
        proof {
            use_type_invariant(self);
        }
        self.shapes == 2 && self.written == self.lines.len()
    }

    /// Hands out the next draw call, or `None` once all have been handed out.
    /// Whether an earlier draw call succeeded plays no part in it.
    pub fn next_command(&mut self) -> (command: Option<DrawCommand>)
        ensures
            final(self).geometry() == old(self).geometry(),
            final(self).message() == old(self).message(),
            final(self).plan() == old(self).plan(),
            old(self).issued() < old(self).plan().len() ==> {
                &&& command is Some
                &&& command->0@ == old(self).plan()[old(self).issued() as int]
                &&& final(self).issued() == old(self).issued() + 1
            },
            old(self).issued() >= old(self).plan().len() ==> {
                &&& command is None
                &&& final(self).issued() == old(self).issued()
            },
            command matches Some(DrawCommand::SmallText { text, .. }) ==> plain(text@),
    {
        proof {
            use_type_invariant(&*self);
        }
        if self.shapes == 0 {
            self.shapes = 1;
            Some(DrawCommand::Fill { rect: self.geometry.error_box(), color: ALERT_COLOR })
        } else if self.shapes == 1 {
            self.shapes = 2;
            Some(DrawCommand::Stroke { rect: self.geometry.error_box(), color: CONTRAST_COLOR })
        } else if self.written < self.lines.len() {
            let index = self.written;
            let text = self.lines[index].clone();
            let origin = self.geometry.text_origin(index);
            proof {
                assert(texts(self.lines@)[index as int] == text@);
                law_planned_texts_are_lines(self.geometry, self.message@, 2 + index);
            }
            self.written = index + 1;
            Some(DrawCommand::SmallText { text, origin, color: CONTRAST_COLOR })
        } else {
            None
        }
    }
}

} // verus!

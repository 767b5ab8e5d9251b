//! Source positions and the spans between them.

use std::cmp::Ordering;
use std::ops::{Add, Sub};
use vstd::prelude::*;
use vstd::std_specs::cmp::PartialOrdSpecImpl;
use vstd::std_specs::ops::{AddSpecImpl, SubSpecImpl};

verus! {

/// A place in the source text: a line, a column within the line, and the
/// offset from the start of the text, all counted in characters from zero.
#[derive(PartialEq, Eq, Clone, Copy, Debug, Structural)]
pub struct Position {
    pub row: u32,
    pub col: u32,
    pub byte: u32,
}

impl Position {
    /// The order of positions by where they stand in the lines: by row,
    /// then column. Positions in the same row and column are equal in it,
    /// whatever their offsets.
    pub open spec fn line_order(self, other: Position) -> Ordering {
        if self.row != other.row {
            if self.row < other.row {
                Ordering::Less
            } else {
                Ordering::Greater
            }
        } else if self.col != other.col {
            if self.col < other.col {
                Ordering::Less
            } else {
                Ordering::Greater
            }
        } else {
            Ordering::Equal
        }
    }

    /// The order of positions that `<` and its kin go by: by row, then
    /// column, then offset.
    pub open spec fn ordering(self, other: Position) -> Ordering {
        if self.row != other.row {
            if self.row < other.row {
                Ordering::Less
            } else {
                Ordering::Greater
            }
        } else if self.col != other.col {
            if self.col < other.col {
                Ordering::Less
            } else {
                Ordering::Greater
            }
        } else if self.byte != other.byte {
            if self.byte < other.byte {
                Ordering::Less
            } else {
                Ordering::Greater
            }
        } else {
            Ordering::Equal
        }
    }

    /// `self` is at or before `other`.
    pub open spec fn not_after(self, other: Position) -> bool {
        self.ordering(other) != Ordering::Greater
    }

    /// The position `n` characters further along the same line.
    pub open spec fn forward(self, n: int) -> Position {
        Position { row: self.row, col: (self.col + n) as u32, byte: (self.byte + n) as u32 }
    }

    /// The position `n` characters back along the same line.
    pub open spec fn backward(self, n: int) -> Position {
        Position { row: self.row, col: (self.col - n) as u32, byte: (self.byte - n) as u32 }
    }

    /// The first column of the line after this one, at the same offset.
    pub open spec fn next_line(self) -> Position {
        Position { row: (self.row + 1) as u32, col: 0, byte: self.byte }
    }

    /// There is room to move `n` characters forward without leaving `u32`.
    pub open spec fn can_forward(self, n: int) -> bool {
        0 <= n && self.col + n <= u32::MAX && self.byte + n <= u32::MAX
    }

    /// There are `n` characters behind this position on its line.
    pub open spec fn can_backward(self, n: int) -> bool {
        0 <= n <= self.col && n <= self.byte
    }

    /// The start of the text.
    pub fn new() -> (r: Position)
        ensures
            r == (Position { row: 0, col: 0, byte: 0 }),
    {
        Position { row: 0, col: 0, byte: 0 }
    }

    /// Moves one character forward on the same line.
    pub fn advance(&mut self)
        requires
            old(self).can_forward(1),
        ensures
            *final(self) == old(self).forward(1),
    {
        self.col += 1;
        self.byte += 1;
    }

    /// Moves to the start of the next line. The offset is left alone: the
    /// characters of the line break are counted as they are consumed.
    pub fn newline(&mut self)
        requires
            old(self).row < u32::MAX,
        ensures
            *final(self) == old(self).next_line(),
    {
        self.row += 1;
        self.col = 0;
    }

    /// Moves `n` characters forward on the same line.
    pub fn add_assign(&mut self, n: u32)
        requires
            old(self).can_forward(n as int),
        ensures
            *final(self) == old(self).forward(n as int),
    {
        self.col += n;
        self.byte += n;
    }

    /// Moves `n` characters back on the same line.
    pub fn sub_assign(&mut self, n: u32)
        requires
            old(self).can_backward(n as int),
        ensures
            *final(self) == old(self).backward(n as int),
    {
        self.col -= n;
        self.byte -= n;
    }

    /// Compares two positions by row, then column. The offset is not
    /// looked at.
    pub fn cmp(&self, other: &Position) -> (r: Ordering)
        ensures
            r == self.line_order(*other),
    {
        if self.row != other.row {
            if self.row < other.row {
                Ordering::Less
            } else {
                Ordering::Greater
            }
        } else if self.col != other.col {
            if self.col < other.col {
                Ordering::Less
            } else {
                Ordering::Greater
            }
        } else {
            Ordering::Equal
        }
    }
}

impl PartialOrdSpecImpl for Position {
    open spec fn obeys_partial_cmp_spec() -> bool {
        true
    }

    open spec fn partial_cmp_spec(&self, other: &Position) -> Option<Ordering> {
        Some(self.ordering(*other))
    }
}

impl PartialOrd for Position {
    fn partial_cmp(&self, other: &Position) -> (r: Option<Ordering>) {
        if self.row != other.row {
            if self.row < other.row {
                Some(Ordering::Less)
            } else {
                Some(Ordering::Greater)
            }
        } else if self.col != other.col {
            if self.col < other.col {
                Some(Ordering::Less)
            } else {
                Some(Ordering::Greater)
            }
        } else if self.byte != other.byte {
            if self.byte < other.byte {
                Some(Ordering::Less)
            } else {
                Some(Ordering::Greater)
            }
        } else {
            Some(Ordering::Equal)
        }
    }
}

impl AddSpecImpl<u32> for Position {
    open spec fn obeys_add_spec() -> bool {
        true
    }

    open spec fn add_req(self, n: u32) -> bool {
        self.can_forward(n as int)
    }

    open spec fn add_spec(self, n: u32) -> Position {
        self.forward(n as int)
    }
}

impl Add<u32> for Position {
    type Output = Position;

    fn add(self, n: u32) -> (r: Position) {
        Position { row: self.row, col: self.col + n, byte: self.byte + n }
    }
}

impl SubSpecImpl<u32> for Position {
    open spec fn obeys_sub_spec() -> bool {
        true
    }

    open spec fn sub_req(self, n: u32) -> bool {
        self.can_backward(n as int)
    }

    open spec fn sub_spec(self, n: u32) -> Position {
        self.backward(n as int)
    }
}

impl Sub<u32> for Position {
    type Output = Position;

    fn sub(self, n: u32) -> (r: Position) {
        Position { row: self.row, col: self.col - n, byte: self.byte - n }
    }
}

/// The order of positions is reflexive, transitive and total, and moving
/// forward on a line or on to the next line never goes back in it. The
/// order by row and column makes equal what stands in the same row and
/// column, and where it tells two positions apart it agrees with the
/// order that looks at the offset too.
pub proof fn lemma_position_order(a: Position, b: Position, c: Position, n: int)
    ensures
        a.not_after(a),
        a.not_after(b) && b.not_after(c) ==> a.not_after(c),
        a.not_after(b) || b.not_after(a),
        a.not_after(b) && b.not_after(a) ==> a == b,
        a.can_forward(n) ==> a.not_after(a.forward(n)),
        a.row < u32::MAX ==> a.not_after(a.next_line()),
        a.line_order(b) == Ordering::Equal <==> a.row == b.row && a.col == b.col,
        a.line_order(b) != Ordering::Equal ==> a.ordering(b) == a.line_order(b),
{
}

/// One of the operations that move the end of a span.
pub enum SpanStep {
    /// The end moves so many characters forward.
    Forward(u32),
    /// The end moves so many characters back.
    Back(u32),
    /// The end is set to this position.
    Finish(Position),
}

/// A stretch of the source text from `start` up to, not including, `end`.
#[derive(PartialEq, Eq, PartialOrd, Clone, Copy, Debug, Structural)]
pub struct Span {
    pub start: Position,
    pub end: Position,
}

impl Span {
    /// The span is not inverted: it ends at or after its start.
    pub open spec fn wf(self) -> bool {
        self.start.not_after(self.end)
    }

    /// Whether `step` may be taken on this span: the end stays within
    /// `u32`, and where it may go back it does not pass the start.
    pub open spec fn admits(self, step: SpanStep) -> bool {
        match step {
            SpanStep::Forward(n) => self.end.can_forward(n as int),
            SpanStep::Back(n) => self.end.can_backward(n as int) && self.start.not_after(
                self.end.backward(n as int),
            ),
            SpanStep::Finish(end) => self.start.not_after(end),
        }
    }

    /// The span after `step`.
    pub open spec fn after(self, step: SpanStep) -> Span {
        match step {
            SpanStep::Forward(n) => Span { start: self.start, end: self.end.forward(n as int) },
            SpanStep::Back(n) => Span { start: self.start, end: self.end.backward(n as int) },
            SpanStep::Finish(end) => Span { start: self.start, end },
        }
    }

    /// Whether `steps` may be taken on this span one after another.
    pub open spec fn admits_all(self, steps: Seq<SpanStep>) -> bool
        decreases steps.len(),
    {
        steps.len() == 0 || (self.admits(steps[0]) && self.after(steps[0]).admits_all(
            steps.skip(1),
        ))
    }

    /// The span after `steps`, taken one after another.
    pub open spec fn after_all(self, steps: Seq<SpanStep>) -> Span
        decreases steps.len(),
    {
        if steps.len() == 0 {
            self
        } else {
            self.after(steps[0]).after_all(steps.skip(1))
        }
    }

    /// The span from `start` to `end`.
    pub fn new(start: Position, end: Position) -> (r: Span)
        requires
            start.not_after(end),
        ensures
            r == (Span { start, end }),
            r.wf(),
    {
        Span { start, end }
    }

    /// The empty span at `start`.
    pub fn start(start: Position) -> (r: Span)
        ensures
            r == (Span { start, end: start }),
            r.wf(),
    {
        Span { start, end: start }
    }

    /// Sets where the span ends.
    pub fn finish(&mut self, end: Position)
        requires
            old(self).admits(SpanStep::Finish(end)),
        ensures
            *final(self) == old(self).after(SpanStep::Finish(end)),
            final(self).wf(),
    {
        self.end = end;
    }

    /// The span from `start` to `end`, or nothing if that would be inverted.
    pub fn try_new(start: Position, end: Position) -> (r: Option<Span>)
        ensures
            r == if start.not_after(end) {
                Some(Span { start, end })
            } else {
                None
            },
    {
        if start <= end {
            Some(Span::new(start, end))
        } else {
            None
        }
    }

    /// Moves the end `n` characters forward on its line.
    pub fn add_assign(&mut self, n: u32)
        requires
            old(self).admits(SpanStep::Forward(n)),
        ensures
            *final(self) == old(self).after(SpanStep::Forward(n)),
            old(self).wf() ==> final(self).wf(),
    {
        self.end.add_assign(n);
    }

    /// Moves the end `n` characters back on its line, no further than the
    /// start.
    pub fn sub_assign(&mut self, n: u32)
        requires
            old(self).admits(SpanStep::Back(n)),
        ensures
            *final(self) == old(self).after(SpanStep::Back(n)),
            final(self).wf(),
    {
        self.end.sub_assign(n);
    }
}

impl AddSpecImpl<u32> for Span {
    open spec fn obeys_add_spec() -> bool {
        true
    }

    open spec fn add_req(self, n: u32) -> bool {
        self.admits(SpanStep::Forward(n))
    }

    open spec fn add_spec(self, n: u32) -> Span {
        self.after(SpanStep::Forward(n))
    }
}

impl Add<u32> for Span {
    type Output = Span;

    fn add(self, n: u32) -> (r: Span)
        ensures
            self.wf() ==> r.wf(),
    {
        Span { start: self.start, end: self.end + n }
    }
}

impl SubSpecImpl<u32> for Span {
    open spec fn obeys_sub_spec() -> bool {
        true
    }

    open spec fn sub_req(self, n: u32) -> bool {
        self.admits(SpanStep::Back(n))
    }

    open spec fn sub_spec(self, n: u32) -> Span {
        self.after(SpanStep::Back(n))
    }
}

impl Sub<u32> for Span {
    type Output = Span;

    fn sub(self, n: u32) -> (r: Span)
        ensures
            r.wf(),
    {
        Span { start: self.start, end: self.end - n }
    }
}

/// A span that is not inverted stays so through any operations on its end
/// that may be taken, and its start stays where it is.
pub proof fn lemma_span_stays_ordered(span: Span, steps: Seq<SpanStep>)
    requires
        span.wf(),
        span.admits_all(steps),
    ensures
        span.after_all(steps).wf(),
        span.after_all(steps).start == span.start,
    decreases steps.len(),
{
    if steps.len() > 0 {
        lemma_span_stays_ordered(span.after(steps[0]), steps.skip(1));
    }
}

} // verus!

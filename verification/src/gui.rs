//! The collector of what a renderer paints: one coordinate per dot and one
//! pair of coordinates per edge.
//!
//! The collector does not look into a coordinate: it is generic in the type
//! `C` that stands for one.

use vstd::prelude::*;

verus! {

/// Selects a rendering toolkit.
#[derive(Debug, Clone, Copy, PartialEq, Eq, Structural)]
pub enum DrawBackend {
    Egui,
    Iced,
}

impl DrawBackend {
    /// The name by which the toolkit is selected.
    pub fn name(&self) -> (s: &'static str)
        ensures
            s@ == match *self {
                DrawBackend::Egui => "egui"@,
                DrawBackend::Iced => "iced"@,
            },
    {
        match self {
            DrawBackend::Egui => "egui",
            DrawBackend::Iced => "iced",
        }
    }

    /// The title of the window that the toolkit opens.
    pub fn title(&self) -> (s: &'static str)
        ensures
            s@ == match *self {
                DrawBackend::Egui => "Graph draw egui"@,
                DrawBackend::Iced => "iced-based graphs"@,
            },
    {
        match self {
            DrawBackend::Egui => "Graph draw egui",
            DrawBackend::Iced => "iced-based graphs",
        }
    }
}

/// Red, green and blue alike of the dark colour that fills the background.
pub const BACKGROUND_LEVEL: u8 = 0x20;

/// Red, green and blue alike of the light colour of dots and lines.
pub const INK_LEVEL: u8 = 0xff;

/// The radius of a dot, in units of the drawing surface.
pub const DOT_RADIUS: u8 = 5;

/// The width of a line, in units of the drawing surface.
pub const LINE_WIDTH: u8 = 1;

/// One step of a paint pass. Coordinates are normalized: the renderer scales
/// them by the size that the surface has when it paints.
#[derive(Debug)]
pub enum PaintOp<C> {
    /// Fill the surface with the background colour.
    Background,
    /// A filled circle of radius `DOT_RADIUS` around the coordinate.
    Dot(C),
    /// A straight line of width `LINE_WIDTH` between the two coordinates.
    Line(C, C),
}

/// The steps of one paint pass: the background, then the dots in their
/// order, then the lines in theirs.
pub open spec fn paint_ops<C>(dots: Seq<C>, lines: Seq<(C, C)>) -> Seq<PaintOp<C>> {
    Seq::new(
        1 + dots.len() + lines.len(),
        |k: int|
            if k == 0 {
                PaintOp::Background
            } else if k <= dots.len() {
                PaintOp::Dot(dots[k - 1])
            } else {
                PaintOp::Line(lines[k - 1 - dots.len()].0, lines[k - 1 - dots.len()].1)
            },
    )
}

/// Where the coordinates of dots come from: each call gives the coordinate
/// of one more dot. Nothing is asked of the coordinates, so that a random
/// source and a fixed one serve alike.
pub trait CoordSource<C> {
    fn next_coord(&mut self) -> C;
}

/// The geometry handed to a renderer: the dots in the order in which they
/// were placed, and the lines in the order in which they were drawn.
#[derive(Debug)]
pub struct GraphicsHolder<C> {
    pub dots: Vec<C>,
    pub lines: Vec<(C, C)>,
}

impl<C: Copy> GraphicsHolder<C> {
    /// The steps by which a renderer paints the geometry once.
    pub fn paint_pass(&self) -> (ops: Vec<PaintOp<C>>)
        ensures
            ops@ == paint_ops(self.dots@, self.lines@),
    {
        let mut ops: Vec<PaintOp<C>> = Vec::new();
        ops.push(PaintOp::Background);
        let mut i: usize = 0;
        while i < self.dots.len()
            invariant
                i <= self.dots.len(),
                ops@ == paint_ops(self.dots@, self.lines@).subrange(0, 1 + i),
            decreases self.dots.len() - i,
        {
            ops.push(PaintOp::Dot(self.dots[i]));
            assert(ops@ =~= paint_ops(self.dots@, self.lines@).subrange(0, 2 + i));
            i += 1;
        }
        let mut k: usize = 0;
        while k < self.lines.len()
            invariant
                k <= self.lines.len(),
                ops@ == paint_ops(self.dots@, self.lines@).subrange(0, 1 + self.dots.len() + k),
            decreases self.lines.len() - k,
        {
            let (from, to) = self.lines[k];
            ops.push(PaintOp::Line(from, to));
            assert(ops@ =~= paint_ops(self.dots@, self.lines@).subrange(
                0,
                2 + self.dots.len() + k,
            ));
            k += 1;
        }
        assert(ops@ =~= paint_ops(self.dots@, self.lines@));
        ops
    }
}

/// Collects dots and lines into a `GraphicsHolder`.
#[derive(Debug)]
pub struct DrawingApi<C> {
    holder: GraphicsHolder<C>,
}

impl<C: Copy> Default for DrawingApi<C> {
    /// A collector that holds nothing yet.
    fn default() -> (api: Self)
        ensures
            api.dots() == Seq::<C>::empty(),
            api.lines() == Seq::<(C, C)>::empty(),
    {
        DrawingApi::new()
    }
}

impl<C: Copy> DrawingApi<C> {
    /// The dots placed so far, oldest first.
    pub closed spec fn dots(&self) -> Seq<C> {
        self.holder.dots@
    }

    /// The lines drawn so far, oldest first.
    pub closed spec fn lines(&self) -> Seq<(C, C)> {
        self.holder.lines@
    }

    /// A collector that holds nothing yet.
    pub fn new() -> (api: Self)
        ensures
            api.dots() == Seq::<C>::empty(),
            api.lines() == Seq::<(C, C)>::empty(),
    {
        DrawingApi { holder: GraphicsHolder { dots: Vec::new(), lines: Vec::new() } }
    }

    /// Places a dot at `coord` and hands the coordinate back.
    pub fn draw_dot(&mut self, coord: C) -> (placed: C)
        ensures
            placed == coord,
            final(self).dots() == old(self).dots().push(coord),
            final(self).lines() == old(self).lines(),
    {
        self.holder.dots.push(coord);
        coord
    }

    /// Draws a line between two coordinates.
    pub fn draw_edge(&mut self, from: C, to: C)
        ensures
            final(self).dots() == old(self).dots(),
            final(self).lines() == old(self).lines().push((from, to)),
    {
        self.holder.lines.push((from, to));
    }

    /// Gives up the collected geometry, for a renderer to own.
    pub fn into_holder(self) -> (holder: GraphicsHolder<C>)
        ensures
            holder.dots@ == self.dots(),
            holder.lines@ == self.lines(),
    {
        self.holder
    }
}

} // verus!

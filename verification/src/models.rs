//! Strokes, colours and edit actions, with the mathematical views that the
//! contracts of the other modules are stated over.

use vstd::prelude::*;

verus! {

/// Brings an integer back into the coordinate range by adding or removing
/// whole multiples of 2^32, the number of distinct coordinate values.
pub open spec fn wrap_coord(v: int) -> int {
    (v + 0x8000_0000) % 0x1_0000_0000 - 0x8000_0000
}

/// A position on the canvas. The canvas wraps around in both directions, so
/// every move can be taken back exactly.
#[derive(Clone, Copy, Debug, PartialEq, Eq, Structural)]
pub struct Point {
    pub x: i32,
    pub y: i32,
}

impl Point {
    /// The point reached from `self` by the offset `(dx, dy)`.
    pub open spec fn shifted(self, dx: int, dy: int) -> Point {
        Point { x: wrap_coord(self.x + dx) as i32, y: wrap_coord(self.y + dy) as i32 }
    }

    /// The point with the coordinates `x` and `y`.
    pub fn new(x: i32, y: i32) -> (p: Point)
        ensures
            p == (Point { x, y }),
    {
        Point { x, y }
    }

    /// Moves the point by `(dx, dy)`.
    pub fn translate(self, dx: i32, dy: i32) -> (p: Point)
        ensures
            p == self.shifted(dx as int, dy as int),
    {
        Point { x: self.x.wrapping_add(dx), y: self.y.wrapping_add(dy) }
    }

    /// Moves the point by `(-dx, -dy)`.
    pub fn translate_back(self, dx: i32, dy: i32) -> (p: Point)
        ensures
            p == self.shifted(-(dx as int), -(dy as int)),
    {
        Point { x: self.x.wrapping_sub(dx), y: self.y.wrapping_sub(dy) }
    }
}

/// The result of wrapping lies in the coordinate range.
pub proof fn lemma_wrap_bounds(v: int)
    ensures
        i32::MIN <= wrap_coord(v) <= i32::MAX,
{
}

/// Whole turns round the canvas do not show: an offset and its wrapped
/// value, each taken `n` times, move a coordinate to the same place.
pub proof fn lemma_wrap_times(v: int, offset: int, n: int)
    ensures
        wrap_coord(v + n * wrap_coord(offset)) == wrap_coord(v + n * offset),
{
    let turns = (offset + 0x8000_0000) / 0x1_0000_0000;
    vstd::arithmetic::div_mod::lemma_fundamental_div_mod(offset + 0x8000_0000, 0x1_0000_0000);
    assert(wrap_coord(offset) == offset - 0x1_0000_0000 * turns);
    assert(n * wrap_coord(offset) == n * offset - 0x1_0000_0000 * (n * turns))
        by (nonlinear_arith)
        requires
            wrap_coord(offset) == offset - 0x1_0000_0000 * turns,
    ;
    vstd::arithmetic::div_mod::lemma_mod_multiples_vanish(
        -(n * turns),
        v + n * offset + 0x8000_0000,
        0x1_0000_0000,
    );
    assert(0x1_0000_0000 * (-(n * turns)) == -(0x1_0000_0000 * (n * turns)))
        by (nonlinear_arith);
}

/// Moving a point in two steps is moving it by the sum of the steps.
pub proof fn lemma_point_shift_twice(p: Point, dx1: int, dy1: int, dx2: int, dy2: int)
    ensures
        p.shifted(dx1, dy1).shifted(dx2, dy2) == p.shifted(dx1 + dx2, dy1 + dy2),
{
    lemma_wrap_add(p.x + dx1, dx2);
    lemma_wrap_add(p.y + dy1, dy2);
    lemma_wrap_bounds(p.x + dx1);
    lemma_wrap_bounds(p.y + dy1);
    lemma_wrap_bounds(p.x + dx1 + dx2);
    lemma_wrap_bounds(p.y + dy1 + dy2);
}

/// Wrapping an intermediate sum does not change the wrapped total.
pub proof fn lemma_wrap_add(a: int, b: int)
    ensures
        wrap_coord(wrap_coord(a) + b) == wrap_coord(a + b),
{
    vstd::arithmetic::div_mod::lemma_add_mod_noop(a + 0x8000_0000, b, 0x1_0000_0000);
    vstd::arithmetic::div_mod::lemma_add_mod_noop((a + 0x8000_0000) % 0x1_0000_0000, b, 0x1_0000_0000);
    vstd::arithmetic::div_mod::lemma_mod_twice(a + 0x8000_0000, 0x1_0000_0000);
}

/// A colour as four separate channels, none of them scaled by another.
#[derive(Clone, Copy, Debug, PartialEq, Eq, Structural)]
pub struct Color {
    pub r: u8,
    pub g: u8,
    pub b: u8,
    pub a: u8,
}

impl Color {
    /// The colour as one 32-bit number: alpha in the highest byte, then red,
    /// green, and blue in the lowest.
    pub open spec fn packed(self) -> u32 {
        (self.a * 0x100_0000 + self.r * 0x1_0000 + self.g * 0x100 + self.b) as u32
    }

    /// The colour whose packed form is `v`.
    pub open spec fn unpacked(v: u32) -> Color {
        Color {
            r: (v / 0x1_0000 % 0x100) as u8,
            g: (v / 0x100 % 0x100) as u8,
            b: (v % 0x100) as u8,
            a: (v / 0x100_0000) as u8,
        }
    }

    /// An opaque colour.
    pub fn from_rgb(r: u8, g: u8, b: u8) -> (c: Color)
        ensures
            c == (Color { r, g, b, a: 255 }),
    {
        Color { r, g, b, a: 255 }
    }

    /// The colour with the four channels given.
    pub fn from_rgba(r: u8, g: u8, b: u8, a: u8) -> (c: Color)
        ensures
            c == (Color { r, g, b, a }),
    {
        Color { r, g, b, a }
    }

    /// The channels in the order red, green, blue, alpha.
    pub fn channels(&self) -> (channels: [u8; 4])
        ensures
            channels@ == seq![self.r, self.g, self.b, self.a],
    {
        [self.r, self.g, self.b, self.a]
    }

    /// Packs the colour into one number.
    pub fn pack(self) -> (v: u32)
        ensures
            v == self.packed(),
    {
        let (r, g, b, a): (u8, u8, u8, u8) = (self.r, self.g, self.b, self.a);
        assert(((a as u32) << 24) | ((r as u32) << 16) | ((g as u32) << 8) | (b as u32)
            == (a as u32) * 0x100_0000 + (r as u32) * 0x1_0000 + (g as u32) * 0x100 + (b as u32))
            by (bit_vector);
        ((a as u32) << 24) | ((r as u32) << 16) | ((g as u32) << 8) | (b as u32)
    }

    /// Takes a packed colour apart.
    pub fn unpack(v: u32) -> (c: Color)
        ensures
            c == Color::unpacked(v),
    {
        assert((v >> 16) & 0xFF == v / 0x1_0000 % 0x100) by (bit_vector);
        assert((v >> 8) & 0xFF == v / 0x100 % 0x100) by (bit_vector);
        assert(v & 0xFF == v % 0x100) by (bit_vector);
        assert((v >> 24) & 0xFF == v / 0x100_0000) by (bit_vector);
        Color {
            r: ((v >> 16) & 0xFF) as u8,
            g: ((v >> 8) & 0xFF) as u8,
            b: (v & 0xFF) as u8,
            a: ((v >> 24) & 0xFF) as u8,
        }
    }
}

/// Packing a colour and unpacking the number gives the colour back, channel
/// for channel.
pub proof fn lemma_unpack_pack(c: Color)
    ensures
        Color::unpacked(c.packed()) == c,
{
    let (r, g, b, a): (u32, u32, u32, u32) = (c.r as u32, c.g as u32, c.b as u32, c.a as u32);
    let v: u32 = (a * 0x100_0000 + r * 0x1_0000 + g * 0x100 + b) as u32;
    assert(v == c.packed());
    assert(v / 0x1_0000 % 0x100 == r && v / 0x100 % 0x100 == g && v % 0x100 == b && v
        / 0x100_0000 == a) by (bit_vector)
        requires
            r <= 255 && g <= 255 && b <= 255 && a <= 255,
            v == a * 0x100_0000 + r * 0x1_0000 + g * 0x100 + b,
    ;
}

/// Unpacking a number and packing the colour gives the number back.
pub proof fn lemma_pack_unpack(v: u32)
    ensures
        Color::unpacked(v).packed() == v,
{
}

/// The tool that pointer input currently drives.
#[derive(Clone, Copy, Debug, PartialEq, Eq, Structural)]
pub enum BrushMode {
    Freehand,
    StraightLine,
    Eraser,
    Select,
}

/// A stroke as the drawing holds it: the path in draw order, its colour and
/// its width in canvas units.
#[derive(Debug, PartialEq, Eq)]
pub struct Line {
    pub points: Vec<Point>,
    pub color: Color,
    pub width: u32,
}

/// What a `Line` is, mathematically.
pub struct LineView {
    pub points: Seq<Point>,
    pub color: Color,
    pub width: u32,
}

impl LineView {
    /// The stroke with every point moved by `(dx, dy)`.
    pub open spec fn shifted(self, dx: int, dy: int) -> LineView {
        LineView {
            points: self.points.map_values(|p: Point| p.shifted(dx, dy)),
            color: self.color,
            width: self.width,
        }
    }
}

/// Moving a stroke in two steps is moving it by the sum of the steps.
pub proof fn lemma_shift_twice(line: LineView, dx1: int, dy1: int, dx2: int, dy2: int)
    ensures
        line.shifted(dx1, dy1).shifted(dx2, dy2) == line.shifted(dx1 + dx2, dy1 + dy2),
{
    assert forall|i: int| 0 <= i < line.points.len() implies line.shifted(dx1, dy1).shifted(
        dx2,
        dy2,
    ).points[i] == line.shifted(dx1 + dx2, dy1 + dy2).points[i] by {
        lemma_point_shift_twice(line.points[i], dx1, dy1, dx2, dy2);
    }
    assert(line.shifted(dx1, dy1).shifted(dx2, dy2).points =~= line.shifted(
        dx1 + dx2,
        dy1 + dy2,
    ).points);
}

/// Moving a stroke by nothing leaves it as it is.
pub proof fn lemma_shift_zero(line: LineView)
    ensures
        line.shifted(0, 0) == line,
{
    assert(line.shifted(0, 0).points =~= line.points);
}

impl View for Line {
    type V = LineView;

    open spec fn view(&self) -> LineView {
        LineView { points: self.points@, color: self.color, width: self.width }
    }
}

impl Line {
    /// Moves every point of the stroke by `(dx, dy)`.
    pub fn translate(&mut self, dx: i32, dy: i32)
        ensures
            final(self)@ == old(self)@.shifted(dx as int, dy as int),
    {
        let mut k: usize = 0;
        while k < self.points.len()
            invariant
                k <= self.points.len(),
                self.points.len() == old(self).points.len(),
                self.color == old(self).color,
                self.width == old(self).width,
                forall|i: int|
                    0 <= i < k ==> #[trigger] self.points[i] == old(self).points[i].shifted(
                        dx as int,
                        dy as int,
                    ),
                forall|i: int|
                    k <= i < self.points.len() ==> #[trigger] self.points[i] == old(self).points[i],
            decreases self.points.len() - k,
        {
            let p = self.points[k];
            self.points[k] = p.translate(dx, dy);
            k += 1;
        }
        assert(self@.points =~= old(self)@.shifted(dx as int, dy as int).points);
    }

    /// Moves every point of the stroke by `(-dx, -dy)`.
    pub fn translate_back(&mut self, dx: i32, dy: i32)
        ensures
            final(self)@ == old(self)@.shifted(-(dx as int), -(dy as int)),
    {
        let mut k: usize = 0;
        while k < self.points.len()
            invariant
                k <= self.points.len(),
                self.points.len() == old(self).points.len(),
                self.color == old(self).color,
                self.width == old(self).width,
                forall|i: int|
                    0 <= i < k ==> #[trigger] self.points[i] == old(self).points[i].shifted(
                        -(dx as int),
                        -(dy as int),
                    ),
                forall|i: int|
                    k <= i < self.points.len() ==> #[trigger] self.points[i] == old(self).points[i],
            decreases self.points.len() - k,
        {
            let p = self.points[k];
            self.points[k] = p.translate_back(dx, dy);
            k += 1;
        }
        assert(self@.points =~= old(self)@.shifted(-(dx as int), -(dy as int)).points);
    }
}

impl Clone for Line {
    fn clone(&self) -> (copy: Self)
        ensures
            copy@ == self@,
    {
        let points = self.points.clone();
        assert(points@ =~= self.points@);
        Line { points, color: self.color, width: self.width }
    }
}

/// A stroke in wire form: points as coordinate pairs, the colour packed into
/// one number.
#[derive(Debug, PartialEq, Eq)]
pub struct SerializableLine {
    pub points: Vec<(i32, i32)>,
    pub color: u32,
    pub width: u32,
}

/// What a `SerializableLine` is, mathematically.
pub struct StrokeView {
    pub points: Seq<(i32, i32)>,
    pub color: u32,
    pub width: u32,
}

impl View for SerializableLine {
    type V = StrokeView;

    open spec fn view(&self) -> StrokeView {
        StrokeView { points: self.points@, color: self.color, width: self.width }
    }
}

impl Clone for SerializableLine {
    fn clone(&self) -> (copy: Self)
        ensures
            copy@ == self@,
    {
        let mut points: Vec<(i32, i32)> = Vec::new();
        let mut i: usize = 0;
        while i < self.points.len()
            invariant
                i <= self.points.len(),
                points@ == self.points@.take(i as int),
            decreases self.points.len() - i,
        {
            points.push(self.points[i]);
            assert(self.points@.take(i + 1) == self.points@.take(i as int).push(self.points[i as int]));
            i += 1;
        }
        assert(self.points@.take(i as int) == self.points@);
        SerializableLine { points, color: self.color, width: self.width }
    }
}

/// The strokes of a drawing, in their order.
pub open spec fn lines_view(lines: Seq<Line>) -> Seq<LineView> {
    lines.map_values(|line: Line| line@)
}

/// A list of wire-form strokes.
pub open spec fn strokes_view(strokes: Seq<SerializableLine>) -> Seq<StrokeView> {
    strokes.map_values(|stroke: SerializableLine| stroke@)
}

/// The strokes that a list of wire forms stands for.
pub open spec fn lines_of(strokes: Seq<StrokeView>) -> Seq<LineView> {
    strokes.map_values(|stroke: StrokeView| line_of(stroke))
}

/// The wire form of a stroke.
pub open spec fn stroke_of(line: LineView) -> StrokeView {
    StrokeView {
        points: line.points.map_values(|p: Point| (p.x, p.y)),
        color: line.color.packed(),
        width: line.width,
    }
}

/// The stroke that a wire form stands for.
pub open spec fn line_of(stroke: StrokeView) -> LineView {
    LineView {
        points: stroke.points.map_values(|c: (i32, i32)| Point { x: c.0, y: c.1 }),
        color: Color::unpacked(stroke.color),
        width: stroke.width,
    }
}

/// What the conversion gives is stated by the contract of `from`, over the
/// views: a specification function cannot build the vector that the result
/// holds.
impl<'a> vstd::std_specs::convert::FromSpecImpl<&'a Line> for SerializableLine {
    open spec fn obeys_from_spec() -> bool {
        false
    }

    open spec fn from_spec(line: &'a Line) -> SerializableLine {
        arbitrary()
    }
}

impl<'a> From<&'a Line> for SerializableLine {
    /// Encodes a stroke: the points as pairs, the colour packed.
    fn from(line: &'a Line) -> (stroke: SerializableLine)
        ensures
            stroke@ == stroke_of(line@),
    {
        let mut points: Vec<(i32, i32)> = Vec::new();
        let mut i: usize = 0;
        while i < line.points.len()
            invariant
                i <= line.points.len(),
                points@ == line.points@.take(i as int).map_values(|p: Point| (p.x, p.y)),
            decreases line.points.len() - i,
        {
            let p = line.points[i];
            points.push((p.x, p.y));
            assert(line.points@.take(i + 1) == line.points@.take(i as int).push(p));
            i += 1;
        }
        assert(line.points@.take(i as int) == line.points@);
        SerializableLine { points, color: line.color.pack(), width: line.width }
    }
}

/// What the conversion gives is stated by the contract of `from`, over the
/// views: a specification function cannot build the vector that the result
/// holds.
impl<'a> vstd::std_specs::convert::FromSpecImpl<&'a SerializableLine> for Line {
    open spec fn obeys_from_spec() -> bool {
        false
    }

    open spec fn from_spec(stroke: &'a SerializableLine) -> Line {
        arbitrary()
    }
}

impl<'a> From<&'a SerializableLine> for Line {
    /// Decodes a stroke: the pairs as points, the colour unpacked.
    fn from(stroke: &'a SerializableLine) -> (line: Line)
        ensures
            line@ == line_of(stroke@),
    {
        let mut points: Vec<Point> = Vec::new();
        let mut i: usize = 0;
        while i < stroke.points.len()
            invariant
                i <= stroke.points.len(),
                points@ == stroke.points@.take(i as int).map_values(
                    |c: (i32, i32)| Point { x: c.0, y: c.1 },
                ),
            decreases stroke.points.len() - i,
        {
            let c = stroke.points[i];
            points.push(Point { x: c.0, y: c.1 });
            assert(stroke.points@.take(i + 1) == stroke.points@.take(i as int).push(c));
            i += 1;
        }
        assert(stroke.points@.take(i as int) == stroke.points@);
        Line { points, color: Color::unpack(stroke.color), width: stroke.width }
    }
}

/// A copy of a list of wire-form strokes.
pub fn clone_strokes(strokes: &Vec<SerializableLine>) -> (copy: Vec<SerializableLine>)
    ensures
        strokes_view(copy@) == strokes_view(strokes@),
{
    let mut copy: Vec<SerializableLine> = Vec::new();
    let mut i: usize = 0;
    while i < strokes.len()
        invariant
            i <= strokes.len(),
            strokes_view(copy@) == strokes_view(strokes@.take(i as int)),
        decreases strokes.len() - i,
    {
        let ghost before = strokes_view(copy@);
        copy.push(strokes[i].clone());
        assert(strokes_view(copy@) =~= before.push(strokes[i as int]@));
        assert(strokes_view(strokes@.take(i + 1)) =~= strokes_view(strokes@.take(i as int)).push(
            strokes[i as int]@,
        ));
        i += 1;
    }
    assert(strokes@.take(i as int) == strokes@);
    copy
}

/// A copy of a list of indices.
pub fn clone_indices(indices: &Vec<usize>) -> (copy: Vec<usize>)
    ensures
        copy@ == indices@,
{
    let mut copy: Vec<usize> = Vec::new();
    let mut i: usize = 0;
    while i < indices.len()
        invariant
            i <= indices.len(),
            copy@ == indices@.take(i as int),
        decreases indices.len() - i,
    {
        copy.push(indices[i]);
        assert(indices@.take(i + 1) == indices@.take(i as int).push(indices[i as int]));
        i += 1;
    }
    assert(indices@.take(i as int) == indices@);
    copy
}

/// One reversible edit of the drawing: what the history records and what
/// peers are told about.
#[derive(Debug, PartialEq, Eq)]
pub enum PaintAction {
    /// Appends the strokes to the end of the drawing.
    Create(Vec<SerializableLine>),
    /// Removes the strokes at the indices; the strokes listed are what stood
    /// there, kept for taking the removal back.
    Delete(Vec<usize>, Vec<SerializableLine>),
    /// Replaces the strokes at the indices: the first list holds what stood
    /// there, the second what stands there afterwards.
    Modify(Vec<usize>, Vec<SerializableLine>, Vec<SerializableLine>),
    /// Moves the strokes at the indices by a fixed offset.
    Move(Vec<usize>, i32, i32),
}

/// What a `PaintAction` is, mathematically.
pub enum ActionView {
    Create(Seq<StrokeView>),
    Delete(Seq<usize>, Seq<StrokeView>),
    Modify(Seq<usize>, Seq<StrokeView>, Seq<StrokeView>),
    Move(Seq<usize>, int, int),
}

impl View for PaintAction {
    type V = ActionView;

    open spec fn view(&self) -> ActionView {
        match *self {
            PaintAction::Create(strokes) => ActionView::Create(strokes_view(strokes@)),
            PaintAction::Delete(indices, strokes) => ActionView::Delete(
                indices@,
                strokes_view(strokes@),
            ),
            PaintAction::Modify(indices, old_strokes, new_strokes) => ActionView::Modify(
                indices@,
                strokes_view(old_strokes@),
                strokes_view(new_strokes@),
            ),
            PaintAction::Move(indices, dx, dy) => ActionView::Move(indices@, dx as int, dy as int),
        }
    }
}

impl Clone for PaintAction {
    fn clone(&self) -> (copy: Self)
        ensures
            copy@ == self@,
    {
        match self {
            PaintAction::Create(strokes) => PaintAction::Create(clone_strokes(strokes)),
            PaintAction::Delete(indices, strokes) => PaintAction::Delete(
                clone_indices(indices),
                clone_strokes(strokes),
            ),
            PaintAction::Modify(indices, old_strokes, new_strokes) => PaintAction::Modify(
                clone_indices(indices),
                clone_strokes(old_strokes),
                clone_strokes(new_strokes),
            ),
            PaintAction::Move(indices, dx, dy) => PaintAction::Move(
                clone_indices(indices),
                *dx,
                *dy,
            ),
        }
    }
}

/// The views of a list of actions.
pub open spec fn actions_view(actions: Seq<PaintAction>) -> Seq<ActionView> {
    actions.map_values(|action: PaintAction| action@)
}

/// Turning a stroke into wire form and back gives the same stroke: points,
/// all four colour channels and width.
pub proof fn lemma_line_round_trip(line: LineView)
    ensures
        line_of(stroke_of(line)) == line,
{
    lemma_unpack_pack(line.color);
    assert(line_of(stroke_of(line)).points =~= line.points);
}

/// Turning a wire form into a stroke and back gives the same wire form.
pub proof fn lemma_stroke_round_trip(stroke: StrokeView)
    ensures
        stroke_of(line_of(stroke)) == stroke,
{
    lemma_pack_unpack(stroke.color);
    assert(stroke_of(line_of(stroke)).points =~= stroke.points);
}

} // verus!

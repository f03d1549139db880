//! A small Windows Metafile player.
//!
//! Microsoft Actor stores its artwork as placeable WMFs rather than bitmaps, so
//! the character has to be drawn rather than decoded. The files are narrow in
//! scope: they use only polygons, polylines, ellipses and rounded rectangles,
//! drawn with indirect pens and brushes, so this covers that set and passes
//! over the rest of the format.
//!
//! Playing a metafile gives a list of fills and strokes in logical units, in
//! painting order; turning those into coverage is left to a rasterizer.
use vstd::prelude::*;

use crate::bytes;
use crate::bytes::{dword, has_tag, padded_word, to_signed, word};
use crate::canvas;
use crate::canvas::{blank, read_pixel, Rgba};
use crate::error::{Error, Fault};
use crate::types::Rgb;

verus! {

pub const META_EOF: u16 = 0x0000;

pub const META_SAVEDC: u16 = 0x001E;

pub const META_SETPOLYFILLMODE: u16 = 0x0106;

pub const META_RESTOREDC: u16 = 0x0127;

pub const META_SELECTOBJECT: u16 = 0x012D;

pub const META_DELETEOBJECT: u16 = 0x01F0;

pub const META_SETWINDOWORG: u16 = 0x020B;

pub const META_SETWINDOWEXT: u16 = 0x020C;

pub const META_OFFSETWINDOWORG: u16 = 0x020F;

pub const META_LINETO: u16 = 0x0213;

pub const META_MOVETO: u16 = 0x0214;

pub const META_CREATEPENINDIRECT: u16 = 0x02FA;

pub const META_CREATEFONTINDIRECT: u16 = 0x02FB;

pub const META_CREATEBRUSHINDIRECT: u16 = 0x02FC;

pub const META_POLYGON: u16 = 0x0324;

pub const META_POLYLINE: u16 = 0x0325;

pub const META_SCALEWINDOWEXT: u16 = 0x0410;

pub const META_ELLIPSE: u16 = 0x0418;

pub const META_RECTANGLE: u16 = 0x041B;

pub const META_POLYPOLYGON: u16 = 0x0538;

pub const META_ROUNDRECT: u16 = 0x061C;

/// The pen style that draws nothing.
pub const PS_NULL: u16 = 5;

/// The brush style that fills with one colour.
pub const BS_SOLID: u16 = 0;

/// The hatched brush style, which fills like a solid one.
pub const BS_HATCHED: u16 = 2;

/// A rasterized metafile, 8 bits per channel, non-premultiplied.
#[derive(Debug)]
pub struct Bitmap {
    pub width: usize,
    pub height: usize,
    pub rgba: Vec<u8>,
}

impl Bitmap {
    /// There are four bytes for every pixel.
    pub open spec fn wf(&self) -> bool {
        self.rgba@.len() == self.width * self.height * 4
    }

    /// A bitmap with nothing painted.
    pub fn blank(width: usize, height: usize) -> (r: Bitmap)
        requires
            width * height * 4 <= usize::MAX,
        ensures
            r.wf(),
            r.width == width,
            r.height == height,
            forall|i: int| 0 <= i < r.rgba@.len() ==> #[trigger] r.rgba@[i] == 0,
    {
        Bitmap { width, height, rgba: blank(width, height) }
    }

    /// The pixel at column `x` and row `y`.
    pub fn pixel(&self, x: usize, y: usize) -> (r: Rgba)
        requires
            self.wf(),
            x < self.width,
            y < self.height,
        ensures
            r == canvas::pixel(self.rgba@, self.width as int, x as int, y as int),
    {
        read_pixel(&self.rgba, self.width, self.height, x, y)
    }
}

/// A colour reference, stored as `0x00BBGGRR`.
pub open spec fn color_of(v: u32) -> Rgb {
    Rgb { r: (v % 256) as u8, g: (v / 256 % 256) as u8, b: (v / 65536 % 256) as u8 }
}

/// Splits a colour reference into its channels.
pub fn colorref(v: u32) -> (r: Rgb)
    ensures
        r == color_of(v),
{
    Rgb { r: (v % 256) as u8, g: (v / 256 % 256) as u8, b: (v / 65536 % 256) as u8 }
}

/// How outlines are drawn. The width is in logical units.
#[derive(Debug, Clone, Copy, PartialEq, Eq, Structural)]
pub struct Pen {
    pub style: u16,
    pub width: i16,
    pub color: Rgb,
}

/// How figures are filled.
#[derive(Debug, Clone, Copy, PartialEq, Eq, Structural)]
pub struct Brush {
    pub style: u16,
    pub color: Rgb,
}

/// An entry of the object table.
#[derive(Debug, Clone, Copy, PartialEq, Eq, Structural)]
pub enum Object {
    /// The slot is free.
    Free,
    Pen(Pen),
    Brush(Brush),
    /// Fonts are tracked only so object-table indices stay aligned; text is
    /// not drawn.
    Font,
}

/// The drawing settings: selected pen and brush, fill rule, and the window
/// that maps logical units onto the picture.
#[derive(Debug, Clone, Copy)]
pub struct Dc {
    pub pen: Option<Pen>,
    pub brush: Option<Brush>,
    pub winding_fill: bool,
    pub win_org: (i32, i32),
    pub win_ext: (i32, i32),
}

/// An outline to fill or to stroke.
#[derive(Debug)]
pub enum Path {
    /// Corners in logical units, counted from the window origin.
    Points(Vec<(i32, i32)>),
    /// The ellipse inside a rectangle in logical units, with the window
    /// origin.
    Ellipse { left: i32, top: i32, right: i32, bottom: i32, org: (i32, i32) },
}

/// The value of a [`Path`].
#[verifier::ext_equal]
pub enum PathModel {
    Points(Seq<(i32, i32)>),
    Ellipse { left: i32, top: i32, right: i32, bottom: i32, org: (i32, i32) },
}

impl View for Path {
    type V = PathModel;

    open spec fn view(&self) -> PathModel {
        match self {
            Path::Points(p) => PathModel::Points(p@),
            Path::Ellipse { left, top, right, bottom, org } => PathModel::Ellipse {
                left: *left,
                top: *top,
                right: *right,
                bottom: *bottom,
                org: *org,
            },
        }
    }
}

/// The values of some paths.
pub open spec fn path_models(s: Seq<Path>) -> Seq<PathModel> {
    Seq::new(s.len(), |i: int| s[i]@)
}

/// A drawing operation. The window extent maps logical units to the size of
/// the picture.
#[derive(Debug)]
pub enum Op {
    /// Fills several rings as one figure, so that holes punch through.
    Fill { rings: Vec<Path>, winding: bool, color: Rgb, ext: (i32, i32) },
    /// Strokes one outline.
    Stroke { path: Path, close: bool, width: i16, color: Rgb, ext: (i32, i32) },
}

/// The value of an [`Op`].
#[verifier::ext_equal]
pub enum OpModel {
    Fill { rings: Seq<PathModel>, winding: bool, color: Rgb, ext: (i32, i32) },
    Stroke { path: PathModel, close: bool, width: i16, color: Rgb, ext: (i32, i32) },
}

impl View for Op {
    type V = OpModel;

    open spec fn view(&self) -> OpModel {
        match self {
            Op::Fill { rings, winding, color, ext } => OpModel::Fill {
                rings: path_models(rings@),
                winding: *winding,
                color: *color,
                ext: *ext,
            },
            Op::Stroke { path, close, width, color, ext } => OpModel::Stroke {
                path: path@,
                close: *close,
                width: *width,
                color: *color,
                ext: *ext,
            },
        }
    }
}

/// The values of some drawing operations.
pub open spec fn op_models(s: Seq<Op>) -> Seq<OpModel> {
    Seq::new(s.len(), |i: int| s[i]@)
}

/// Words read one after another; past the end of the record they are zero.
struct Reader<'a> {
    data: &'a [u8],
    pos: u64,
}

/// Parameter word number `k` of a record; past its end, zero.
pub open spec fn param(rec: Seq<u8>, k: int) -> u16 {
    bytes::padded16(rec, 6 + 2 * k)
}

/// Parameter word number `k` of a record as a signed number.
pub open spec fn coord(rec: Seq<u8>, k: int) -> i16 {
    bytes::signed16(param(rec, k))
}

/// Parameter words `k` and `k + 1` of a record as one number, low word first.
pub open spec fn long_param(rec: Seq<u8>, k: int) -> u32 {
    (param(rec, k) + 65536 * param(rec, k + 1)) as u32
}

impl<'a> Reader<'a> {
    /// The next word is parameter `k` of the record.
    spec fn at(&self, rec: Seq<u8>, k: int) -> bool {
        self.data@ == rec && self.pos == 6 + 2 * k
    }

    fn u16(&mut self) -> (r: u16)
        requires
            old(self).pos <= 0x1000_0000_0000_0000,
        ensures
            r == bytes::padded16(old(self).data@, old(self).pos as int),
            final(self).data == old(self).data,
            final(self).pos == old(self).pos + 2,
    {
        let v = padded_word(self.data, self.pos);
        self.pos = self.pos + 2;
        v
    }

    fn i16(&mut self) -> (r: i16)
        requires
            old(self).pos <= 0x1000_0000_0000_0000,
        ensures
            r == bytes::signed16(bytes::padded16(old(self).data@, old(self).pos as int)),
            final(self).data == old(self).data,
            final(self).pos == old(self).pos + 2,
    {
        to_signed(self.u16())
    }

    fn u32(&mut self) -> (r: u32)
        requires
            old(self).pos <= 0x1000_0000_0000_0000 - 2,
        ensures
            r == bytes::padded16(old(self).data@, old(self).pos as int) + 65536 * bytes::padded16(
                old(self).data@,
                old(self).pos + 2,
            ),
            final(self).data == old(self).data,
            final(self).pos == old(self).pos + 4,
    {
        let lo = self.u16() as u32;
        let hi = self.u16() as u32;
        lo + 65536 * hi
    }
}

/// The lowest free slot of the table, or its end.
pub open spec fn free_slot(objects: Seq<Object>) -> int
    decreases objects.len(),
{
    if objects.len() == 0 || objects[0] is Free {
        0
    } else {
        1 + free_slot(objects.drop_first())
    }
}

/// The table with one more object, in the lowest free slot.
pub open spec fn with_object(objects: Seq<Object>, object: Object) -> Seq<Object> {
    let k = free_slot(objects);
    if k < objects.len() {
        objects.update(k, object)
    } else {
        objects.push(object)
    }
}

/// Windows hands out the lowest free slot in the object table: a new object
/// goes into a free slot, or at the end when there is none; every slot below it
/// is taken; and no other object moves.
pub proof fn lowest_slot_first(objects: Seq<Object>, object: Object)
    ensures
        0 <= free_slot(objects) <= objects.len(),
        free_slot(objects) < objects.len() ==> objects[free_slot(objects)] is Free,
        forall|i: int| 0 <= i < free_slot(objects) ==> !(#[trigger] objects[i] is Free),
        with_object(objects, object)[free_slot(objects)] == object,
        with_object(objects, object).len() >= objects.len(),
        forall|i: int|
            0 <= i < objects.len() && i != free_slot(objects) ==> #[trigger] with_object(
                objects,
                object,
            )[i] == objects[i],
    decreases objects.len(),
{
    if objects.len() > 0 && !(objects[0] is Free) {
        let rest = objects.drop_first();
        lowest_slot_first(rest, object);
        assert forall|i: int| 0 <= i < free_slot(objects) implies !(#[trigger] objects[i] is Free) by {
            if i > 0 {
                assert(rest[i - 1] == objects[i]);
            }
        }
        if free_slot(objects) < objects.len() {
            assert(rest[free_slot(rest)] == objects[free_slot(objects)]);
        }
    }
}

proof fn free_slot_is(objects: Seq<Object>, k: int)
    requires
        0 <= k <= objects.len(),
        k < objects.len() ==> objects[k] is Free,
        forall|i: int| 0 <= i < k ==> !(#[trigger] objects[i] is Free),
    ensures
        free_slot(objects) == k,
{
    lowest_slot_first(objects, Object::Free);
    let f = free_slot(objects);
    if f < k {
        assert(objects[f] is Free);
    } else if k < f {
        assert(!(objects[k] is Free));
    }
}

/// Puts an object into the lowest free slot of the table.
pub fn add_object(objects: &mut Vec<Object>, object: Object)
    ensures
        final(objects)@ == with_object(old(objects)@, object),
{
    let mut k: usize = 0;
    let ghost before = objects@;
    while k < objects.len() && !matches!(objects[k], Object::Free)
        invariant
            k <= objects@.len(),
            objects@ == before,
            forall|i: int| 0 <= i < k ==> !(#[trigger] objects@[i] is Free),
        decreases objects@.len() - k,
    {
        k += 1;
    }
    proof {
        free_slot_is(before, k as int);
    }
    if k < objects.len() {
        objects.set(k, object);
    } else {
        objects.push(object);
    }
}

/// Where playing a metafile has got to: the settings, the saved settings, the
/// object table, the current position and the drawing so far.
#[verifier::ext_equal]
pub struct State {
    pub dc: Dc,
    pub stack: Seq<Dc>,
    pub objects: Seq<Object>,
    pub cursor: (i32, i32),
    pub ops: Seq<OpModel>,
}

/// A number that thirty-two bits hold.
pub open spec fn fits32(v: int) -> bool {
    i32::MIN <= v <= i32::MAX
}

/// A point counted from the window origin, if thirty-two bits hold it.
pub open spec fn placed(dc: Dc, x: int, y: int) -> Option<(i32, i32)> {
    if fits32(x - dc.win_org.0) && fits32(y - dc.win_org.1) {
        Some(((x - dc.win_org.0) as i32, (y - dc.win_org.1) as i32))
    } else {
        None
    }
}

/// Some points counted from the window origin, if thirty-two bits hold them
/// all.
pub open spec fn all_placed(dc: Dc, points: Seq<(int, int)>) -> Option<Seq<(i32, i32)>> {
    if forall|i: int|
        0 <= i < points.len() ==> placed(dc, (#[trigger] points[i]).0, points[i].1) is Some {
        Some(
            Seq::new(
                points.len(),
                |i: int| placed(dc, points[i].0, points[i].1)->Some_0,
            ),
        )
    } else {
        None
    }
}

/// The `n` points whose coordinates start at parameter `k`.
pub open spec fn points_at(rec: Seq<u8>, k: int, n: nat) -> Seq<(int, int)> {
    Seq::new(n, |i: int| (coord(rec, k + 2 * i) as int, coord(rec, k + 2 * i + 1) as int))
}

/// The corners of a rectangle, clockwise from the top left.
pub open spec fn corners(left: int, top: int, right: int, bottom: int) -> Seq<(int, int)> {
    seq![(left, top), (right, top), (right, bottom), (left, bottom)]
}

/// The fill of some rings: nothing without a brush, or with one that neither
/// fills solidly nor hatches.
pub open spec fn filled(dc: Dc, rings: Seq<PathModel>) -> Seq<OpModel> {
    match dc.brush {
        Some(b) => if b.style == BS_SOLID || b.style == BS_HATCHED {
            seq![
                OpModel::Fill {
                    rings,
                    winding: dc.winding_fill,
                    color: b.color,
                    ext: dc.win_ext,
                },
            ]
        } else {
            Seq::empty()
        },
        None => Seq::empty(),
    }
}

/// A path has enough points to have an outline.
pub open spec fn has_outline(path: PathModel) -> bool {
    match path {
        PathModel::Points(p) => p.len() >= 2,
        PathModel::Ellipse { .. } => true,
    }
}

/// The stroke of a path: nothing without a pen, with the null pen, or with
/// fewer than two points.
pub open spec fn stroked(dc: Dc, path: PathModel, close: bool) -> Seq<OpModel> {
    match dc.pen {
        Some(p) => if p.style != PS_NULL && has_outline(path) {
            seq![
                OpModel::Stroke { path, close, width: p.width, color: p.color, ext: dc.win_ext },
            ]
        } else {
            Seq::empty()
        },
        None => Seq::empty(),
    }
}

/// The strokes of the first `n` rings, each closed.
pub open spec fn outlines(dc: Dc, rings: Seq<PathModel>, n: nat) -> Seq<OpModel>
    decreases n,
{
    if n == 0 {
        Seq::empty()
    } else {
        outlines(dc, rings, (n - 1) as nat) + stroked(dc, rings[n - 1], true)
    }
}

/// A figure is filled, then each of its rings outlined.
pub open spec fn figure(dc: Dc, rings: Seq<PathModel>) -> Seq<OpModel> {
    filled(dc, rings) + outlines(dc, rings, rings.len())
}

/// A window side after scaling it by `n / d`, if thirty-two bits hold the
/// numbers on the way.
pub open spec fn scaled(v: i32, n: i16, d: i16) -> Option<i32> {
    match v.checked_mul(n as i32) {
        Some(m) => m.checked_div(d as i32),
        None => None,
    }
}

/// The state with more drawn.
pub open spec fn drawn(s: State, more: Seq<OpModel>) -> State {
    State { ops: s.ops + more, ..s }
}

/// The state with other settings.
pub open spec fn under(s: State, dc: Dc) -> State {
    State { dc, ..s }
}

/// Parameter of the `j`th ring's first coordinate in a record of several
/// polygons: after the ring count, the point counts and the rings before it.
pub open spec fn ring_start(rec: Seq<u8>, j: nat) -> int
    decreases j,
{
    if j == 0 {
        1 + param(rec, 0)
    } else {
        ring_start(rec, (j - 1) as nat) + 2 * param(rec, j as int)
    }
}

/// The points of the `j`th ring.
pub open spec fn ring_points(rec: Seq<u8>, j: nat) -> Seq<(int, int)> {
    points_at(rec, ring_start(rec, j), param(rec, (j + 1) as int) as nat)
}

/// The first `n` rings of a record of several polygons.
pub open spec fn rings_upto(dc: Dc, rec: Seq<u8>, n: nat) -> Option<Seq<PathModel>>
    decreases n,
{
    if n == 0 {
        Some(Seq::empty())
    } else {
        match rings_upto(dc, rec, (n - 1) as nat) {
            None => None,
            Some(done) => match all_placed(dc, ring_points(rec, (n - 1) as nat)) {
                Some(p) => Some(done.push(PathModel::Points(p))),
                None => None,
            },
        }
    }
}

/// A figure with the given corners is drawn.
pub open spec fn polygon(s: State, points: Seq<(int, int)>) -> Option<State> {
    match all_placed(s.dc, points) {
        Some(p) => Some(drawn(s, figure(s.dc, seq![PathModel::Points(p)]))),
        None => None,
    }
}

/// The settings after a record that changes the window.
pub open spec fn window_change(dc: Dc, func: u16, rec: Seq<u8>) -> Option<Dc> {
    let y = coord(rec, 0) as i32;
    let x = coord(rec, 1) as i32;
    if func == META_SETWINDOWORG {
        Some(Dc { win_org: (x, y), ..dc })
    } else if func == META_SETWINDOWEXT {
        Some(
            if x != 0 && y != 0 {
                Dc { win_ext: (x, y), ..dc }
            } else {
                dc
            },
        )
    } else if func == META_OFFSETWINDOWORG {
        match (dc.win_org.0.checked_add(x), dc.win_org.1.checked_add(y)) {
            (Some(a), Some(b)) => Some(Dc { win_org: (a, b), ..dc }),
            _ => None,
        }
    } else {
        let yd = coord(rec, 0);
        let yn = coord(rec, 1);
        let xd = coord(rec, 2);
        let xn = coord(rec, 3);
        if xd != 0 && yd != 0 {
            match (scaled(dc.win_ext.0, xn, xd), scaled(dc.win_ext.1, yn, yd)) {
                (Some(a), Some(b)) => Some(Dc { win_ext: (a, b), ..dc }),
                _ => None,
            }
        } else {
            Some(dc)
        }
    }
}

/// The settings after selecting object number `i`.
pub open spec fn selected(dc: Dc, objects: Seq<Object>, i: int) -> Dc {
    if i < objects.len() {
        match objects[i] {
            Object::Pen(p) => Dc { pen: Some(p), ..dc },
            Object::Brush(b) => Dc { brush: Some(b), ..dc },
            _ => dc,
        }
    } else {
        dc
    }
}

/// The state after a record that draws.
pub open spec fn drawing_step(s: State, func: u16, rec: Seq<u8>) -> Option<State> {
    if func == META_LINETO {
        let x = coord(rec, 1) as i32;
        let y = coord(rec, 0) as i32;
        match all_placed(s.dc, seq![(s.cursor.0 as int, s.cursor.1 as int), (x as int, y as int)]) {
            Some(p) => Some(
                State {
                    cursor: (x, y),
                    ..drawn(s, stroked(s.dc, PathModel::Points(p), false))
                },
            ),
            None => None,
        }
    } else if func == META_POLYGON {
        polygon(s, points_at(rec, 1, param(rec, 0) as nat))
    } else if func == META_POLYLINE {
        match all_placed(s.dc, points_at(rec, 1, param(rec, 0) as nat)) {
            Some(p) => Some(drawn(s, stroked(s.dc, PathModel::Points(p), false))),
            None => None,
        }
    } else if func == META_POLYPOLYGON {
        match rings_upto(s.dc, rec, param(rec, 0) as nat) {
            Some(rings) => Some(drawn(s, figure(s.dc, rings))),
            None => None,
        }
    } else if func == META_ELLIPSE {
        let path = PathModel::Ellipse {
            left: coord(rec, 3) as i32,
            top: coord(rec, 2) as i32,
            right: coord(rec, 1) as i32,
            bottom: coord(rec, 0) as i32,
            org: s.dc.win_org,
        };
        Some(drawn(s, figure(s.dc, seq![path])))
    } else if func == META_RECTANGLE {
        polygon(
            s,
            corners(
                coord(rec, 3) as int,
                coord(rec, 2) as int,
                coord(rec, 1) as int,
                coord(rec, 0) as int,
            ),
        )
    } else {
        // The corner rounding is a couple of logical units on artwork this
        // small, so a rounded rectangle is drawn as a plain one.
        polygon(
            s,
            corners(
                coord(rec, 5) as int,
                coord(rec, 4) as int,
                coord(rec, 3) as int,
                coord(rec, 2) as int,
            ),
        )
    }
}

/// The record changes the window.
pub open spec fn is_window_record(func: u16) -> bool {
    func == META_SETWINDOWORG || func == META_SETWINDOWEXT || func == META_OFFSETWINDOWORG || func
        == META_SCALEWINDOWEXT
}

/// The record draws.
pub open spec fn is_drawing_record(func: u16) -> bool {
    func == META_LINETO || func == META_POLYGON || func == META_POLYLINE || func
        == META_POLYPOLYGON || func == META_ELLIPSE || func == META_RECTANGLE || func
        == META_ROUNDRECT
}

/// The record is acted on.
pub open spec fn is_known_record(func: u16) -> bool {
    ||| is_window_record(func)
    ||| is_drawing_record(func)
    ||| func == META_SAVEDC
    ||| func == META_RESTOREDC
    ||| func == META_SETPOLYFILLMODE
    ||| func == META_CREATEPENINDIRECT
    ||| func == META_CREATEBRUSHINDIRECT
    ||| func == META_CREATEFONTINDIRECT
    ||| func == META_DELETEOBJECT
    ||| func == META_SELECTOBJECT
    ||| func == META_MOVETO
}

/// The state after a record, unless a number on the way does not fit in
/// thirty-two bits. Records of no known kind change nothing.
pub open spec fn step(s: State, func: u16, rec: Seq<u8>) -> Option<State> {
    if is_window_record(func) {
        match window_change(s.dc, func, rec) {
            Some(dc) => Some(under(s, dc)),
            None => None,
        }
    } else if is_drawing_record(func) {
        drawing_step(s, func, rec)
    } else if func == META_SAVEDC {
        Some(State { stack: s.stack.push(s.dc), ..s })
    } else if func == META_RESTOREDC {
        if s.stack.len() > 0 {
            Some(State { dc: s.stack.last(), stack: s.stack.drop_last(), ..s })
        } else {
            Some(s)
        }
    } else if func == META_SETPOLYFILLMODE {
        Some(under(s, Dc { winding_fill: param(rec, 0) == 2, ..s.dc }))
    } else if func == META_CREATEPENINDIRECT {
        let pen = Pen {
            style: param(rec, 0),
            width: coord(rec, 1),
            color: color_of(long_param(rec, 3)),
        };
        Some(State { objects: with_object(s.objects, Object::Pen(pen)), ..s })
    } else if func == META_CREATEBRUSHINDIRECT {
        let brush = Brush { style: param(rec, 0), color: color_of(long_param(rec, 1)) };
        Some(State { objects: with_object(s.objects, Object::Brush(brush)), ..s })
    } else if func == META_CREATEFONTINDIRECT {
        Some(State { objects: with_object(s.objects, Object::Font), ..s })
    } else if func == META_DELETEOBJECT {
        let i = param(rec, 0) as int;
        if i < s.objects.len() {
            Some(State { objects: s.objects.update(i, Object::Free), ..s })
        } else {
            Some(s)
        }
    } else if func == META_SELECTOBJECT {
        Some(under(s, selected(s.dc, s.objects, param(rec, 0) as int)))
    } else if func == META_MOVETO {
        Some(State { cursor: (coord(rec, 1) as i32, coord(rec, 0) as i32), ..s })
    } else {
        Some(s)
    }
}

/// The number of bytes of the record at `p`; its size is stored in words.
pub open spec fn record_size(records: Seq<u8>, p: int) -> int {
    2 * bytes::le32(records, p)
}

/// A record to act on starts at `p`: a whole one, and not the end mark. A
/// record is at least its own size and function words.
pub open spec fn more_records(records: Seq<u8>, p: int) -> bool {
    &&& p + 6 <= records.len()
    &&& record_size(records, p) >= 6
    &&& p + record_size(records, p) <= records.len()
    &&& bytes::le16(records, p + 4) != META_EOF
}

/// The state after the records from `p` on.
pub open spec fn run(records: Seq<u8>, p: int, s: State) -> Option<State>
    decreases records.len() - p,
{
    if more_records(records, p) {
        let end = p + record_size(records, p);
        match step(s, bytes::le16(records, p + 4), records.subrange(p, end)) {
            Some(t) => run(records, end, t),
            None => None,
        }
    } else {
        Some(s)
    }
}

/// The mark of a placeable metafile.
pub open spec fn placeable_key() -> Seq<u8> {
    seq![0xD7u8, 0xCDu8, 0xC6u8, 0x9Au8]
}

/// The metafile starts with the 22-byte preamble that carries a bounding box.
pub open spec fn is_placeable(wmf: Seq<u8>) -> bool {
    wmf.len() >= 22 && bytes::tagged(wmf, 0, placeable_key())
}

/// Where the ordinary 18-byte metafile header ends and the records start.
pub open spec fn records_start(wmf: Seq<u8>) -> int {
    if is_placeable(wmf) {
        40
    } else {
        18
    }
}

/// The window a metafile starts with, as origin and extent: its bounding box,
/// or the picture itself when it has none or an empty one.
pub open spec fn first_window(wmf: Seq<u8>, width: usize, height: usize) -> (
    (i32, i32),
    (i32, i32),
) {
    let l = bytes::signed16(bytes::le16(wmf, 6)) as i32;
    let t = bytes::signed16(bytes::le16(wmf, 8)) as i32;
    let r = bytes::signed16(bytes::le16(wmf, 10)) as i32;
    let b = bytes::signed16(bytes::le16(wmf, 12)) as i32;
    if is_placeable(wmf) && r != l && b != t {
        ((l, t), ((r - l) as i32, (b - t) as i32))
    } else {
        ((0, 0), (width as i32, height as i32))
    }
}

/// The state before the first record.
pub open spec fn first_state(wmf: Seq<u8>, width: usize, height: usize) -> State {
    let w = first_window(wmf, width, height);
    State {
        dc: Dc { pen: None, brush: None, winding_fill: false, win_org: w.0, win_ext: w.1 },
        stack: Seq::empty(),
        objects: Seq::empty(),
        cursor: (0, 0),
        ops: Seq::empty(),
    }
}

/// What is left of playing the metafile, unless a number on the way does not
/// fit in thirty-two bits.
pub open spec fn played(wmf: Seq<u8>, width: usize, height: usize) -> Option<State> {
    run(wmf.skip(records_start(wmf)), 0, first_state(wmf, width, height))
}

/// The metafile can be drawn at this size: it is too short to hold records, or
/// nothing is to be drawn, or every number on the way fits in thirty-two bits.
pub open spec fn drawable(wmf: Seq<u8>, width: usize, height: usize) -> bool {
    width == 0 || height == 0 || wmf.len() < records_start(wmf) || played(
        wmf,
        width,
        height,
    ) is Some
}

/// A picture to draw: its size, and what to draw on it, in order.
#[derive(Debug)]
pub struct Drawing {
    pub width: usize,
    pub height: usize,
    pub ops: Vec<Op>,
}

/// The value of a [`Drawing`].
#[verifier::ext_equal]
pub struct DrawingModel {
    pub width: usize,
    pub height: usize,
    pub ops: Seq<OpModel>,
}

impl View for Drawing {
    type V = DrawingModel;

    open spec fn view(&self) -> DrawingModel {
        DrawingModel { width: self.width, height: self.height, ops: op_models(self.ops@) }
    }
}

/// What to draw of a metafile on a `width` x `height` picture, or what is
/// wrong with the metafile. A picture without extent becomes an empty one of
/// at least a pixel each way.
pub open spec fn rendered(wmf: Seq<u8>, width: usize, height: usize) -> Result<
    DrawingModel,
    Fault,
> {
    if width == 0 || height == 0 {
        Ok(
            DrawingModel {
                width: if width == 0 {
                    1
                } else {
                    width
                },
                height: if height == 0 {
                    1
                } else {
                    height
                },
                ops: Seq::empty(),
            },
        )
    } else if wmf.len() < records_start(wmf) {
        Err(Fault::Parse("truncated Actor metafile"@))
    } else {
        Ok(DrawingModel { width, height, ops: played(wmf, width, height)->Some_0.ops })
    }
}

/// The state while records are played.
struct Machine {
    dc: Dc,
    stack: Vec<Dc>,
    objects: Vec<Object>,
    cursor: (i32, i32),
    ops: Vec<Op>,
}

impl View for Machine {
    type V = State;

    closed spec fn view(&self) -> State {
        State {
            dc: self.dc,
            stack: self.stack@,
            objects: self.objects@,
            cursor: self.cursor,
            ops: op_models(self.ops@),
        }
    }
}

fn place(dc: &Dc, x: i32, y: i32) -> (r: Option<(i32, i32)>)
    ensures
        r == placed(*dc, x as int, y as int),
{
    match (x.checked_sub(dc.win_org.0), y.checked_sub(dc.win_org.1)) {
        (Some(a), Some(b)) => Some((a, b)),
        _ => None,
    }
}

proof fn placed_points(dc: Dc, points: Seq<(int, int)>, got: Seq<(i32, i32)>)
    requires
        got.len() == points.len(),
        forall|i: int|
            0 <= i < points.len() ==> placed(dc, (#[trigger] points[i]).0, points[i].1) == Some(
                got[i],
            ),
    ensures
        all_placed(dc, points) == Some(got),
{
    assert forall|i: int| 0 <= i < points.len() implies placed(
        dc,
        (#[trigger] points[i]).0,
        points[i].1,
    ) is Some by {
        assert(placed(dc, points[i].0, points[i].1) == Some(got[i]));
    }
    assert(all_placed(dc, points)->Some_0 =~= got);
}

/// Reads `n` points and counts them from the window origin.
fn read_points(
    r: &mut Reader,
    dc: &Dc,
    n: u16,
    Ghost(rec): Ghost<Seq<u8>>,
    Ghost(k): Ghost<int>,
) -> (out: Option<Vec<(i32, i32)>>)
    requires
        old(r).at(rec, k),
        0 <= k <= 0x10_0000_0000,
    ensures
        match out {
            Some(v) => all_placed(*dc, points_at(rec, k, n as nat)) == Some(v@),
            None => all_placed(*dc, points_at(rec, k, n as nat)) is None,
        },
        out is Some ==> final(r).at(rec, k + 2 * n),
{
    let ghost points = points_at(rec, k, n as nat);
    let mut out: Vec<(i32, i32)> = Vec::new();
    let mut i: u16 = 0;
    while i < n
        invariant
            i <= n,
            0 <= k <= 0x10_0000_0000,
            r.at(rec, k + 2 * i),
            out@.len() == i,
            points == points_at(rec, k, n as nat),
            forall|j: int|
                0 <= j < i ==> placed(*dc, (#[trigger] points[j]).0, points[j].1) == Some(out@[j]),
        decreases n - i,
    {
        let x = r.i16() as i32;
        let y = r.i16() as i32;
        assert(points[i as int] == (x as int, y as int));
        match place(dc, x, y) {
            Some(p) => out.push(p),
            None => {
                return None;
            },
        }
        i += 1;
    }
    proof {
        placed_points(*dc, points, out@);
    }
    Some(out)
}

/// Adds the fill of some rings to the drawing.
fn push_fill(ops: &mut Vec<Op>, dc: &Dc, rings: Vec<Path>)
    ensures
        op_models(final(ops)@) == op_models(old(ops)@) + filled(*dc, path_models(rings@)),
{
    let ghost before = op_models(ops@);
    if let Some(b) = dc.brush {
        if b.style == BS_SOLID || b.style == BS_HATCHED {
            let op = Op::Fill {
                rings,
                winding: dc.winding_fill,
                color: b.color,
                ext: dc.win_ext,
            };
            ops.push(op);
            assert(op_models(ops@) =~= before.push(op@));
            assert(before.push(op@) =~= before + seq![op@]);
            return ;
        }
    }
    assert(before + Seq::<OpModel>::empty() =~= before);
}

/// Adds the stroke of a path to the drawing.
fn push_stroke(ops: &mut Vec<Op>, dc: &Dc, path: Path, close: bool)
    ensures
        op_models(final(ops)@) == op_models(old(ops)@) + stroked(*dc, path@, close),
{
    let ghost before = op_models(ops@);
    let outline = match &path {
        Path::Points(p) => p.len() >= 2,
        Path::Ellipse { .. } => true,
    };
    if let Some(p) = dc.pen {
        if p.style != PS_NULL && outline {
            let op = Op::Stroke { path, close, width: p.width, color: p.color, ext: dc.win_ext };
            ops.push(op);
            assert(op_models(ops@) =~= before.push(op@));
            assert(before.push(op@) =~= before + seq![op@]);
            return ;
        }
    }
    assert(before + Seq::<OpModel>::empty() =~= before);
}

fn copy_points(points: &Vec<(i32, i32)>) -> (r: Vec<(i32, i32)>)
    ensures
        r@ == points@,
{
    let mut out: Vec<(i32, i32)> = Vec::new();
    let mut i: usize = 0;
    while i < points.len()
        invariant
            i <= points@.len(),
            out@ == points@.take(i as int),
        decreases points@.len() - i,
    {
        out.push(points[i]);
        i += 1;
        assert(out@ =~= points@.take(i as int));
    }
    out
}

fn copy_path(path: &Path) -> (r: Path)
    ensures
        r@ == path@,
{
    match path {
        Path::Points(p) => Path::Points(copy_points(p)),
        Path::Ellipse { left, top, right, bottom, org } => Path::Ellipse {
            left: *left,
            top: *top,
            right: *right,
            bottom: *bottom,
            org: *org,
        },
    }
}

fn copy_paths(paths: &Vec<Path>) -> (r: Vec<Path>)
    ensures
        path_models(r@) == path_models(paths@),
{
    let mut out: Vec<Path> = Vec::new();
    let mut i: usize = 0;
    while i < paths.len()
        invariant
            i <= paths@.len(),
            out@.len() == i,
            forall|j: int| 0 <= j < i ==> (#[trigger] out@[j])@ == paths@[j]@,
        decreases paths@.len() - i,
    {
        out.push(copy_path(&paths[i]));
        i += 1;
    }
    assert(path_models(out@) =~= path_models(paths@));
    out
}

/// Adds a figure to the drawing: its fill, then the outline of each ring.
fn push_figure(ops: &mut Vec<Op>, dc: &Dc, rings: Vec<Path>)
    ensures
        op_models(final(ops)@) == op_models(old(ops)@) + figure(*dc, path_models(rings@)),
{
    let ghost before = op_models(ops@);
    let ghost models = path_models(rings@);
    let fill_rings = copy_paths(&rings);
    push_fill(ops, dc, fill_rings);
    let ghost base = before + filled(*dc, models);
    assert(base + outlines(*dc, models, 0) =~= base);
    let mut i: usize = 0;
    while i < rings.len()
        invariant
            i <= rings@.len(),
            models == path_models(rings@),
            op_models(ops@) == base + outlines(*dc, models, i as nat),
        decreases rings@.len() - i,
    {
        let ghost upto = outlines(*dc, models, i as nat);
        let ghost one = stroked(*dc, models[i as int], true);
        let path = copy_path(&rings[i]);
        push_stroke(ops, dc, path, true);
        assert(base + upto + one =~= base + (upto + one));
        i += 1;
    }
    assert(base + outlines(*dc, models, models.len()) =~= before + figure(*dc, models));
}

fn scale(v: i32, n: i16, d: i16) -> (r: Option<i32>)
    ensures
        r == scaled(v, n, d),
{
    match v.checked_mul(n as i32) {
        Some(m) => m.checked_div(d as i32),
        None => None,
    }
}

/// The settings after a record that changes the window.
fn change_window(dc: Dc, func: u16, rec: &[u8]) -> (r: Option<Dc>)
    requires
        is_window_record(func),
    ensures
        r == window_change(dc, func, rec@),
{
    let mut r = Reader { data: rec, pos: 6 };
    if func == META_SCALEWINDOWEXT {
        let yd = r.i16();
        let yn = r.i16();
        let xd = r.i16();
        let xn = r.i16();
        if xd != 0 && yd != 0 {
            return match (scale(dc.win_ext.0, xn, xd), scale(dc.win_ext.1, yn, yd)) {
                (Some(a), Some(b)) => Some(Dc { win_ext: (a, b), ..dc }),
                _ => None,
            };
        }
        return Some(dc);
    }
    let y = r.i16() as i32;
    let x = r.i16() as i32;
    if func == META_SETWINDOWORG {
        Some(Dc { win_org: (x, y), ..dc })
    } else if func == META_SETWINDOWEXT {
        if x != 0 && y != 0 {
            Some(Dc { win_ext: (x, y), ..dc })
        } else {
            Some(dc)
        }
    } else {
        match (dc.win_org.0.checked_add(x), dc.win_org.1.checked_add(y)) {
            (Some(a), Some(b)) => Some(Dc { win_org: (a, b), ..dc }),
            _ => None,
        }
    }
}

/// Places the corners of a rectangle.
fn place_corners(dc: &Dc, left: i32, top: i32, right: i32, bottom: i32) -> (r: Option<
    Vec<(i32, i32)>,
>)
    ensures
        match r {
            Some(v) => all_placed(
                *dc,
                corners(left as int, top as int, right as int, bottom as int),
            ) == Some(v@),
            None => all_placed(
                *dc,
                corners(left as int, top as int, right as int, bottom as int),
            ) is None,
        },
{
    let ghost points = corners(left as int, top as int, right as int, bottom as int);
    assert(points[0] == (left as int, top as int));
    assert(points[1] == (right as int, top as int));
    assert(points[2] == (right as int, bottom as int));
    assert(points[3] == (left as int, bottom as int));
    match (
        place(dc, left, top),
        place(dc, right, top),
        place(dc, right, bottom),
        place(dc, left, bottom),
    ) {
        (Some(a), Some(b), Some(c), Some(d)) => {
            let mut out: Vec<(i32, i32)> = Vec::new();
            out.push(a);
            out.push(b);
            out.push(c);
            out.push(d);
            proof {
                placed_points(*dc, points, out@);
            }
            Some(out)
        },
        _ => None,
    }
}

/// Reads the rings of a record of several polygons.
fn read_rings(dc: &Dc, rec: &[u8]) -> (r: Option<Vec<Path>>)
    ensures
        match r {
            Some(v) => rings_upto(*dc, rec@, param(rec@, 0) as nat) == Some(path_models(v@)),
            None => rings_upto(*dc, rec@, param(rec@, 0) as nat) is None,
        },
{
    let mut r = Reader { data: rec, pos: 6 };
    let polys = r.u16();
    let mut counts: Vec<u16> = Vec::new();
    let mut i: u16 = 0;
    while i < polys
        invariant
            i <= polys,
            r.at(rec@, 1 + i),
            counts@.len() == i,
            forall|j: int| 0 <= j < i ==> #[trigger] counts@[j] == param(rec@, j + 1),
        decreases polys - i,
    {
        counts.push(r.u16());
        i += 1;
    }
    let mut rings: Vec<Path> = Vec::new();
    let mut j: u16 = 0;
    assert(path_models(rings@) =~= Seq::empty());
    while j < polys
        invariant
            j <= polys,
            polys == param(rec@, 0),
            counts@.len() == polys,
            forall|j: int| 0 <= j < polys ==> #[trigger] counts@[j] == param(rec@, j + 1),
            r.at(rec@, ring_start(rec@, j as nat)),
            0 <= ring_start(rec@, j as nat) <= 0x1_0000 + 0x2_0000 * j,
            rings_upto(*dc, rec@, j as nat) == Some(path_models(rings@)),
        decreases polys - j,
    {
        let n = counts[j as usize];
        let ghost k = ring_start(rec@, j as nat);
        let ghost before = path_models(rings@);
        match read_points(&mut r, dc, n, Ghost(rec@), Ghost(k)) {
            Some(p) => {
                let path = Path::Points(p);
                rings.push(path);
                assert(path_models(rings@) =~= before.push(path@));
            },
            None => {
                proof {
                    rings_keep_none(*dc, rec@, (j + 1) as nat, polys as nat);
                }
                return None;
            },
        }
        j += 1;
    }
    Some(rings)
}

proof fn rings_keep_none(dc: Dc, rec: Seq<u8>, n: nat, m: nat)
    requires
        n <= m,
        rings_upto(dc, rec, n) is None,
    ensures
        rings_upto(dc, rec, m) is None,
    decreases m,
{
    if n < m {
        rings_keep_none(dc, rec, n, (m - 1) as nat);
    }
}

impl Machine {
    fn draw_polygon(&mut self, points: Vec<(i32, i32)>)
        ensures
            final(self)@ == drawn(
                old(self)@,
                figure(old(self)@.dc, seq![PathModel::Points(points@)]),
            ),
    {
        let mut rings: Vec<Path> = Vec::new();
        rings.push(Path::Points(points));
        assert(path_models(rings@) =~= seq![PathModel::Points(points@)]);
        let dc = self.dc;
        push_figure(&mut self.ops, &dc, rings);
    }

    fn draw_line(&mut self, rec: &[u8]) -> (ok: bool)
        ensures
            match drawing_step(old(self)@, META_LINETO, rec@) {
                Some(t) => ok && final(self)@ == t,
                None => !ok,
            },
    {
        let mut r = Reader { data: rec, pos: 6 };
        let y = r.i16() as i32;
        let x = r.i16() as i32;
        let dc = self.dc;
        let ghost points = seq![
            (self.cursor.0 as int, self.cursor.1 as int),
            (x as int, y as int),
        ];
        assert(points[0] == (self.cursor.0 as int, self.cursor.1 as int));
        assert(points[1] == (x as int, y as int));
        match (place(&dc, self.cursor.0, self.cursor.1), place(&dc, x, y)) {
            (Some(a), Some(b)) => {
                let mut line: Vec<(i32, i32)> = Vec::new();
                line.push(a);
                line.push(b);
                proof {
                    placed_points(dc, points, line@);
                }
                push_stroke(&mut self.ops, &dc, Path::Points(line), false);
                self.cursor = (x, y);
                true
            },
            _ => false,
        }
    }

    /// Acts on a record that draws. The answer is whether every number fitted.
    fn draw(&mut self, func: u16, rec: &[u8]) -> (ok: bool)
        requires
            is_drawing_record(func),
        ensures
            match drawing_step(old(self)@, func, rec@) {
                Some(t) => ok && final(self)@ == t,
                None => !ok,
            },
    {
        if func == META_LINETO {
            return self.draw_line(rec);
        }
        let mut r = Reader { data: rec, pos: 6 };
        let dc = self.dc;
        if func == META_POLYGON || func == META_POLYLINE {
            let n = r.u16();
            match read_points(&mut r, &dc, n, Ghost(rec@), Ghost(1)) {
                Some(p) => {
                    if func == META_POLYGON {
                        self.draw_polygon(p);
                    } else {
                        push_stroke(&mut self.ops, &dc, Path::Points(p), false);
                    }
                    true
                },
                None => false,
            }
        } else if func == META_POLYPOLYGON {
            match read_rings(&dc, rec) {
                Some(rings) => {
                    push_figure(&mut self.ops, &dc, rings);
                    true
                },
                None => false,
            }
        } else {
            if func == META_ROUNDRECT {
                let _ = r.i16();
                let _ = r.i16();
            }
            let bottom = r.i16() as i32;
            let right = r.i16() as i32;
            let top = r.i16() as i32;
            let left = r.i16() as i32;
            if func == META_ELLIPSE {
                let path = Path::Ellipse { left, top, right, bottom, org: dc.win_org };
                let mut rings: Vec<Path> = Vec::new();
                rings.push(path);
                assert(path_models(rings@) =~= seq![path@]);
                push_figure(&mut self.ops, &dc, rings);
                true
            } else {
                match place_corners(&dc, left, top, right, bottom) {
                    Some(p) => {
                        self.draw_polygon(p);
                        true
                    },
                    None => false,
                }
            }
        }
    }

    /// Acts on a record. The answer is whether every number fitted.
    fn step(&mut self, func: u16, rec: &[u8]) -> (ok: bool)
        ensures
            match step(old(self)@, func, rec@) {
                Some(t) => ok && final(self)@ == t,
                None => !ok,
            },
    {
        let mut r = Reader { data: rec, pos: 6 };
        match func {
            META_SETWINDOWORG | META_SETWINDOWEXT | META_OFFSETWINDOWORG | META_SCALEWINDOWEXT => {
                match change_window(self.dc, func, rec) {
                    Some(dc) => {
                        self.dc = dc;
                        true
                    },
                    None => false,
                }
            },
            META_LINETO | META_POLYGON | META_POLYLINE | META_POLYPOLYGON | META_ELLIPSE
            | META_RECTANGLE | META_ROUNDRECT => self.draw(func, rec),
            META_SAVEDC => {
                self.stack.push(self.dc);
                true
            },
            META_RESTOREDC => {
                // The parameter is a level count, but Actor only ever nests by
                // one, so treating it as a plain pop matches the files.
                if let Some(saved) = self.stack.pop() {
                    self.dc = saved;
                }
                true
            },
            META_SETPOLYFILLMODE => {
                self.dc.winding_fill = r.u16() == 2;
                true
            },
            META_CREATEPENINDIRECT => {
                let style = r.u16();
                let width = r.i16();
                let _ = r.i16();
                let color = colorref(r.u32());
                add_object(&mut self.objects, Object::Pen(Pen { style, width, color }));
                true
            },
            META_CREATEBRUSHINDIRECT => {
                let style = r.u16();
                let color = colorref(r.u32());
                add_object(&mut self.objects, Object::Brush(Brush { style, color }));
                true
            },
            META_CREATEFONTINDIRECT => {
                add_object(&mut self.objects, Object::Font);
                true
            },
            META_DELETEOBJECT => {
                let i = r.u16() as usize;
                if i < self.objects.len() {
                    self.objects.set(i, Object::Free);
                }
                true
            },
            META_SELECTOBJECT => {
                let i = r.u16() as usize;
                if i < self.objects.len() {
                    match self.objects[i] {
                        Object::Pen(pen) => {
                            self.dc.pen = Some(pen);
                        },
                        Object::Brush(brush) => {
                            self.dc.brush = Some(brush);
                        },
                        _ => {},
                    }
                }
                true
            },
            META_MOVETO => {
                let y = r.i16() as i32;
                let x = r.i16() as i32;
                self.cursor = (x, y);
                true
            },
            _ => true,
        }
    }
}

/// Plays the records of a metafile, or finds that a number on the way does not
/// fit in thirty-two bits.
fn play(wmf: &[u8], start: usize, width: usize, height: usize) -> (r: Option<Machine>)
    requires
        start == records_start(wmf@),
        start <= wmf@.len(),
    ensures
        match r {
            Some(m) => played(wmf@, width, height) == Some(m@),
            None => played(wmf@, width, height) is None,
        },
{
    let mut org: (i32, i32) = (0, 0);
    let mut ext: (i32, i32) = (width as i32, height as i32);
    if start == 40 {
        let l = to_signed(word(wmf, 6)) as i32;
        let t = to_signed(word(wmf, 8)) as i32;
        let r = to_signed(word(wmf, 10)) as i32;
        let b = to_signed(word(wmf, 12)) as i32;
        if r != l && b != t {
            org = (l, t);
            ext = (r - l, b - t);
        }
    }
    let mut m = Machine {
        dc: Dc { pen: None, brush: None, winding_fill: false, win_org: org, win_ext: ext },
        stack: Vec::new(),
        objects: Vec::new(),
        cursor: (0, 0),
        ops: Vec::new(),
    };
    assert(m@ =~= first_state(wmf@, width, height));
    let records = vstd::slice::slice_subrange(wmf, start, wmf.len());
    assert(records@ =~= wmf@.skip(start as int));
    let mut p: usize = 0;
    while p <= records.len() && records.len() - p >= 6
        invariant_except_break
            run(records@, p as int, m@) == played(wmf@, width, height),
        invariant
            p <= records@.len(),
        ensures
            Some(m@) == played(wmf@, width, height),
        decreases records@.len() - p,
    {
        let size: u64 = 2 * (dword(records, p) as u64);
        let func = word(records, p + 4);
        if size < 6 || size > (records.len() - p) as u64 || func == META_EOF {
            break;
        }
        let end: usize = p + size as usize;
        let rec = vstd::slice::slice_subrange(records, p, end);
        if !m.step(func, rec) {
            return None;
        }
        p = end;
    }
    Some(m)
}

fn find_records(wmf: &[u8]) -> (r: usize)
    ensures
        r == records_start(wmf@),
{
    let key: [u8; 4] = [0xD7, 0xCD, 0xC6, 0x9A];
    assert(key@ =~= placeable_key());
    if wmf.len() >= 22 && has_tag(wmf, 0, &key) {
        40
    } else {
        18
    }
}

/// Whether a metafile can be drawn at this size.
pub fn is_drawable(wmf: &[u8], width: usize, height: usize) -> (r: bool)
    ensures
        r == drawable(wmf@, width, height),
{
    if width == 0 || height == 0 {
        return true;
    }
    let start = find_records(wmf);
    if wmf.len() < start {
        return true;
    }
    play(wmf, start, width, height).is_some()
}

/// Plays a placeable metafile into what to draw on a `width` x `height`
/// picture. A picture without extent is drawn as an empty one of at least a
/// pixel each way.
pub fn render(wmf: &[u8], width: usize, height: usize) -> (r: Result<Drawing, Error>)
    requires
        drawable(wmf@, width, height),
    ensures
        match r {
            Ok(d) => rendered(wmf@, width, height) == Ok::<DrawingModel, Fault>(d@),
            Err(e) => rendered(wmf@, width, height) == Err::<DrawingModel, Fault>(e@),
        },
{
    if width == 0 || height == 0 {
        let ops: Vec<Op> = Vec::new();
        assert(op_models(ops@) =~= Seq::empty());
        return Ok(
            Drawing {
                width: if width == 0 {
                    1
                } else {
                    width
                },
                height: if height == 0 {
                    1
                } else {
                    height
                },
                ops,
            },
        );
    }
    // Placeable header: a 22-byte preamble carrying the bounding box, followed
    // by the ordinary 18-byte metafile header.
    let start = find_records(wmf);
    if wmf.len() < start {
        return Err(Error::parse("truncated Actor metafile"));
    }
    match play(wmf, start, width, height) {
        Some(m) => Ok(Drawing { width, height, ops: m.ops }),
        None => {
            assert(false);
            Err(Error::parse("truncated Actor metafile"))
        },
    }
}

/// Playing a record only adds to the drawing, and what was drawn stays.
pub proof fn drawing_only_grows(s: State, func: u16, rec: Seq<u8>)
    requires
        step(s, func, rec) is Some,
    ensures
        s.ops.is_prefix_of(step(s, func, rec)->Some_0.ops),
        !is_drawing_record(func) ==> step(s, func, rec)->Some_0.ops == s.ops,
{
}

/// Only saving and restoring touch the saved settings.
pub proof fn records_keep_the_saved_settings(s: State, func: u16, rec: Seq<u8>)
    requires
        func != META_SAVEDC,
        func != META_RESTOREDC,
        step(s, func, rec) is Some,
    ensures
        step(s, func, rec)->Some_0.stack == s.stack,
{
}

/// Restoring brings back the settings that were saved: whatever happened since,
/// as long as the saved settings are the same as right after saving.
pub proof fn restoring_undoes_saving(s: State, later: State, rec: Seq<u8>, rec2: Seq<u8>)
    requires
        later.stack == step(s, META_SAVEDC, rec)->Some_0.stack,
    ensures
        step(later, META_RESTOREDC, rec2) is Some,
        step(later, META_RESTOREDC, rec2)->Some_0.dc == s.dc,
        step(later, META_RESTOREDC, rec2)->Some_0.stack == s.stack,
        step(later, META_RESTOREDC, rec2)->Some_0.ops == later.ops,
{
    assert(s.stack.push(s.dc).drop_last() =~= s.stack);
}

/// Restoring with nothing saved changes nothing, and neither does a record of
/// no known kind.
pub proof fn unknown_records_change_nothing(s: State, func: u16, rec: Seq<u8>)
    ensures
        s.stack.len() == 0 ==> step(s, META_RESTOREDC, rec) == Some(s),
        !is_known_record(func) ==> step(s, func, rec) == Some(s),
{
}

/// Nothing is drawn while neither pen nor brush is selected.
pub proof fn bare_hands_draw_nothing(s: State, func: u16, rec: Seq<u8>)
    requires
        s.dc.pen is None,
        s.dc.brush is None,
        step(s, func, rec) is Some,
    ensures
        step(s, func, rec)->Some_0.ops == s.ops,
{
    assert forall|rings: Seq<PathModel>, n: nat| #[trigger] outlines(s.dc, rings, n)
        == Seq::<OpModel>::empty() by {
        no_outlines(s.dc, rings, n);
    }
}

proof fn no_outlines(dc: Dc, rings: Seq<PathModel>, n: nat)
    requires
        dc.pen is None,
    ensures
        outlines(dc, rings, n) == Seq::<OpModel>::empty(),
    decreases n,
{
    if n > 0 {
        no_outlines(dc, rings, (n - 1) as nat);
    }
}

/// Whatever follows the end mark, or a record that is cut short, changes
/// nothing: playing stops there.
pub proof fn playing_stops_at_the_end_mark(records: Seq<u8>, p: int, s: State)
    requires
        p + 6 <= records.len(),
        bytes::le16(records, p + 4) == META_EOF || record_size(records, p) < 6 || p + record_size(
            records,
            p,
        ) > records.len(),
    ensures
        run(records, p, s) == Some(s),
{
}

/// The sides of an outline with `n` corners, as pairs of corner numbers: each
/// corner to the next, and the last to the first when the outline is closed.
pub open spec fn sides(n: nat, close: bool) -> Seq<(usize, usize)> {
    Seq::new(
        if close || n == 0 {
            n
        } else {
            (n - 1) as nat
        },
        |i: int|
            (
                i as usize,
                if i + 1 == n {
                    0
                } else {
                    (i + 1) as usize
                },
            ),
    )
}

/// Lists the sides of an outline with `n` corners.
pub fn outline_sides(n: usize, close: bool) -> (r: Vec<(usize, usize)>)
    ensures
        r@ == sides(n as nat, close),
{
    let count: usize = if close || n == 0 {
        n
    } else {
        n - 1
    };
    let mut out: Vec<(usize, usize)> = Vec::new();
    let mut i: usize = 0;
    while i < count
        invariant
            i <= count <= n,
            out@.len() == i,
            forall|k: int| 0 <= k < i ==> #[trigger] out@[k] == sides(n as nat, true)[k],
        decreases count - i,
    {
        out.push(
            (
                i,
                if i + 1 == n {
                    0
                } else {
                    i + 1
                },
            ),
        );
        i += 1;
    }
    assert(out@ =~= sides(n as nat, close));
    out
}

/// A closed outline comes back to where it started: every side ends where the
/// next one begins, and the last ends where the first begins.
pub proof fn closed_outlines_come_back(n: nat)
    requires
        0 < n <= usize::MAX,
    ensures
        sides(n, true).len() == n,
        forall|i: int|
            0 <= i < n - 1 ==> (#[trigger] sides(n, true)[i]).1 == sides(n, true)[i + 1].0,
        sides(n, true)[n - 1].1 == sides(n, true)[0].0,
{
}

/// The corners whose joints are squared off, from the first up to the second
/// number: all of a closed outline's, and all but the first of an open one's.
pub fn joint_corners(n: usize, close: bool) -> (r: (usize, usize))
    requires
        n >= 1,
    ensures
        r.0 == (if close {
            0int
        } else {
            1int
        }),
        r.1 == n,
{
    if close {
        (0, n)
    } else {
        (1, n)
    }
}

/// How often the first `n` crossings of a scanline wind round what lies behind
/// them: up counts one, down takes one away.
pub open spec fn winding_number(ups: Seq<bool>, n: nat) -> int
    decreases n,
{
    if n == 0 {
        0
    } else {
        winding_number(ups, (n - 1) as nat) + (if ups[n - 1] {
            1int
        } else {
            -1int
        })
    }
}

/// The span behind crossing `i` is inside the figure: by the winding rule where
/// the figure winds round it, by the even-odd rule every other one.
pub open spec fn is_inside(ups: Seq<bool>, winding: bool, i: int) -> bool {
    if winding {
        winding_number(ups, (i + 1) as nat) != 0
    } else {
        i % 2 == 0
    }
}

/// Tells which spans between the crossings of a scanline are inside the figure.
/// `ups` says of each crossing, from left to right, whether its side goes up.
pub fn inside_spans(ups: &Vec<bool>, winding: bool) -> (r: Vec<bool>)
    ensures
        r@.len() == (if ups@.len() == 0 {
            0
        } else {
            (ups@.len() - 1) as nat
        }),
        forall|i: int| 0 <= i < r@.len() ==> #[trigger] r@[i] == is_inside(ups@, winding, i),
{
    let mut out: Vec<bool> = Vec::new();
    if ups.len() == 0 {
        return out;
    }
    let last: usize = ups.len() - 1;
    let mut above: usize = 0;
    let mut below: usize = 0;
    let mut i: usize = 0;
    while i < last
        invariant
            last + 1 == ups.len(),
            i <= last,
            out@.len() == i,
            above + below == i,
            winding_number(ups@, i as nat) == above - below,
            forall|k: int| 0 <= k < i ==> #[trigger] out@[k] == is_inside(ups@, winding, k),
        decreases last - i,
    {
        if ups[i] {
            above += 1;
        } else {
            below += 1;
        }
        out.push(
            if winding {
                above != below
            } else {
                i % 2 == 0
            },
        );
        i += 1;
    }
    out
}

/// Overlapping shapes wound the same way unite rather than cancel: while every
/// crossing so far goes up, everything behind them is inside.
pub proof fn shapes_wound_alike_unite(ups: Seq<bool>, i: int)
    requires
        0 <= i < ups.len(),
        forall|k: int| 0 <= k <= i ==> #[trigger] ups[k],
    ensures
        is_inside(ups, true, i),
{
    all_up(ups, (i + 1) as nat);
}

proof fn all_up(ups: Seq<bool>, n: nat)
    requires
        n <= ups.len(),
        forall|k: int| 0 <= k < n ==> #[trigger] ups[k],
    ensures
        winding_number(ups, n) == n,
    decreases n,
{
    if n > 0 {
        all_up(ups, (n - 1) as nat);
    }
}

/// The word number `k` behind the size and function words of a record, signed.
pub open spec fn number_at(rec: Seq<u8>, k: int) -> int {
    bytes::signed16(bytes::padded16(rec, 6 + 2 * k)) as int
}

/// A fill of some rings with the selected brush: solid and hatched brushes fill
/// with their colour, under the selected rule; others do not fill.
pub open spec fn one_fill(dc: Dc, rings: Seq<PathModel>) -> Seq<OpModel> {
    if dc.brush matches Some(b) && (b.style == 0 || b.style == 2) {
        seq![
            OpModel::Fill {
                rings,
                winding: dc.winding_fill,
                color: dc.brush->Some_0.color,
                ext: dc.win_ext,
            },
        ]
    } else {
        Seq::empty()
    }
}

/// A stroke with the selected pen, unless there is none or it is the null pen.
pub open spec fn one_stroke(dc: Dc, path: PathModel, close: bool) -> Seq<OpModel> {
    if dc.pen matches Some(p) && p.style != 5 {
        seq![
            OpModel::Stroke {
                path,
                close,
                width: dc.pen->Some_0.width,
                color: dc.pen->Some_0.color,
                ext: dc.win_ext,
            },
        ]
    } else {
        Seq::empty()
    }
}

/// The points are those that the record gives from word `k` on, counted from
/// the window origin.
pub open spec fn are_points(p: Seq<(i32, i32)>, rec: Seq<u8>, k: int, org: (i32, i32)) -> bool {
    forall|i: int|
        0 <= i < p.len() ==> (#[trigger] p[i]).0 == number_at(rec, k + 2 * i) - org.0 && p[i].1
            == number_at(rec, k + 2 * i + 1) - org.1
}

proof fn points_are_placed(dc: Dc, rec: Seq<u8>, k: int, p: Seq<(i32, i32)>)
    requires
        are_points(p, rec, k, dc.win_org),
    ensures
        all_placed(dc, points_at(rec, k, p.len())) == Some(p),
{
    let points = points_at(rec, k, p.len());
    assert forall|i: int| 0 <= i < points.len() implies placed(
        dc,
        (#[trigger] points[i]).0,
        points[i].1,
    ) == Some(p[i]) by {
        assert(p[i].0 == number_at(rec, k + 2 * i) - dc.win_org.0);
    }
    placed_points(dc, points, p);
}

/// A polygon is filled, and then its outline is drawn once round: exactly one
/// stroke is added, and it is closed.
pub proof fn polygons_are_closed(s: State, rec: Seq<u8>, p: Seq<(i32, i32)>)
    requires
        p.len() == bytes::padded16(rec, 6),
        are_points(p, rec, 1, s.dc.win_org),
    ensures
        step(s, 0x0324, rec) == Some(
            State {
                ops: s.ops + one_fill(s.dc, seq![PathModel::Points(p)]) + (if p.len() >= 2 {
                    one_stroke(s.dc, PathModel::Points(p), true)
                } else {
                    Seq::empty()
                }),
                ..s
            },
        ),
{
    points_are_placed(s.dc, rec, 1, p);
    one_ring(s.dc, PathModel::Points(p));
    assert(step(s, 0x0324, rec)->Some_0.ops =~= s.ops + one_fill(
        s.dc,
        seq![PathModel::Points(p)],
    ) + (if p.len() >= 2 {
        one_stroke(s.dc, PathModel::Points(p), true)
    } else {
        Seq::empty()
    }));
}

proof fn one_ring(dc: Dc, path: PathModel)
    ensures
        figure(dc, seq![path]) == one_fill(dc, seq![path]) + (if has_outline(path) {
            one_stroke(dc, path, true)
        } else {
            Seq::empty()
        }),
{
    let rings = seq![path];
    assert(outlines(dc, rings, 0) =~= Seq::empty());
    assert(outlines(dc, rings, 1) == outlines(dc, rings, 0) + stroked(dc, rings[0], true));
    assert(figure(dc, rings) =~= one_fill(dc, rings) + (if has_outline(path) {
        one_stroke(dc, path, true)
    } else {
        Seq::empty()
    }));
}

/// The four corners of a rectangle, once round from the top left, counted from
/// the window origin.
pub open spec fn are_corners(
    p: Seq<(i32, i32)>,
    left: int,
    top: int,
    right: int,
    bottom: int,
    org: (i32, i32),
) -> bool {
    &&& p.len() == 4
    &&& p[0].0 == left - org.0 && p[0].1 == top - org.1
    &&& p[1].0 == right - org.0 && p[1].1 == top - org.1
    &&& p[2].0 == right - org.0 && p[2].1 == bottom - org.1
    &&& p[3].0 == left - org.0 && p[3].1 == bottom - org.1
}

proof fn corners_are_placed(
    dc: Dc,
    p: Seq<(i32, i32)>,
    left: int,
    top: int,
    right: int,
    bottom: int,
)
    requires
        are_corners(p, left, top, right, bottom, dc.win_org),
    ensures
        all_placed(dc, corners(left, top, right, bottom)) == Some(p),
{
    let c = corners(left, top, right, bottom);
    assert forall|i: int| 0 <= i < c.len() implies placed(dc, (#[trigger] c[i]).0, c[i].1) == Some(
        p[i],
    ) by {
        if i == 0 {
        } else if i == 1 {
        } else if i == 2 {
        } else {
            assert(i == 3);
        }
    }
    placed_points(dc, c, p);
}

/// Rectangles, rounded ones too, are filled and outlined once round. A record
/// gives the bottom, the right, the top and the left side; a rounded one gives
/// the corners' height and width before that.
pub proof fn rectangles_are_closed(s: State, rounded: bool, rec: Seq<u8>, p: Seq<(i32, i32)>)
    requires
        ({
            let k: int = if rounded {
                2
            } else {
                0
            };
            are_corners(
                p,
                number_at(rec, k + 3),
                number_at(rec, k + 2),
                number_at(rec, k + 1),
                number_at(rec, k),
                s.dc.win_org,
            )
        }),
    ensures
        step(
            s,
            if rounded {
                0x061C
            } else {
                0x041B
            },
            rec,
        ) == Some(
            State {
                ops: s.ops + one_fill(s.dc, seq![PathModel::Points(p)]) + one_stroke(
                    s.dc,
                    PathModel::Points(p),
                    true,
                ),
                ..s
            },
        ),
{
    let k: int = if rounded {
        2
    } else {
        0
    };
    let func: u16 = if rounded {
        0x061C
    } else {
        0x041B
    };
    corners_are_placed(
        s.dc,
        p,
        number_at(rec, k + 3),
        number_at(rec, k + 2),
        number_at(rec, k + 1),
        number_at(rec, k),
    );
    one_ring(s.dc, PathModel::Points(p));
    assert(step(s, func, rec)->Some_0.ops =~= s.ops + one_fill(s.dc, seq![PathModel::Points(p)])
        + one_stroke(s.dc, PathModel::Points(p), true));
}

/// An ellipse is filled and outlined once round, inside the rectangle that the
/// record gives.
pub proof fn ellipses_are_closed(s: State, rec: Seq<u8>)
    ensures
        ({
            let path = PathModel::Ellipse {
                left: number_at(rec, 3) as i32,
                top: number_at(rec, 2) as i32,
                right: number_at(rec, 1) as i32,
                bottom: number_at(rec, 0) as i32,
                org: s.dc.win_org,
            };
            step(s, 0x0418, rec) == Some(
                State {
                    ops: s.ops + one_fill(s.dc, seq![path]) + one_stroke(s.dc, path, true),
                    ..s
                },
            )
        }),
{
    let path = PathModel::Ellipse {
        left: number_at(rec, 3) as i32,
        top: number_at(rec, 2) as i32,
        right: number_at(rec, 1) as i32,
        bottom: number_at(rec, 0) as i32,
        org: s.dc.win_org,
    };
    one_ring(s.dc, path);
    assert(step(s, 0x0418, rec)->Some_0.ops =~= s.ops + one_fill(s.dc, seq![path]) + one_stroke(
        s.dc,
        path,
        true,
    ));
}

/// A polyline is stroked and left open, and nothing is filled.
pub proof fn polylines_stay_open(s: State, rec: Seq<u8>, p: Seq<(i32, i32)>)
    requires
        p.len() == bytes::padded16(rec, 6),
        are_points(p, rec, 1, s.dc.win_org),
    ensures
        step(s, 0x0325, rec) == Some(
            State {
                ops: s.ops + (if p.len() >= 2 {
                    one_stroke(s.dc, PathModel::Points(p), false)
                } else {
                    Seq::empty()
                }),
                ..s
            },
        ),
{
    points_are_placed(s.dc, rec, 1, p);
}

/// A line goes from the current position to the one in the record, which
/// becomes the current one; moving there draws nothing.
pub proof fn lines_go_on_from_the_cursor(s: State, rec: Seq<u8>, p: Seq<(i32, i32)>)
    requires
        p.len() == 2,
        p[0].0 == s.cursor.0 - s.dc.win_org.0,
        p[0].1 == s.cursor.1 - s.dc.win_org.1,
        p[1].0 == number_at(rec, 1) - s.dc.win_org.0,
        p[1].1 == number_at(rec, 0) - s.dc.win_org.1,
    ensures
        step(s, 0x0213, rec) == Some(
            State {
                cursor: (number_at(rec, 1) as i32, number_at(rec, 0) as i32),
                ops: s.ops + one_stroke(s.dc, PathModel::Points(p), false),
                ..s
            },
        ),
        step(s, 0x0214, rec) == Some(
            State { cursor: (number_at(rec, 1) as i32, number_at(rec, 0) as i32), ..s },
        ),
{
    let points = seq![
        (s.cursor.0 as int, s.cursor.1 as int),
        (number_at(rec, 1), number_at(rec, 0)),
    ];
    assert forall|i: int| 0 <= i < points.len() implies placed(
        s.dc,
        (#[trigger] points[i]).0,
        points[i].1,
    ) == Some(p[i]) by {
        if i == 0 {
        } else {
            assert(i == 1);
        }
    }
    placed_points(s.dc, points, p);
}

/// Closed strokes of the first `n` rings that have at least two points.
pub open spec fn ring_strokes(dc: Dc, rings: Seq<Seq<(i32, i32)>>, n: nat) -> Seq<OpModel>
    decreases n,
{
    if n == 0 {
        Seq::empty()
    } else {
        ring_strokes(dc, rings, (n - 1) as nat) + (if rings[n - 1].len() >= 2 {
            one_stroke(dc, PathModel::Points(rings[n - 1]), true)
        } else {
            Seq::empty()
        })
    }
}

/// Several polygons are filled as one figure, so that holes punch through, and
/// then each is outlined once round. The record gives their number, the number
/// of points of each, and the points one polygon after another; `at` holds the
/// word that each polygon's points start at.
pub proof fn several_polygons_are_one_figure(
    s: State,
    rec: Seq<u8>,
    rings: Seq<Seq<(i32, i32)>>,
    at: Seq<int>,
)
    requires
        rings.len() == bytes::padded16(rec, 6),
        at.len() == rings.len() + 1,
        at[0] == 1 + rings.len(),
        forall|j: int|
            0 <= j < rings.len() ==> (#[trigger] rings[j]).len() == bytes::padded16(
                rec,
                6 + 2 * (j + 1),
            ) && at[j + 1] == at[j] + 2 * rings[j].len() && are_points(
                rings[j],
                rec,
                at[j],
                s.dc.win_org,
            ),
    ensures
        step(s, 0x0538, rec) == Some(
            State {
                ops: s.ops + one_fill(
                    s.dc,
                    Seq::new(rings.len(), |j: int| PathModel::Points(rings[j])),
                ) + ring_strokes(s.dc, rings, rings.len()),
                ..s
            },
        ),
{
    let paths = Seq::new(rings.len(), |j: int| PathModel::Points(rings[j]));
    rings_are_read(s.dc, rec, rings, at, rings.len());
    assert(paths.take(rings.len() as int) =~= paths);
    strokes_of_rings(s.dc, rings, rings.len());
    assert(step(s, 0x0538, rec)->Some_0.ops =~= s.ops + one_fill(s.dc, paths) + ring_strokes(
        s.dc,
        rings,
        rings.len(),
    ));
}

proof fn rings_are_read(
    dc: Dc,
    rec: Seq<u8>,
    rings: Seq<Seq<(i32, i32)>>,
    at: Seq<int>,
    n: nat,
)
    requires
        rings.len() == bytes::padded16(rec, 6),
        n <= rings.len(),
        at.len() == rings.len() + 1,
        at[0] == 1 + rings.len(),
        forall|j: int|
            0 <= j < rings.len() ==> (#[trigger] rings[j]).len() == bytes::padded16(
                rec,
                6 + 2 * (j + 1),
            ) && at[j + 1] == at[j] + 2 * rings[j].len() && are_points(
                rings[j],
                rec,
                at[j],
                dc.win_org,
            ),
    ensures
        ring_start(rec, n) == at[n as int],
        rings_upto(dc, rec, n) == Some(
            Seq::new(rings.len(), |j: int| PathModel::Points(rings[j])).take(n as int),
        ),
    decreases n,
{
    let paths = Seq::new(rings.len(), |j: int| PathModel::Points(rings[j]));
    if n == 0 {
        assert(paths.take(0) =~= Seq::empty());
    } else {
        rings_are_read(dc, rec, rings, at, (n - 1) as nat);
        let j = n - 1;
        assert(rings[j].len() == bytes::padded16(rec, 6 + 2 * (j + 1)));
        points_are_placed(dc, rec, at[j], rings[j]);
        assert(paths.take(n as int) =~= paths.take(j).push(PathModel::Points(rings[j])));
    }
}

proof fn strokes_of_rings(dc: Dc, rings: Seq<Seq<(i32, i32)>>, n: nat)
    requires
        n <= rings.len(),
    ensures
        outlines(dc, Seq::new(rings.len(), |j: int| PathModel::Points(rings[j])), n)
            == ring_strokes(dc, rings, n),
    decreases n,
{
    if n > 0 {
        strokes_of_rings(dc, rings, (n - 1) as nat);
    }
}

/// What the records that draw nothing do, by their function words.
pub proof fn settings_follow_the_records(s: State, rec: Seq<u8>)
    ensures
        step(s, 0x001E, rec) == Some(State { stack: s.stack.push(s.dc), ..s }),
        s.stack.len() > 0 ==> step(s, 0x0127, rec) == Some(
            State { dc: s.stack.last(), stack: s.stack.drop_last(), ..s },
        ),
        step(s, 0x0106, rec) == Some(
            State { dc: Dc { winding_fill: bytes::padded16(rec, 6) == 2, ..s.dc }, ..s },
        ),
        step(s, 0x020B, rec) == Some(
            State {
                dc: Dc {
                    win_org: (number_at(rec, 1) as i32, number_at(rec, 0) as i32),
                    ..s.dc
                },
                ..s
            },
        ),
        step(s, 0x020C, rec) == Some(
            State {
                dc: Dc {
                    win_ext: if number_at(rec, 0) == 0 || number_at(rec, 1) == 0 {
                        s.dc.win_ext
                    } else {
                        (number_at(rec, 1) as i32, number_at(rec, 0) as i32)
                    },
                    ..s.dc
                },
                ..s
            },
        ),
        i32::MIN <= s.dc.win_org.0 + number_at(rec, 1) <= i32::MAX && i32::MIN <= s.dc.win_org.1
            + number_at(rec, 0) <= i32::MAX ==> step(s, 0x020F, rec) == Some(
            State {
                dc: Dc {
                    win_org: (
                        (s.dc.win_org.0 + number_at(rec, 1)) as i32,
                        (s.dc.win_org.1 + number_at(rec, 0)) as i32,
                    ),
                    ..s.dc
                },
                ..s
            },
        ),
        number_at(rec, 0) == 0 || number_at(rec, 2) == 0 ==> step(s, 0x0410, rec) == Some(s),
        step(s, 0x01F0, rec) == Some(
            State {
                objects: if bytes::padded16(rec, 6) < s.objects.len() {
                    s.objects.update(bytes::padded16(rec, 6) as int, Object::Free)
                } else {
                    s.objects
                },
                ..s
            },
        ),
        step(s, 0x012D, rec) == Some(
            State {
                dc: if bytes::padded16(rec, 6) < s.objects.len() {
                    match s.objects[bytes::padded16(rec, 6) as int] {
                        Object::Pen(p) => Dc { pen: Some(p), ..s.dc },
                        Object::Brush(b) => Dc { brush: Some(b), ..s.dc },
                        _ => s.dc,
                    }
                } else {
                    s.dc
                },
                ..s
            },
        ),
{
}

/// A window that is scaled by a fraction keeps its ratio: a side times the
/// number over the divisor, for numbers that are not negative.
pub proof fn scaling_multiplies_the_window(s: State, rec: Seq<u8>)
    requires
        s.dc.win_ext.0 >= 0,
        s.dc.win_ext.1 >= 0,
        number_at(rec, 0) > 0,
        number_at(rec, 1) >= 0,
        number_at(rec, 2) > 0,
        number_at(rec, 3) >= 0,
        s.dc.win_ext.0 * number_at(rec, 3) <= i32::MAX,
        s.dc.win_ext.1 * number_at(rec, 1) <= i32::MAX,
    ensures
        step(s, 0x0410, rec) == Some(
            State {
                dc: Dc {
                    win_ext: (
                        (s.dc.win_ext.0 * number_at(rec, 3) / number_at(rec, 2)) as i32,
                        (s.dc.win_ext.1 * number_at(rec, 1) / number_at(rec, 0)) as i32,
                    ),
                    ..s.dc
                },
                ..s
            },
        ),
{
    assert(s.dc.win_ext.0 * number_at(rec, 3) >= 0) by (nonlinear_arith)
        requires
            s.dc.win_ext.0 >= 0,
            number_at(rec, 3) >= 0,
    ;
    assert(s.dc.win_ext.1 * number_at(rec, 1) >= 0) by (nonlinear_arith)
        requires
            s.dc.win_ext.1 >= 0,
            number_at(rec, 1) >= 0,
    ;
}

/// A new pen has the style, width and colour that its record gives, a new brush
/// the style and colour, and each goes into the lowest free slot of the table.
/// Colours are stored red first.
#[verifier::rlimit(40)]
pub proof fn new_objects_are_as_recorded(
    s: State,
    rec: Seq<u8>,
    slot: int,
    r: u8,
    g: u8,
    b: u8,
    spare: u8,
)
    requires
        0 <= slot <= s.objects.len(),
        forall|i: int| 0 <= i < slot ==> !(#[trigger] s.objects[i] is Free),
        slot < s.objects.len() ==> s.objects[slot] is Free,
    ensures
        ({
            let put = |o: Object|
                if slot < s.objects.len() {
                    s.objects.update(slot, o)
                } else {
                    s.objects.push(o)
                };
            let color = Rgb { r, g, b };
            &&& bytes::padded16(rec, 12) == r + 256 * g && bytes::padded16(rec, 14) == b + 256
                * spare ==> step(s, 0x02FA, rec) == Some(
                State {
                    objects: put(
                        Object::Pen(
                            Pen {
                                style: bytes::padded16(rec, 6),
                                width: number_at(rec, 1) as i16,
                                color,
                            },
                        ),
                    ),
                    ..s
                },
            )
            &&& bytes::padded16(rec, 8) == r + 256 * g && bytes::padded16(rec, 10) == b + 256
                * spare ==> step(s, 0x02FC, rec) == Some(
                State {
                    objects: put(Object::Brush(Brush { style: bytes::padded16(rec, 6), color })),
                    ..s
                },
            )
            &&& step(s, 0x02FB, rec) == Some(State { objects: put(Object::Font), ..s })
        }),
{
    free_slot_is(s.objects, slot);
    color_reads(param(rec, 3), param(rec, 4), r, g, b, spare);
    color_reads(param(rec, 1), param(rec, 2), r, g, b, spare);
}

proof fn color_reads(lo: u16, hi: u16, r: u8, g: u8, b: u8, spare: u8)
    ensures
        lo == r + 256 * g && hi == b + 256 * spare ==> color_of((lo + 65536 * hi) as u32) == (Rgb {
            r,
            g,
            b,
        }),
{
    if lo == r + 256 * g && hi == b + 256 * spare {
        let v = (lo + 65536 * hi) as u32;
        assert(v == r + 256 * g + 65536 * b + 16777216 * spare);
        assert(v % 256 == r);
        assert(v / 256 == g + 256 * b + 65536 * spare);
        assert(v / 65536 == b + 256 * spare);
    }
}

/// Records are played one after another, each on its own bytes, until one that
/// marks the end. A record starts with its length in words and its function.
pub proof fn records_are_played_in_turn(front: Seq<u8>, rec: Seq<u8>, back: Seq<u8>, s: State)
    requires
        rec.len() >= 6,
        rec.len() == 2 * bytes::le32(rec, 0),
        bytes::le16(rec, 4) != 0,
    ensures
        run(front + rec + back, front.len() as int, s) == (match step(
            s,
            bytes::le16(rec, 4),
            rec,
        ) {
            Some(t) => run(front + rec + back, (front.len() + rec.len()) as int, t),
            None => None,
        }),
{
    let all = front + rec + back;
    let p = front.len() as int;
    assert(all.subrange(p, p + rec.len()) =~= rec);
    assert(all[p] == rec[0] && all[p + 1] == rec[1] && all[p + 2] == rec[2] && all[p + 3] == rec[3]
        && all[p + 4] == rec[4] && all[p + 5] == rec[5]);
}

proof fn box_reads(data: Seq<u8>, at: int, v: i16)
    requires
        data[at] == bytes::signed_bytes(v)[0],
        data[at + 1] == bytes::signed_bytes(v)[1],
    ensures
        bytes::signed16(bytes::le16(data, at)) == v,
{
}

/// A placeable metafile with a bounding box is played in that box, on nothing
/// selected and nothing drawn, from the records behind its two headers.
pub proof fn the_box_is_the_first_window(
    handle: Seq<u8>,
    l: i16,
    t: i16,
    r: i16,
    b: i16,
    rest: Seq<u8>,
    records: Seq<u8>,
    width: usize,
    height: usize,
)
    requires
        handle.len() == 2,
        rest.len() == 26,
        l != r,
        t != b,
        width > 0,
        height > 0,
    ensures
        ({
            let wmf = seq![0xD7u8, 0xCDu8, 0xC6u8, 0x9Au8] + handle + bytes::signed_bytes(l)
                + bytes::signed_bytes(t) + bytes::signed_bytes(r) + bytes::signed_bytes(b) + rest
                + records;
            let end = run(
                records,
                0,
                State {
                    dc: Dc {
                        pen: None,
                        brush: None,
                        winding_fill: false,
                        win_org: (l as i32, t as i32),
                        win_ext: ((r - l) as i32, (b - t) as i32),
                    },
                    stack: Seq::empty(),
                    objects: Seq::empty(),
                    cursor: (0, 0),
                    ops: Seq::empty(),
                },
            );
            &&& drawable(wmf, width, height) == (end is Some)
            &&& end matches Some(e) ==> rendered(wmf, width, height) == Ok::<DrawingModel, Fault>(
                DrawingModel { width, height, ops: e.ops },
            )
        }),
{
    let wmf = seq![0xD7u8, 0xCDu8, 0xC6u8, 0x9Au8] + handle + bytes::signed_bytes(l)
        + bytes::signed_bytes(t) + bytes::signed_bytes(r) + bytes::signed_bytes(b) + rest + records;
    assert(wmf.subrange(0, 4) =~= placeable_key());
    box_reads(wmf, 6, l);
    box_reads(wmf, 8, t);
    box_reads(wmf, 10, r);
    box_reads(wmf, 12, b);
    assert(wmf.skip(40) =~= records);
}

/// How many of the first `n` crossings go up.
pub open spec fn ups_among(ups: Seq<bool>, n: nat) -> nat
    decreases n,
{
    if n == 0 {
        0
    } else {
        ups_among(ups, (n - 1) as nat) + (if ups[n - 1] {
            1nat
        } else {
            0nat
        })
    }
}

/// By the winding rule what lies behind as many crossings up as down is
/// outside, and all else is inside; by the even-odd rule inside and outside
/// take turns, with the inside first.
pub proof fn fill_rules(ups: Seq<bool>, i: int)
    requires
        0 <= i < ups.len(),
    ensures
        is_inside(ups, true, i) == (2 * ups_among(ups, (i + 1) as nat) != i + 1),
        is_inside(ups, false, 0),
        is_inside(ups, false, i) == !is_inside(ups, false, i + 1),
{
    windings_count(ups, (i + 1) as nat);
}

proof fn windings_count(ups: Seq<bool>, n: nat)
    ensures
        winding_number(ups, n) == 2 * ups_among(ups, n) - n,
    decreases n,
{
    if n > 0 {
        windings_count(ups, (n - 1) as nat);
    }
}

/// A metafile without a box, or with one of no extent, is played in a window of
/// the picture's size, from the records behind its headers. One that is shorter
/// than its headers is refused, and a picture without extent stays empty and is a
/// pixel wide and high at least.
pub proof fn plain_metafiles_fill_the_picture(
    header: Seq<u8>,
    records: Seq<u8>,
    width: usize,
    height: usize,
)
    requires
        header.len() == 18,
        header.take(4) != seq![0xD7u8, 0xCDu8, 0xC6u8, 0x9Au8],
    ensures
        ({
            let wmf = header + records;
            let end = run(
                records,
                0,
                State {
                    dc: Dc {
                        pen: None,
                        brush: None,
                        winding_fill: false,
                        win_org: (0, 0),
                        win_ext: (width as i32, height as i32),
                    },
                    stack: Seq::empty(),
                    objects: Seq::empty(),
                    cursor: (0, 0),
                    ops: Seq::empty(),
                },
            );
            &&& width > 0 && height > 0 && end is Some ==> rendered(wmf, width, height) == Ok::<
                DrawingModel,
                Fault,
            >(DrawingModel { width, height, ops: end->0.ops })
            &&& width > 0 && height > 0 ==> drawable(wmf, width, height) == (end is Some)
            &&& width == 0 || height == 0 ==> drawable(wmf, width, height) && (rendered(
                wmf,
                width,
                height,
            ) matches Ok(d) && d.ops.len() == 0 && d.width >= 1 && d.height >= 1 && (width > 0
                ==> d.width == width) && (height > 0 ==> d.height == height) && (width == 0
                ==> d.width == 1) && (height == 0 ==> d.height == 1))
        }),
        width > 0 && height > 0 && records.len() < 18 && records.take(4) != seq![
            0xD7u8,
            0xCDu8,
            0xC6u8,
            0x9Au8,
        ] ==> rendered(records, width, height) == Err::<DrawingModel, Fault>(
            Fault::Parse("truncated Actor metafile"@),
        ),
{
    let wmf = header + records;
    let key = seq![0xD7u8, 0xCDu8, 0xC6u8, 0x9Au8];
    assert(placeable_key() =~= key);
    assert(wmf.subrange(0, 4) =~= header.take(4));
    assert(wmf.skip(18) =~= records);
    if records.len() >= 4 {
        assert(records.subrange(0, 4) =~= records.take(4));
    }
}

/// Moving sets the cursor and nothing else, and restoring where nothing has been
/// saved does nothing.
pub proof fn moving_draws_nothing(s: State, rec: Seq<u8>)
    ensures
        step(s, 0x0214, rec) == Some(
            State { cursor: (number_at(rec, 1) as i32, number_at(rec, 0) as i32), ..s },
        ),
        s.stack.len() == 0 ==> step(s, 0x0127, rec) == Some(s),
{
}

/// The sides of an outline go from each corner to the next in their order; an
/// open one has no side from the last corner, and a closed one goes from there to
/// the first.
pub proof fn sides_go_from_corner_to_corner(n: nat, i: int)
    requires
        n <= usize::MAX,
    ensures
        n > 0 ==> sides(n, false).len() == n - 1,
        sides(n, true).len() == n,
        sides(0, false).len() == 0,
        0 <= i < n - 1 ==> sides(n, false)[i] == (i as usize, (i + 1) as usize),
        0 <= i < n - 1 ==> sides(n, true)[i] == (i as usize, (i + 1) as usize),
        n > 0 ==> sides(n, true)[n - 1] == ((n - 1) as usize, 0usize),
{
}

/// Every joint is squared off: of an open outline where a side ends, and of a
/// closed one at every corner.
pub proof fn joints_are_squared_off(n: usize, close: bool, r: (usize, usize), i: int)
    requires
        n >= 1,
        call_ensures(joint_corners, (n, close), r),
        0 <= i < n,
    ensures
        r.0 <= i < r.1 <==> exists|k: int|
            0 <= k < sides(n as nat, close).len() && (#[trigger] sides(n as nat, close)[k]).1 == i,
{
    let all = sides(n as nat, close);
    if i > 0 {
        assert(all[i - 1].1 == i);
    } else if close {
        assert(all[n - 1].1 == 0);
    }
}

/// A record that is shorter than its own start, or longer than what is left, ends
/// the playing, and so does the end of the records.
pub proof fn broken_records_end_the_playing(records: Seq<u8>, p: int, s: State)
    requires
        0 <= p,
        p + 6 > records.len() || bytes::le32(records, p) < 3 || p + 2 * bytes::le32(records, p)
            > records.len(),
    ensures
        run(records, p, s) == Some(s),
{
}

/// The values of drawing operations tell all of them, in their order.
pub proof fn drawings_are_told_in_full(d: Drawing, i: int)
    requires
        0 <= i < d.ops@.len(),
    ensures
        d@.width == d.width && d@.height == d.height,
        d@.ops.len() == d.ops@.len(),
        match d.ops@[i] {
            Op::Fill { rings, winding, color, ext } => {
                &&& d@.ops[i] matches OpModel::Fill { rings: r, winding: w, color: c, ext: e }
                &&& w == winding && c == color && e == ext
                &&& r.len() == rings@.len()
                &&& forall|k: int| 0 <= k < rings@.len() ==> (#[trigger] r[k]) == rings@[k]@
            },
            Op::Stroke { path, close, width, color, ext } => {
                &&& d@.ops[i] matches OpModel::Stroke {
                    path: p,
                    close: cl,
                    width: w,
                    color: c,
                    ext: e,
                }
                &&& p == path@ && cl == close && w == width && c == color && e == ext
            },
        },
{
}

/// The value of a path tells its corners, or its box and origin.
pub proof fn paths_are_told_in_full(p: Path)
    ensures
        match p {
            Path::Points(c) => p@ == PathModel::Points(c@),
            Path::Ellipse { left, top, right, bottom, org } => p@ == (PathModel::Ellipse {
                left,
                top,
                right,
                bottom,
                org,
            }),
        },
{
}

} // verus!
